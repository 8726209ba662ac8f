//! Identifiers of the trie store.
use vstd::prelude::*;

verus! {

/// A transaction identifier.
#[derive(Debug, Clone, Copy, PartialEq, Eq, PartialOrd, Ord, Hash, Structural)]
pub struct Txid(pub usize);

impl Txid {
    /// The identifier below every transaction.
    pub fn floor() -> (r: Txid)
        ensures
            r.0 == 0,
    {
        Txid(0)
    }
}

/// An attribute number.
#[derive(Debug, Clone, Copy, PartialEq, Eq, Hash, Structural)]
pub struct Attr(pub u32);

/// An entity number.
#[derive(Debug, Clone, Copy, PartialEq, Eq, Hash, Structural)]
pub struct Ent(pub u32);

} // verus!
