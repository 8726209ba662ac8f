//! The facts a database stores: entities, attributes, values and transactions.
use vstd::prelude::*;

verus! {

/// An entity.
#[derive(Debug, Clone, Copy, PartialEq, Eq, PartialOrd, Ord, Hash, Structural)]
pub struct Ent(pub i64);

/// An attribute, named by a static string.
#[derive(Debug, Clone, Copy, PartialEq, Eq, Hash)]
pub struct Attr(pub &'static str);

/// A value of an attribute.
#[derive(Debug, Clone, PartialEq, Eq, Hash, Structural)]
pub enum Val {
    Uint(u64),
}

/// A fact to record: one attribute value of an entity, or several at once.
#[derive(Debug, Clone, PartialEq, Eq)]
pub enum Datom {
    Add(Ent, Attr, Val),
    Id(Ent, Vec<(Attr, Val)>),
}

/// A transaction number.
#[derive(Debug, Clone, Copy, PartialEq, Eq, PartialOrd, Ord, Hash, Structural)]
pub struct Tx(pub u64);

impl Tx {
    /// The transaction that follows this one.
    pub fn next(&self) -> (r: Tx)
        requires
            self.0 < u64::MAX,
        ensures
            r.0 == self.0 + 1,
    {
        Tx(self.0 + 1)
    }
}

} // verus!
