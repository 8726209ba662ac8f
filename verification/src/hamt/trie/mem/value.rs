use vstd::prelude::*;

use crate::hamt::trie::node::map_base::TrieMapBase;
use crate::hamt::trie::node::model::ValueV;

verus! {

/// An in-memory value: a plain `u32` or a nested trie.
#[derive(Debug, PartialEq, Eq)]
pub enum MemValue {
    U32(u32),
    MapBase(TrieMapBase),
}

impl MemValue {
    pub open spec fn dview(self) -> ValueV
        decreases self,
    {
        match self {
            MemValue::U32(x) => ValueV::U32(x),
            MemValue::MapBase(mb) => ValueV::Sub(mb.dview()),
        }
    }

    pub proof fn lemma_not_stored(self)
        ensures
            !(self.dview() is Stored),
    {
    }

    /// The plain value `v`.
    pub fn from(v: u32) -> (r: Self)
        ensures
            r.dview() == ValueV::U32(v),
    {
        MemValue::U32(v)
    }

    /// A copy of this value.
    pub fn clone(&self) -> (r: Self)
        ensures
            r.dview() == self.dview(),
        decreases self,
    {
        match self {
            MemValue::U32(x) => MemValue::U32(*x),
            MemValue::MapBase(mb) => MemValue::MapBase(mb.clone()),
        }
    }

    /// Whether both values have the same view.
    pub fn same(&self, other: &Self) -> (r: bool)
        ensures
            r == (self.dview() == other.dview()),
        decreases self,
    {
        match (self, other) {
            (MemValue::U32(a), MemValue::U32(b)) => *a == *b,
            (MemValue::MapBase(a), MemValue::MapBase(b)) => a.same(b),
            _ => false,
        }
    }
}

} // verus!
