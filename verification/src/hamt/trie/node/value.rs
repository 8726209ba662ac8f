use vstd::prelude::*;

use crate::client::{QueryError, TransactError};
use crate::hamt::space::{Read, ReadError, Reader, Value, ValueAddr};
use crate::hamt::trie::mem::value::MemValue;
use crate::hamt::trie::node::base::TrieBase;
use crate::hamt::trie::node::map::TrieMap;
use crate::hamt::trie::node::map_base::TrieMapBase;
use crate::hamt::trie::node::model::{resolve, ValueV};

verus! {

/// View of the result of a query.
pub open spec fn opt_view(r: Result<Option<TrieValue>, QueryError>) -> Result<Option<ValueV>, QueryError> {
    match r {
        Ok(Some(v)) => Ok(Some(v.dview())),
        Ok(None) => Ok(None),
        Err(e) => Err(e),
    }
}

/// A value held in a trie slot: in memory, or stored in a space.
#[derive(Debug, PartialEq, Eq)]
pub enum TrieValue {
    Mem(MemValue),
    Space(ValueAddr),
}

impl TrieValue {
    pub open spec fn dview(self) -> ValueV
        decreases self,
    {
        match self {
            TrieValue::Mem(m) => m.dview(),
            TrieValue::Space(a) => ValueV::Stored(a),
        }
    }

    /// The in-memory value `v`, which must leave the high bit clear.
    pub fn u32(v: u32) -> (r: Self)
        requires
            v & 0x80000000u32 == 0,
        ensures
            r.dview() == ValueV::U32(v),
    {
        TrieValue::Mem(MemValue::U32(v))
    }

    /// A copy of this value.
    pub fn clone(&self) -> (r: Self)
        ensures
            r.dview() == self.dview(),
        decreases self,
    {
        match self {
            TrieValue::Mem(m) => TrieValue::Mem(m.clone()),
            TrieValue::Space(a) => TrieValue::Space(*a),
        }
    }

    /// Whether both values have the same view.
    pub fn same(&self, other: &Self) -> (r: bool)
        ensures
            r == (self.dview() == other.dview()),
        decreases self,
    {
        match (self, other) {
            (TrieValue::Mem(a), TrieValue::Mem(b)) => a.same(b),
            (TrieValue::Space(a), TrieValue::Space(b)) => *a == *b,
            (TrieValue::Mem(a), TrieValue::Space(_)) => {
                proof {
                    a.lemma_not_stored();
                }
                false
            },
            (TrieValue::Space(_), TrieValue::Mem(b)) => {
                proof {
                    b.lemma_not_stored();
                }
                false
            },
        }
    }
}

} // verus!

verus! {

/// View of a list of entries.
pub open spec fn entries_view(v: Seq<(i32, TrieValue)>) -> Seq<(i32, ValueV)> {
    v.map_values(|p: (i32, TrieValue)| (p.0, p.1.dview()))
}

/// View of the result of listing entries.
pub open spec fn kvs_view(r: Result<Vec<(i32, TrieValue)>, QueryError>) -> Result<Seq<(i32, ValueV)>, QueryError> {
    match r {
        Ok(v) => Ok(entries_view(v@)),
        Err(e) => Err(e),
    }
}

} // verus!

verus! {

impl TrieValue {
    /// The value in memory: as it is, or read from the space through `reader`.
    pub fn to_mem_value(&self, reader: &Reader) -> (r: Result<MemValue, ReadError>)
        ensures
            match resolve(reader.dview(), self.dview()) {
                Ok(v) => r matches Ok(m) && m.dview() == v,
                Err(e) => r == Err::<MemValue, ReadError>(e),
            },
    {
        match self {
            TrieValue::Mem(value) => Ok(value.clone()),
            TrieValue::Space(addr) => match reader.read_value(*addr) {
                Err(e) => Err(e),
                Ok(Value::U32(v)) => Ok(MemValue::U32(v)),
                Ok(Value::MapBase(map, base_addr)) => Ok(
                    MemValue::MapBase(TrieMapBase { map: TrieMap(map), base: TrieBase::Space(base_addr) }),
                ),
            },
        }
    }
}

} // verus!

verus! {

impl TrieValue {
    /// The plain value `value`, which must leave the high bit clear: the high
    /// bit tells table items that hold a nested trie from those that hold a value.
    pub fn new(value: u32) -> (r: Result<Self, TransactError>)
        ensures
            value & 0x80000000u32 != 0 ==> r == Err::<Self, TransactError>(TransactError::HighBitInValue(value)),
            value & 0x80000000u32 == 0 ==> (r matches Ok(v) && v.dview() == ValueV::U32(value)),
    {
        if value & 0x80000000u32 != 0 {
            return Err(TransactError::HighBitInValue(value));
        }
        Ok(TrieValue::Mem(MemValue::U32(value)))
    }

    /// The plain value held in memory.
    pub fn to_value(&self) -> (r: u32)
        requires
            self.dview() is U32,
        ensures
            self.dview() == ValueV::U32(r),
    {
        match self {
            TrieValue::Mem(MemValue::U32(v)) => *v,
            TrieValue::Mem(MemValue::MapBase(_)) => vstd::pervasive::unreached(),
            TrieValue::Space(_) => vstd::pervasive::unreached(),
        }
    }

    /// The plain value held in memory.
    pub fn to_u32(&self) -> (r: u32)
        requires
            self.dview() is U32,
        ensures
            self.dview() == ValueV::U32(r),
    {
        self.to_value()
    }
}

} // verus!
