use vstd::prelude::*;

use crate::client::{QueryError, TransactError};
use crate::hamt::space::Reader;
use crate::hamt::trie::mem::base::MemBase;
use crate::hamt::trie::node::base::TrieBase;
use crate::hamt::trie::node::key::TrieKey;
use crate::hamt::trie::node::map::TrieMap;
use crate::hamt::trie::node::map_base::TrieMapBase;
use crate::hamt::trie::node::model::{
    entries, holds_two, ins, insert_err, inserted, two_slot, kv_exhausts, lemma_two_deep, lemma_two_node, node_wf, pair_exhausts, slot_find,
    slot_wf, value_wf, BaseV, SlotV,
};
use crate::hamt::trie::node::persist::{base_savable, slot_savable, value_savable};
use crate::hamt::trie::node::value::{entries_view, kvs_view, opt_view, TrieValue};

verus! {

/// A slot of a map base: a key with its value, or a sub-trie.
#[derive(Debug, PartialEq, Eq)]
pub enum MemSlot {
    KeyValue(i32, TrieValue),
    MapBase(TrieMapBase),
}

/// How a key and value meet the slot that the key's map index selects.
#[derive(Debug, Clone, Copy, PartialEq, Eq, Structural)]
pub enum KvTest {
    /// The slot holds the key with the same value.
    SameValue,
    /// The slot holds the key with another value.
    ConflictOldValue,
    /// The slot holds another key.
    ConflictKeyValue,
    /// The slot holds a sub-trie.
    ConflictMapBase,
}

impl MemSlot {
    pub open spec fn dview(self) -> SlotV
        decreases self,
    {
        match self {
            MemSlot::KeyValue(k, v) => SlotV::Kv(k, v.dview()),
            MemSlot::MapBase(mb) => SlotV::Sub(mb.dview()),
        }
    }

    /// A copy of this slot.
    pub fn clone(&self) -> (r: Self)
        ensures
            r.dview() == self.dview(),
        decreases self,
    {
        match self {
            MemSlot::KeyValue(k, v) => MemSlot::KeyValue(*k, v.clone()),
            MemSlot::MapBase(mb) => MemSlot::MapBase(mb.clone()),
        }
    }

    /// Whether both slots have the same view.
    pub fn same(&self, other: &Self) -> (r: bool)
        ensures
            r == (self.dview() == other.dview()),
        decreases self,
    {
        match (self, other) {
            (MemSlot::KeyValue(ka, va), MemSlot::KeyValue(kb, vb)) => *ka == *kb && va.same(vb),
            (MemSlot::MapBase(a), MemSlot::MapBase(b)) => a.same(b),
            _ => false,
        }
    }
}

} // verus!

verus! {

impl MemSlot {
    /// The key-value slot of `key` with `value`.
    pub fn one_kv(key: TrieKey, value: TrieValue) -> (r: Result<Self, TransactError>)
        ensures
            r matches Ok(s) && s.dview() == SlotV::Kv(key.value, value.dview()),
    {
        Ok(MemSlot::KeyValue(key.i32(), value))
    }
}

} // verus!

verus! {

impl MemSlot {
    /// A sub-trie slot holding the two keys `a_key` and `b_key`, which differ in
    /// value and stand at one position. While their map indices agree, the
    /// sub-trie nests one position deeper; it fails when the keys run out of
    /// positions first.
    pub fn two_kv(a_key: TrieKey, a_value: TrieValue, b_key: TrieKey, b_value: TrieValue, reader: &Reader) -> (r:
        Result<Self, TransactError>)
        requires
            a_key.wf(),
            b_key.wf(),
            a_key.same_pos(b_key),
            a_key.value != b_key.value,
            value_wf(a_value.dview()),
            value_wf(b_value.dview()),
        ensures
            pair_exhausts(a_key, b_key) ==> r == Err::<Self, TransactError>(TransactError::KeyExhausted),
            !pair_exhausts(a_key, b_key) ==> (r matches Ok(s) && s.dview() is Sub && node_wf(s.dview()->Sub_0)
                && holds_two(reader.dview(), s.dview()->Sub_0, a_key, a_value.dview(), b_key, b_value.dview())
                && s.dview() == two_slot(a_key, a_value.dview(), b_key, b_value.dview())),
            r matches Ok(s) ==> (value_savable(reader.dview(), a_value.dview()) && value_savable(
                reader.dview(),
                b_value.dview(),
            ) ==> slot_savable(reader.dview(), s.dview())),
        decreases (u32::MAX - a_key.level) as nat, (4 - a_key.hash_index) as nat,
    {
        proof {
            a_key.lemma_wf_map_index();
            b_key.lemma_wf_map_index();
        }
        let ghost sp = reader.dview();
        let ghost av = a_value.dview();
        let ghost bv = b_value.dview();
        let a_map_index = a_key.map_index();
        let b_map_index = b_key.map_index();
        if a_map_index == b_map_index {
            if a_key.at_last() {
                return Err(TransactError::KeyExhausted);
            }
            proof {
                a_key.lemma_step();
                b_key.lemma_step();
            }
            let map = TrieMap::set_map_index_bit(a_map_index);
            let slot = match MemSlot::two_kv(a_key.next(), a_value, b_key.next(), b_value, reader) {
                Ok(s) => s,
                Err(e) => return Err(e),
            };
            let ghost c = slot.dview()->Sub_0;
            let ghost sv = slot.dview();
            let mut slots: Vec<MemSlot> = Vec::new();
            slots.push(slot);
            let base = MemBase { slots };
            proof {
                base.lemma_dview();
                assert(base.dview() =~= seq![sv]);
                lemma_two_deep(sp, a_key, av, b_key, bv, c);
                if value_savable(sp, av) && value_savable(sp, bv) {
                    let b = BaseV::Slots(base.dview());
                    assert(b->Slots_0[0] == sv);
                    assert(base_savable(sp, b));
                }
            }
            Ok(MemSlot::MapBase(TrieMapBase { map, base: TrieBase::Mem(base) }))
        } else {
            match TrieMapBase::two_kv(a_key, a_value, b_key, b_value) {
                Ok(mb) => {
                    proof {
                        lemma_two_node(sp, a_key, av, b_key, bv);
                        if value_savable(sp, av) && value_savable(sp, bv) {
                            let b = mb.dview().base;
                            assert(slot_savable(sp, b->Slots_0[0]));
                            assert(slot_savable(sp, b->Slots_0[1]));
                            assert(base_savable(sp, b));
                        }
                    }
                    Ok(MemSlot::MapBase(mb))
                },
                Err(e) => Err(e),
            }
        }
    }

    /// This key-value slot with its value replaced by `value`; a sub-trie slot
    /// has no value to replace.
    pub fn replace_value(self, value: TrieValue) -> (r: Result<Self, TransactError>)
        ensures
            match self.dview() {
                SlotV::Kv(k, _) => r matches Ok(s) && s.dview() == SlotV::Kv(k, value.dview()),
                SlotV::Sub(_) => r == Err::<Self, TransactError>(TransactError::InvalidSlotType),
            },
    {
        match self {
            MemSlot::KeyValue(key, _) => Ok(MemSlot::KeyValue(key, value)),
            MemSlot::MapBase(_) => Err(TransactError::InvalidSlotType),
        }
    }

    /// How `key` with `value` meets this slot.
    pub fn test_kv(&self, key: &TrieKey, value: &TrieValue) -> (r: KvTest)
        ensures
            r == match self.dview() {
                SlotV::Kv(k, v) => if key.value == k {
                    if v == value.dview() {
                        KvTest::SameValue
                    } else {
                        KvTest::ConflictOldValue
                    }
                } else {
                    KvTest::ConflictKeyValue
                },
                SlotV::Sub(_) => KvTest::ConflictMapBase,
            },
    {
        match self {
            MemSlot::KeyValue(slot_key, slot_value) => {
                if key.i32() == *slot_key {
                    if value.same(slot_value) {
                        KvTest::SameValue
                    } else {
                        KvTest::ConflictOldValue
                    }
                } else {
                    KvTest::ConflictKeyValue
                }
            },
            MemSlot::MapBase(_) => KvTest::ConflictMapBase,
        }
    }

    /// The value this slot holds under the key: its own value when the key
    /// values agree, or what its sub-trie holds one position deeper.
    pub fn query_value(&self, key: TrieKey, reader: &Reader) -> (r: Result<Option<TrieValue>, QueryError>)
        requires
            key.wf(),
        ensures
            opt_view(r) == slot_find(reader.dview(), self.dview(), key),
    {
        match self {
            MemSlot::KeyValue(k, v) => {
                if *k != key.i32() {
                    Ok(None)
                } else {
                    Ok(Some(v.clone()))
                }
            },
            MemSlot::MapBase(map_base) => {
                if key.at_last() {
                    return Err(QueryError::KeyExhausted);
                }
                map_base.query_value(key.next(), reader)
            },
        }
    }
}

} // verus!

verus! {

impl MemSlot {
    /// Merges `key` with `value` into this slot one position deeper: a
    /// key-value slot of another key becomes a sub-trie holding both keys, and
    /// a sub-trie receives the key at the next position.
    pub fn merge_kv(self, key: TrieKey, value: TrieValue, reader: &Reader) -> (r: Result<Self, TransactError>)
        requires
            key.wf(),
            slot_wf(self.dview()),
            value_wf(value.dview()),
            self.dview() is Kv ==> self.dview()->Kv_0 != key.value,
        ensures
            match self.dview() {
                SlotV::Kv(b, bv) => if kv_exhausts(key, b) {
                    r == Err::<Self, TransactError>(TransactError::KeyExhausted)
                } else {
                    r matches Ok(s) && s.dview() is Sub && node_wf(s.dview()->Sub_0) && holds_two(
                        reader.dview(),
                        s.dview()->Sub_0,
                        TrieKey::at(b, key.level, key.hash_index).step(),
                        bv,
                        key.step(),
                        value.dview(),
                    ) && s.dview() == two_slot(TrieKey::at(b, key.level, key.hash_index).step(), bv, key.step(), value.dview())
                },
                SlotV::Sub(c) => if key.is_last() {
                    r == Err::<Self, TransactError>(TransactError::KeyExhausted)
                } else {
                    match insert_err(reader.dview(), c, key.step()) {
                        Some(e) => r == Err::<Self, TransactError>(e),
                        None => r matches Ok(s) && s.dview() is Sub && node_wf(s.dview()->Sub_0) && inserted(
                            reader.dview(),
                            c,
                            key.step(),
                            value.dview(),
                            s.dview()->Sub_0,
                        ) && s.dview() == SlotV::Sub(ins(reader.dview(), c, key.step(), value.dview())),
                    }
                },
            },
    {
        if key.at_last() {
            return Err(TransactError::KeyExhausted);
        }
        proof {
            key.lemma_step();
        }
        match self {
            MemSlot::KeyValue(b, b_value) => {
                let b_key = key.sync(b);
                proof {
                    b_key.lemma_step();
                }
                MemSlot::two_kv(b_key.next(), b_value, key.next(), value, reader)
            },
            MemSlot::MapBase(map_base) => {
                match map_base.insert_kv(key.next(), value, reader) {
                    Ok(m) => Ok(MemSlot::MapBase(m)),
                    Err(e) => Err(e),
                }
            },
        }
    }
}

} // verus!

verus! {

impl MemSlot {
    /// The entries of this slot: its own key and value, or its sub-trie's entries.
    pub fn query_key_values(&self, reader: &Reader) -> (r: Result<Vec<(i32, TrieValue)>, QueryError>)
        ensures
            kvs_view(r) == match self.dview() {
                SlotV::Kv(k, v) => Ok(seq![(k, v)]),
                SlotV::Sub(c) => entries(reader.dview(), c),
            },
    {
        match self {
            MemSlot::KeyValue(key, value) => {
                let mut out: Vec<(i32, TrieValue)> = Vec::new();
                out.push((*key, value.clone()));
                assert(entries_view(out@) =~= seq![(*key, value.dview())]);
                Ok(out)
            },
            MemSlot::MapBase(map_base) => map_base.query_key_values(reader),
        }
    }
}

} // verus!
