use vstd::prelude::*;

use crate::client::{QueryError, TransactError};
use crate::hamt::space::Reader;
use crate::hamt::trie::mem::slot::MemSlot;
use crate::hamt::trie::node::key::TrieKey;
use crate::hamt::trie::node::map_base::TrieMapBase;
use crate::hamt::trie::node::model::{
    entries_upto, holds_two, ins, insert_err, two_slot, inserted, kv_exhausts, lemma_entries_err, node_wf, slot_wf, value_wf, BaseV,
    NodeV, SegV, SlotV, ValueV,
};
use crate::hamt::trie::node::persist::{slot_savable, value_savable};
use crate::hamt::trie::node::value::{entries_view, kvs_view};
use crate::hamt::trie::node::value::TrieValue;

verus! {

/// The slots of an in-memory map base, ordered by map index.
#[derive(Debug, PartialEq, Eq)]
pub struct MemBase {
    pub slots: Vec<MemSlot>,
}

impl MemBase {
    pub open spec fn dview(self) -> Seq<SlotV>
        decreases self,
    {
        Seq::new(
            self.slots@.len(),
            |i: int|
                if 0 <= i < self.slots@.len() {
                    proof {
                        vstd::std_specs::vec::axiom_vec_index_decreases(self.slots, i);
                    }
                    self.slots@[i].dview()
                } else {
                    SlotV::Kv(0, ValueV::U32(0))
                },
        )
    }

    /// A copy of this base.
    pub fn clone(&self) -> (r: Self)
        ensures
            r.dview() == self.dview(),
        decreases self,
    {
        let mut out: Vec<MemSlot> = Vec::new();
        let mut i: usize = 0;
        while i < self.slots.len()
            invariant
                i <= self.slots@.len(),
                out@.len() == i,
                forall|j: int| 0 <= j < i ==> #[trigger] out@[j].dview() == self.slots@[j].dview(),
            decreases self.slots@.len() - i,
        {
            proof {
                vstd::std_specs::vec::axiom_vec_index_decreases(self.slots, i as int);
            }
            let c = self.slots[i].clone();
            out.push(c);
            i = i + 1;
        }
        let r = MemBase { slots: out };
        assert forall|j: int| 0 <= j < r.dview().len() implies r.dview()[j] == self.dview()[j] by {
            assert(out@[j].dview() == self.slots@[j].dview());
        }
        assert(r.dview() =~= self.dview());
        r
    }

    /// Whether both bases have the same view.
    pub fn same(&self, other: &Self) -> (r: bool)
        ensures
            r == (self.dview() == other.dview()),
        decreases self,
    {
        if self.slots.len() != other.slots.len() {
            assert(self.dview().len() != other.dview().len());
            return false;
        }
        let mut i: usize = 0;
        while i < self.slots.len()
            invariant
                i <= self.slots@.len(),
                self.slots@.len() == other.slots@.len(),
                forall|j: int| 0 <= j < i ==> #[trigger] self.slots@[j].dview() == other.slots@[j].dview(),
            decreases self.slots@.len() - i,
        {
            proof {
                vstd::std_specs::vec::axiom_vec_index_decreases(self.slots, i as int);
            }
            if !self.slots[i].same(&other.slots[i]) {
                assert(self.dview()[i as int] != other.dview()[i as int]);
                return false;
            }
            i = i + 1;
        }
        assert forall|j: int| 0 <= j < self.dview().len() implies self.dview()[j] == other.dview()[j] by {
            assert(self.slots@[j].dview() == other.slots@[j].dview());
        }
        assert(self.dview() =~= other.dview());
        true
    }
}

} // verus!

verus! {

impl MemBase {
    /// The base without slots.
    pub fn new() -> (r: Self)
        ensures
            r.dview() == Seq::<SlotV>::empty(),
    {
        let r = MemBase { slots: Vec::new() };
        assert(r.dview() =~= Seq::<SlotV>::empty());
        r
    }
}

} // verus!

verus! {

impl MemBase {
    /// The view of a base is the view of each of its slots.
    pub proof fn lemma_dview(self)
        ensures
            self.dview() == self.slots@.map_values(|s: MemSlot| s.dview()),
    {
        assert(self.dview() =~= self.slots@.map_values(|s: MemSlot| s.dview()));
    }
}

} // verus!

verus! {

impl MemBase {
    /// The base holding only `key` with `value`.
    pub fn new_kv(key: TrieKey, value: TrieValue) -> (r: Result<Self, TransactError>)
        ensures
            r matches Ok(b) && b.dview() == seq![SlotV::Kv(key.value, value.dview())],
    {
        let slot = match MemSlot::one_kv(key, value) {
            Ok(s) => s,
            Err(e) => return Err(e),
        };
        let ghost sv = slot.dview();
        let mut slots: Vec<MemSlot> = Vec::new();
        slots.push(slot);
        let b = MemBase { slots };
        proof {
            b.lemma_dview();
            assert(b.dview() =~= seq![sv]);
        }
        Ok(b)
    }

    /// The base holding only the sub-trie `map_base`.
    pub fn new_mb(map_base: TrieMapBase) -> (r: Result<Self, TransactError>)
        ensures
            r matches Ok(b) && b.dview() == seq![SlotV::Sub(map_base.dview())],
    {
        let slot = MemSlot::MapBase(map_base);
        let ghost sv = slot.dview();
        let mut slots: Vec<MemSlot> = Vec::new();
        slots.push(slot);
        let b = MemBase { slots };
        proof {
            b.lemma_dview();
            assert(b.dview() =~= seq![sv]);
        }
        Ok(b)
    }

    /// Number of slots.
    pub fn len(&self) -> (r: usize)
        ensures
            r == self.dview().len(),
    {
        self.slots.len()
    }
}

} // verus!

verus! {

impl MemBase {
    /// This base with a key-value slot for `key` inserted at `base_index`.
    pub fn insert_kv(self, base_index: usize, key: TrieKey, value: TrieValue) -> (r: Result<Self, TransactError>)
        requires
            base_index <= self.dview().len(),
        ensures
            r matches Ok(b) && b.dview() == self.dview().insert(
                base_index as int,
                SlotV::Kv(key.value, value.dview()),
            ),
    {
        let ghost s0 = self.dview();
        proof {
            self.lemma_dview();
        }
        let slot = match MemSlot::one_kv(key, value) {
            Ok(s) => s,
            Err(e) => return Err(e),
        };
        let ghost sv = slot.dview();
        let MemBase { mut slots } = self;
        slots.insert(base_index, slot);
        let b = MemBase { slots };
        proof {
            b.lemma_dview();
            assert(b.dview() =~= s0.insert(base_index as int, sv));
        }
        Ok(b)
    }

    /// This base with the value of the key-value slot at `base_index` replaced
    /// by `value`; a sub-trie slot there has no value to replace.
    pub fn replace_value(self, base_index: usize, value: TrieValue) -> (r: Result<Self, TransactError>)
        requires
            base_index < self.dview().len(),
        ensures
            match self.dview()[base_index as int] {
                SlotV::Kv(k, _) => r matches Ok(b) && b.dview() == self.dview().update(
                    base_index as int,
                    SlotV::Kv(k, value.dview()),
                ),
                SlotV::Sub(_) => r == Err::<Self, TransactError>(TransactError::InvalidSlotType),
            },
    {
        let ghost s0 = self.dview();
        proof {
            self.lemma_dview();
        }
        let MemBase { mut slots } = self;
        let slot = match slots.remove(base_index).replace_value(value) {
            Ok(s) => s,
            Err(e) => return Err(e),
        };
        let ghost sv = slot.dview();
        slots.insert(base_index, slot);
        let b = MemBase { slots };
        proof {
            b.lemma_dview();
            assert(b.dview() =~= s0.update(base_index as int, sv));
        }
        Ok(b)
    }

    /// This base with the key-value slot at `base_index`, which holds another
    /// key than `key`, split into a sub-trie holding both keys one position
    /// deeper; it fails when the two keys run out of positions.
    pub fn kick_kv(self, base_index: usize, key: TrieKey, value: TrieValue, reader: &Reader) -> (r: Result<
        Self,
        TransactError,
    >)
        requires
            key.wf(),
            base_index < self.dview().len(),
            self.dview()[base_index as int] is Kv,
            self.dview()[base_index as int]->Kv_0 != key.value,
            slot_wf(self.dview()[base_index as int]),
            value_wf(value.dview()),
        ensures
            ({
                let b = self.dview()[base_index as int]->Kv_0;
                let bv = self.dview()[base_index as int]->Kv_1;
                &&& kv_exhausts(key, b) ==> r == Err::<Self, TransactError>(TransactError::KeyExhausted)
                &&& !kv_exhausts(key, b) ==> (r matches Ok(nb) && nb.dview() == self.dview().update(
                    base_index as int,
                    nb.dview()[base_index as int],
                ) && nb.dview()[base_index as int] is Sub && node_wf(nb.dview()[base_index as int]->Sub_0)
                    && holds_two(
                    reader.dview(),
                    nb.dview()[base_index as int]->Sub_0,
                    TrieKey::at(b, key.level, key.hash_index).step(),
                    bv,
                    key.step(),
                    value.dview(),
                ) && nb.dview() == self.dview().update(
                    base_index as int,
                    two_slot(TrieKey::at(b, key.level, key.hash_index).step(), bv, key.step(), value.dview()),
                ))
            }),
            r matches Ok(nb) ==> (slot_savable(reader.dview(), self.dview()[base_index as int]) && value_savable(
                reader.dview(),
                value.dview(),
            ) ==> slot_savable(reader.dview(), nb.dview()[base_index as int])),
    {
        let ghost s0 = self.dview();
        proof {
            self.lemma_dview();
        }
        let MemBase { mut slots } = self;
        let pre_slot = slots.remove(base_index);
        let (b, b_value) = match pre_slot {
            MemSlot::KeyValue(b, b_value) => (b, b_value),
            MemSlot::MapBase(_) => vstd::pervasive::unreached(),
        };
        if key.at_last() {
            return Err(TransactError::KeyExhausted);
        }
        let b_key = key.sync(b);
        proof {
            b_key.lemma_step();
            key.lemma_step();
        }
        let slot = match MemSlot::two_kv(b_key.next(), b_value, key.next(), value, reader) {
            Ok(s) => s,
            Err(e) => return Err(e),
        };
        let ghost sv = slot.dview();
        slots.insert(base_index, slot);
        let nb = MemBase { slots };
        proof {
            nb.lemma_dview();
            assert(nb.dview() =~= s0.update(base_index as int, sv));
        }
        Ok(nb)
    }

    /// The slot at `base_index`.
    pub fn as_slot(&self, base_index: usize) -> (r: Result<&MemSlot, QueryError>)
        ensures
            base_index < self.dview().len() ==> (r matches Ok(s) && s.dview() == self.dview()[base_index as int]),
            base_index >= self.dview().len() ==> r == Err::<&MemSlot, QueryError>(
                QueryError::BaseIndexOutOfBounds(base_index),
            ),
    {
        if base_index < self.slots.len() {
            Ok(&self.slots[base_index])
        } else {
            Err(QueryError::BaseIndexOutOfBounds(base_index))
        }
    }
}

} // verus!

verus! {

impl MemBase {
    /// This base with `key` inserted one position deeper into the sub-trie at
    /// `base_index`.
    pub fn merge_kv(self, base_index: usize, key: TrieKey, value: TrieValue, reader: &Reader) -> (r: Result<
        Self,
        TransactError,
    >)
        requires
            key.wf(),
            base_index < self.dview().len(),
            self.dview()[base_index as int] is Sub,
            node_wf(self.dview()[base_index as int]->Sub_0),
            value_wf(value.dview()),
        ensures
            ({
                let c = self.dview()[base_index as int]->Sub_0;
                if key.is_last() {
                    r == Err::<Self, TransactError>(TransactError::KeyExhausted)
                } else {
                    match insert_err(reader.dview(), c, key.step()) {
                        Some(e) => r == Err::<Self, TransactError>(e),
                        None => r matches Ok(b) && b.dview() == self.dview().update(
                            base_index as int,
                            b.dview()[base_index as int],
                        ) && b.dview()[base_index as int] is Sub && node_wf(b.dview()[base_index as int]->Sub_0)
                            && inserted(reader.dview(), c, key.step(), value.dview(), b.dview()[base_index as int]->Sub_0)
                            && b.dview() == self.dview().update(
                            base_index as int,
                            SlotV::Sub(ins(reader.dview(), c, key.step(), value.dview())),
                        ),
                    }
                }
            }),
    {
        let ghost s0 = self.dview();
        proof {
            self.lemma_dview();
        }
        let MemBase { mut slots } = self;
        let pre_slot = slots.remove(base_index);
        let post_slot = match pre_slot.merge_kv(key, value, reader) {
            Ok(s) => s,
            Err(e) => return Err(e),
        };
        let ghost sv = post_slot.dview();
        slots.insert(base_index, post_slot);
        let b = MemBase { slots };
        proof {
            b.lemma_dview();
            assert(b.dview() =~= s0.update(base_index as int, sv));
        }
        Ok(b)
    }
}

} // verus!

verus! {

/// The entries of the slots `s` in order, each sub-trie's entries in its
/// slot's place.
pub open spec fn base_entries(sp: Seq<SegV>, s: Seq<SlotV>) -> Result<Seq<(i32, ValueV)>, QueryError> {
    entries_upto(sp, NodeV { map: 0, base: BaseV::Slots(s) }, s.len())
}

impl MemBase {
    /// The entries of all slots in order.
    pub fn query_key_values(&self, reader: &Reader) -> (r: Result<Vec<(i32, TrieValue)>, QueryError>)
        ensures
            kvs_view(r) == base_entries(reader.dview(), self.dview()),
    {
        let ghost sp = reader.dview();
        let ghost n = NodeV { map: 0, base: BaseV::Slots(self.dview()) };
        proof {
            self.lemma_dview();
        }
        let mut result: Vec<(i32, TrieValue)> = Vec::new();
        assert(entries_view(result@) =~= Seq::<(i32, ValueV)>::empty());
        let mut i: usize = 0;
        while i < self.slots.len()
            invariant
                i <= self.slots@.len(),
                self.dview() == self.slots@.map_values(|s: MemSlot| s.dview()),
                n == (NodeV { map: 0, base: BaseV::Slots(self.dview()) }),
                sp == reader.dview(),
                entries_upto(sp, n, i as nat) == Ok::<Seq<(i32, ValueV)>, QueryError>(entries_view(result@)),
            decreases self.slots@.len() - i,
        {
            let mut more = match self.slots[i].query_key_values(reader) {
                Ok(m) => m,
                Err(e) => {
                    proof {
                        lemma_entries_err(sp, n, (i + 1) as nat, self.slots@.len());
                    }
                    return Err(e);
                },
            };
            let ghost pre = result@;
            let ghost added = more@;
            result.append(&mut more);
            proof {
                assert(self.dview()[i as int] == self.slots@[i as int].dview());
                assert(entries_view(result@) =~= entries_view(pre) + entries_view(added));
                assert(entries_view(result@) =~= entries_upto(sp, n, (i + 1) as nat)->Ok_0);
            }
            i = i + 1;
        }
        Ok(result)
    }
}

} // verus!
