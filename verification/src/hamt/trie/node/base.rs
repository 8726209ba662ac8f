use vstd::prelude::*;

use crate::client::{QueryError, TransactError};
use crate::hamt::space::{Extend, Read, Reader, TableAddr, Value};
use crate::hamt::trie::mem::value::MemValue;
use crate::hamt::trie::node::map_base::TrieMapBase;
use crate::hamt::trie::node::persist::{
    base_save_count, base_savable, base_stored, base_wf, lemma_added_value, lemma_persisted_mono, lemma_push_le,
    lemma_add_value_le, lemma_base_stored_le, lemma_save_count_mono, lemma_slot_stored_le, lemma_sp_le_refl, lemma_sp_le_trans, save_count,
    slot_savable, slot_stored, sp_le, value_savable,
};
use crate::hamt::trie::mem::base::MemBase;
use crate::hamt::trie::mem::slot::MemSlot;
use crate::hamt::trie::node::key::TrieKey;
use crate::hamt::trie::node::model::{
    below_pos, ins, insert_err, inserted, node_wf, persisted_item, range_ok, table_item, table_items, value_wf, BaseV, NodeV, SegV, SlotV, ValueV,
};
use crate::hamt::trie::node::value::TrieValue;

verus! {

/// The slots of a map base: in memory, or at a table address in a space.
#[derive(Debug, PartialEq, Eq)]
pub enum TrieBase {
    Mem(MemBase),
    Space(TableAddr),
}

impl TrieBase {
    pub open spec fn dview(self) -> BaseV
        decreases self,
    {
        match self {
            TrieBase::Mem(b) => BaseV::Slots(b.dview()),
            TrieBase::Space(a) => BaseV::Table(a),
        }
    }

    /// A copy of this base.
    pub fn clone(&self) -> (r: Self)
        ensures
            r.dview() == self.dview(),
        decreases self,
    {
        match self {
            TrieBase::Mem(b) => TrieBase::Mem(b.clone()),
            TrieBase::Space(a) => TrieBase::Space(*a),
        }
    }

    /// Whether both bases have the same view.
    pub fn same(&self, other: &Self) -> (r: bool)
        ensures
            r == (self.dview() == other.dview()),
        decreases self,
    {
        match (self, other) {
            (TrieBase::Mem(a), TrieBase::Mem(b)) => a.same(b),
            (TrieBase::Space(a), TrieBase::Space(b)) => *a == *b,
            _ => false,
        }
    }
}

} // verus!

verus! {

impl TrieBase {
    /// Number of slots of a memory base.
    pub fn len(&self) -> (r: usize)
        requires
            self is Mem,
        ensures
            r == self->Mem_0.dview().len(),
    {
        match self {
            TrieBase::Mem(b) => b.len(),
            TrieBase::Space(_) => vstd::pervasive::unreached(),
        }
    }

    /// The slot at `base_index`: from memory, or read from the table through
    /// `reader`.
    pub fn as_slot<'a>(&'a self, base_index: usize, reader: &'a Reader) -> (r: Result<&'a MemSlot, QueryError>)
        ensures
            match self.dview() {
                BaseV::Slots(s) => if base_index < s.len() {
                    r matches Ok(slot) && slot.dview() == s[base_index as int]
                } else {
                    r == Err::<&MemSlot, QueryError>(QueryError::BaseIndexOutOfBounds(base_index))
                },
                BaseV::Table(a) => match table_item(reader.dview(), a, base_index as nat) {
                    Ok(x) => r matches Ok(slot) && slot.dview() == x,
                    Err(e) => r == Err::<&MemSlot, QueryError>(QueryError::Read(e)),
                },
            },
    {
        match self {
            TrieBase::Mem(base) => base.as_slot(base_index),
            TrieBase::Space(base_addr) => match reader.read_slot(base_addr, base_index) {
                Ok(item) => Ok(item),
                Err(e) => Err(QueryError::Read(e)),
            },
        }
    }

    /// The memory base without slots.
    pub fn new() -> (r: Self)
        ensures
            r.dview() == BaseV::Slots(Seq::empty()),
    {
        TrieBase::Mem(MemBase::new())
    }

    /// The memory base holding only `key` with `value`.
    pub fn new_kv(key: TrieKey, value: TrieValue) -> (r: Result<Self, TransactError>)
        ensures
            r matches Ok(b) && b.dview() == BaseV::Slots(seq![SlotV::Kv(key.value, value.dview())]),
    {
        match MemBase::new_kv(key, value) {
            Ok(b) => Ok(TrieBase::Mem(b)),
            Err(e) => Err(e),
        }
    }

    /// The memory base holding only `slot`.
    pub fn new_slot(slot: MemSlot) -> (r: Result<Self, TransactError>)
        ensures
            r matches Ok(b) && b.dview() == BaseV::Slots(seq![slot.dview()]),
    {
        let ghost sv = slot.dview();
        let mut slots: Vec<MemSlot> = Vec::new();
        slots.push(slot);
        let base = MemBase { slots };
        proof {
            base.lemma_dview();
            assert(base.dview() =~= seq![sv]);
        }
        Ok(TrieBase::Mem(base))
    }

    /// This memory base with a key-value slot for `key` inserted at `base_index`.
    pub fn insert_kv(self, base_index: usize, key: TrieKey, value: TrieValue) -> (r: Result<Self, TransactError>)
        requires
            self is Mem,
            base_index <= self->Mem_0.dview().len(),
        ensures
            r matches Ok(b) && b.dview() == BaseV::Slots(
                self->Mem_0.dview().insert(base_index as int, SlotV::Kv(key.value, value.dview())),
            ),
    {
        match self {
            TrieBase::Space(_) => vstd::pervasive::unreached(),
            TrieBase::Mem(mem) => match mem.insert_kv(base_index, key, value) {
                Ok(b) => Ok(TrieBase::Mem(b)),
                Err(e) => Err(e),
            },
        }
    }

    /// This memory base with the value of the key-value slot at `base_index`
    /// replaced by `value`.
    pub fn replace_value(self, base_index: usize, value: TrieValue) -> (r: Result<Self, TransactError>)
        requires
            self is Mem,
            base_index < self->Mem_0.dview().len(),
        ensures
            match self->Mem_0.dview()[base_index as int] {
                SlotV::Kv(k, _) => r matches Ok(b) && b.dview() == BaseV::Slots(
                    self->Mem_0.dview().update(base_index as int, SlotV::Kv(k, value.dview())),
                ),
                SlotV::Sub(_) => r == Err::<Self, TransactError>(TransactError::InvalidSlotType),
            },
    {
        match self {
            TrieBase::Space(_) => vstd::pervasive::unreached(),
            TrieBase::Mem(base) => match base.replace_value(base_index, value) {
                Ok(b) => Ok(TrieBase::Mem(b)),
                Err(e) => Err(e),
            },
        }
    }

    /// This memory base with `key` inserted one position deeper into the
    /// sub-trie at `base_index`.
    pub fn merge_kv(self, base_index: usize, key: TrieKey, value: TrieValue, reader: &Reader) -> (r: Result<
        Self,
        TransactError,
    >)
        requires
            key.wf(),
            self is Mem,
            base_index < self->Mem_0.dview().len(),
            self->Mem_0.dview()[base_index as int] is Sub,
            node_wf(self->Mem_0.dview()[base_index as int]->Sub_0),
            value_wf(value.dview()),
        ensures
            ({
                let s = self->Mem_0.dview();
                let c = s[base_index as int]->Sub_0;
                if key.is_last() {
                    r == Err::<Self, TransactError>(TransactError::KeyExhausted)
                } else {
                    match insert_err(reader.dview(), c, key.step()) {
                        Some(e) => r == Err::<Self, TransactError>(e),
                        None => r matches Ok(b) && b.dview() is Slots && ({
                            let s2 = b.dview()->Slots_0;
                            &&& s2 == s.update(base_index as int, s2[base_index as int])
                            &&& s2[base_index as int] is Sub
                            &&& node_wf(s2[base_index as int]->Sub_0)
                            &&& inserted(reader.dview(), c, key.step(), value.dview(), s2[base_index as int]->Sub_0)
                            &&& s2[base_index as int] == SlotV::Sub(ins(reader.dview(), c, key.step(), value.dview()))
                        }),
                    }
                }
            }),
    {
        match self {
            TrieBase::Space(_) => vstd::pervasive::unreached(),
            TrieBase::Mem(base) => match base.merge_kv(base_index, key, value, reader) {
                Ok(b) => Ok(TrieBase::Mem(b)),
                Err(e) => Err(e),
            },
        }
    }
}

} // verus!

verus! {

impl TrieBase {
    /// Saves this base into the segment under construction and returns its
    /// address: the memory slots become table items appended after everything
    /// they refer to, plain values and nested tries held as values are appended
    /// as values, and a table base stays where it is.
    pub fn save(self, extend: &mut Extend) -> (r: Result<TableAddr, TransactError>)
        requires
            old(extend).wf(),
            old(extend).base().len() <= u32::MAX,
            base_wf(self.dview()),
            base_savable(old(extend).base(), self.dview()),
            old(extend).dview().values.len() + base_save_count(self.dview()).0 <= 0x10000,
            old(extend).dview().table.len() + base_save_count(self.dview()).1 < 0x1_0000_0000,
        ensures
            final(extend).wf(),
            final(extend).seg() == old(extend).seg(),
            final(extend).base() == old(extend).base(),
            final(extend).dview().root == old(extend).dview().root,
            sp_le(old(extend).space(), final(extend).space()),
            final(extend).dview().values.len() == old(extend).dview().values.len() + base_save_count(self.dview()).0,
            final(extend).dview().table.len() == old(extend).dview().table.len() + base_save_count(self.dview()).1,
            r matches Ok(a) && base_stored(final(extend).space(), self.dview(), a) && (self.dview() is Table ==> a
                == self.dview()->Table_0) && (self.dview() is Slots ==> a.0 == old(extend).seg() && a.1.0
                + self.dview()->Slots_0.len() == final(extend).dview().table.len()),
        decreases self,
    {
        let ghost sv = self.dview();
        match self {
            TrieBase::Space(addr) => {
                proof {
                    lemma_sp_le_refl(extend.space());
                    assert(sv == BaseV::Table(addr));
                    assert(base_stored(extend.space(), sv, addr));
                }
                Ok(addr)
            },
            TrieBase::Mem(base) => {
                let ghost s = base.dview();
                proof {
                    base.lemma_dview();
                }
                let MemBase { slots } = base;
                let ghost orig_vec: Vec<MemSlot> = slots;
                let ghost orig = slots@;
                let mut slots = slots;
                let mut items: Vec<MemSlot> = Vec::new();
                let ghost mut i: nat = 0;
                let ghost seg = extend.seg();
                proof {
                    lemma_sp_le_refl(extend.space());
                    assert(slots@ =~= orig.skip(0));
                }
                while slots.len() > 0
                    invariant
                        sv == BaseV::Slots(s),
                        s == orig.map_values(|x: MemSlot| x.dview()),
                        orig == orig_vec@,
                        self == TrieBase::Mem(MemBase { slots: orig_vec }),
                        i <= orig.len(),
                        slots@ == orig.skip(i as int),
                        items@.len() == i,
                        base_wf(sv),
                        base_savable(old(extend).base(), sv),
                        old(extend).dview().values.len() + save_count(s, s.len()).0 <= 0x10000,
                        old(extend).dview().table.len() + save_count(s, s.len()).1 < 0x1_0000_0000,
                        old(extend).base().len() <= u32::MAX,
                        seg == old(extend).seg(),
                        extend.wf(),
                        extend.seg() == seg,
                        extend.base() == old(extend).base(),
                        extend.dview().root == old(extend).dview().root,
                        sp_le(old(extend).space(), extend.space()),
                        extend.dview().values.len() == old(extend).dview().values.len() + save_count(s, i).0,
                        extend.dview().table.len() + i == old(extend).dview().table.len() + save_count(s, i).1,
                        forall|k: int|
                            0 <= k < i ==> slot_stored(extend.space(), s[k], (#[trigger] items@[k]).dview())
                                && persisted_item(
                                extend.space(),
                                seg.0 as nat,
                                extend.dview().table.len(),
                                items@[k].dview(),
                            ),
                    decreases slots@.len(),
                {
                    let ghost pre_space = extend.space();
                    let ghost pre_items = items@;
                    let ghost si = s[i as int];
                    proof {
                        assert(slots@[0] == orig[i as int]);
                        lemma_save_count_mono(s, i + 1, s.len());
                        assert(slot_savable(old(extend).base(), sv->Slots_0[i as int]));
                    }
                    let slot = slots.remove(0);
                    let item = match slot {
                        MemSlot::KeyValue(key, value) => {
                            let value_addr = match value {
                                TrieValue::Space(value_addr) => {
                                    proof {
                                        lemma_sp_le_refl(pre_space);
                                    }
                                    value_addr
                                },
                                TrieValue::Mem(MemValue::U32(x)) => {
                                    proof {
                                        lemma_added_value(extend.base(), extend.dview(), Value::U32(x));
                                        lemma_add_value_le(extend.base(), extend.dview(), Value::U32(x));
                                    }
                                    extend.add_value(Value::U32(x))
                                },
                                TrieValue::Mem(MemValue::MapBase(TrieMapBase { map, base: cb })) => {
                                    proof {
                                        vstd::std_specs::vec::axiom_vec_index_decreases(orig_vec, i as int);
                                        let c = NodeV { map: map.0, base: cb.dview() };
                                        assert(si == SlotV::Kv(key, ValueV::Sub(c)));
                                        assert(value_wf(ValueV::Sub(c)));
                                        assert(node_wf(c));
                                        assert(value_savable(old(extend).base(), ValueV::Sub(c)));
                                    }
                                    let base_addr = match cb.save(extend) {
                                        Ok(a) => a,
                                        Err(e) => return Err(e),
                                    };
                                    let ghost mid_space = extend.space();
                                    proof {
                                        lemma_add_value_le(extend.base(), extend.dview(), Value::MapBase(map.0, base_addr));
                                        lemma_base_stored_le(mid_space, extend.base().push(SegV {
                                            values: extend.dview().values.push(Value::MapBase(map.0, base_addr)),
                                            ..extend.dview()
                                        }), cb.dview(), base_addr);
                                        lemma_added_value(extend.base(), extend.dview(), Value::MapBase(map.0, base_addr));
                                        lemma_add_value_le(extend.base(), extend.dview(), Value::MapBase(map.0, base_addr));
                                        lemma_sp_le_trans(pre_space, mid_space, extend.base().push(SegV {
                                            values: extend.dview().values.push(Value::MapBase(map.0, base_addr)),
                                            ..extend.dview()
                                        }));
                                    }
                                    extend.add_value(Value::MapBase(map.0, base_addr))
                                },
                            };
                            MemSlot::KeyValue(key, TrieValue::Space(value_addr))
                        },
                        MemSlot::MapBase(TrieMapBase { map, base: cb }) => {
                            proof {
                                vstd::std_specs::vec::axiom_vec_index_decreases(orig_vec, i as int);
                            }
                            let ghost c = NodeV { map: map.0, base: cb.dview() };
                            let base_addr = match cb.save(extend) {
                                Ok(a) => a,
                                Err(e) => return Err(e),
                            };
                            proof {
                                assert(si == SlotV::Sub(c));
                                assert(node_wf(c));
                                let c2 = NodeV { map: map.0, base: BaseV::Table(base_addr) };
                                if let BaseV::Table(a0) = c.base {
                                    assert(range_ok(old(extend).base(), c));
                                    assert(extend.space()[a0.0.0 as int] == old(extend).base()[a0.0.0 as int]);
                                }
                                assert(below_pos(seg.0 as nat, extend.dview().table.len(), c2));
                                assert(range_ok(extend.space(), c2));
                            }
                            MemSlot::MapBase(TrieMapBase { map, base: TrieBase::Space(base_addr) })
                        },
                    };
                    proof {
                        assert(sp_le(pre_space, extend.space()));
                        assert(slot_stored(extend.space(), si, item.dview()));
                        assert(persisted_item(extend.space(), seg.0 as nat, extend.dview().table.len(), item.dview()));
                        assert forall|k: int| 0 <= k < i implies slot_stored(extend.space(), s[k], (#[trigger] pre_items[k]).dview())
                            && persisted_item(extend.space(), seg.0 as nat, extend.dview().table.len(), pre_items[k].dview()) by {
                            lemma_slot_stored_le(pre_space, extend.space(), s[k], pre_items[k].dview());
                            lemma_persisted_mono(pre_space, extend.space(), seg.0 as nat, pre_space.last().table.len(), extend.dview().table.len(), pre_items[k].dview());
                        }
                        lemma_sp_le_trans(old(extend).space(), pre_space, extend.space());
                    }
                    items.push(item);
                    proof {
                        i = i + 1;
                        assert(slots@ =~= orig.skip(i as int));
                    }
                }
                let ghost pre_space = extend.space();
                let ghost pre_len = extend.dview().table.len();
                let ghost views = items@.map_values(|x: MemSlot| x.dview());
                let a = extend.add_items(items);
                proof {
                    assert(i == s.len());
                    assert(pre_space.last().values =~= extend.dview().values.take(pre_space.last().values.len() as int));
                    assert(pre_space.last().table =~= extend.dview().table.take(pre_space.last().table.len() as int));
                    lemma_push_le(extend.base(), pre_space.last(), extend.dview());
                    lemma_sp_le_trans(old(extend).space(), pre_space, extend.space());
                    let fin = extend.space();
                    let d = extend.dview();
                    assert(d.table == pre_space.last().table + views);
                    assert(fin[seg.0 as int] == d);
                    assert forall|j: int| 0 <= j < d.table.len() implies persisted_item(
                        extend.base().push(d),
                        extend.base().len(),
                        j as nat,
                        #[trigger] d.table[j],
                    ) by {
                        if j < pre_len {
                            assert(d.table[j] == pre_space.last().table[j]);
                            assert(persisted_item(pre_space, seg.0 as nat, j as nat, pre_space.last().table[j]));
                            lemma_persisted_mono(pre_space, fin, seg.0 as nat, j as nat, j as nat, d.table[j]);
                        } else {
                            let k = j - pre_len;
                            assert(d.table[j] == views[k]);
                            assert(views[k] == items@[k].dview());
                            lemma_persisted_mono(pre_space, fin, seg.0 as nat, pre_len, j as nat, d.table[j]);
                        }
                    }
                    assert(extend.wf());
                    crate::hamt::trie::node::model::lemma_table_items(fin, a, s.len());
                    let t = table_items(fin, a, s.len())->Ok_0;
                    assert forall|k: int| 0 <= k < s.len() implies slot_stored(fin, #[trigger] s[k], t[k]) by {
                        assert(table_item(fin, a, k as nat) == Ok::<SlotV, crate::hamt::space::ReadError>(t[k]));
                        assert(t[k] == d.table[pre_len + k]);
                        assert(d.table[pre_len + k] == views[k]);
                        lemma_slot_stored_le(pre_space, fin, s[k], items@[k].dview());
                    }
                }
                Ok(a)
            },
        }
    }
}

/// The counts of values and table items that saving `b` writes fit one
/// segment: at most 2^16 values, fewer than 2^32 items.
pub open spec fn save_fits(b: BaseV) -> bool {
    base_save_count(b).0 <= 0x10000 && base_save_count(b).1 < 0x1_0000_0000
}

/// Counts the values and table items that saving the memory slots of `base`
/// writes, giving up once they no longer fit one segment.
fn count_slots(base: &MemBase) -> (r: Option<(u64, u64)>)
    ensures
        match r {
            Some((v, t)) => v == save_count(base.dview(), base.dview().len()).0 && t == save_count(
                base.dview(),
                base.dview().len(),
            ).1 && save_fits(BaseV::Slots(base.dview())),
            None => !save_fits(BaseV::Slots(base.dview())),
        },
    decreases base,
{
    let ghost s = base.dview();
    proof {
        base.lemma_dview();
    }
    let mut v: u64 = 0;
    let mut t: u64 = 0;
    let mut i: usize = 0;
    while i < base.slots.len()
        invariant
            s == base.dview(),
            s == base.slots@.map_values(|x: MemSlot| x.dview()),
            i <= s.len(),
            v == save_count(s, i as nat).0,
            t == save_count(s, i as nat).1,
            v <= 0x10000,
            t < 0x1_0000_0000,
        decreases s.len() - i,
    {
        proof {
            vstd::std_specs::vec::axiom_vec_index_decreases(base.slots, i as int);
            lemma_save_count_mono(s, (i + 1) as nat, s.len());
            assert(s[i as int] == base.slots@[i as int].dview());
        }
        let (dv, dt): (u64, u64) = match &base.slots[i] {
            MemSlot::KeyValue(_, TrieValue::Space(_)) => (0, 1),
            MemSlot::KeyValue(_, TrieValue::Mem(MemValue::U32(_))) => (1, 1),
            MemSlot::KeyValue(k, TrieValue::Mem(MemValue::MapBase(mb))) => match &mb.base {
                TrieBase::Mem(cb) => {
                    proof {
                        let mv = MemValue::MapBase(*mb);
                        assert(mb.base.dview() == BaseV::Slots(cb.dview()));
                        assert(mb.dview() == NodeV { map: mb.map.0, base: BaseV::Slots(cb.dview()) });
                        assert(mv.dview() == ValueV::Sub(mb.dview()));
                        assert(TrieValue::Mem(mv).dview() == mv.dview());
                        assert(s[i as int] == SlotV::Kv(
                            *k,
                            ValueV::Sub(NodeV { map: mb.map.0, base: BaseV::Slots(cb.dview()) }),
                        ));
                    }
                    match count_slots(cb) {
                        Some((cv, ct)) => (1 + cv, 1 + ct),
                        None => return None,
                    }
                },
                TrieBase::Space(_) => (1, 1),
            },
            MemSlot::MapBase(mb) => match &mb.base {
                TrieBase::Mem(cb) => match count_slots(cb) {
                    Some((cv, ct)) => (cv, 1 + ct),
                    None => return None,
                },
                TrieBase::Space(_) => (0, 1),
            },
        };
        v = v + dv;
        t = t + dt;
        i = i + 1;
        assert(v == save_count(s, i as nat).0 && t == save_count(s, i as nat).1);
        if v > 0x10000 || t >= 0x1_0000_0000 {
            proof {
                lemma_save_count_mono(s, i as nat, s.len());
            }
            return None;
        }
    }
    Some((v, t))
}

impl TrieBase {
    /// Whether the values and table items that saving this base writes fit
    /// one segment.
    pub fn save_fits(&self) -> (r: bool)
        ensures
            r == save_fits(self.dview()),
    {
        match self {
            TrieBase::Space(_) => true,
            TrieBase::Mem(base) => count_slots(base).is_some(),
        }
    }
}

} // verus!
