use vstd::prelude::*;

use crate::client::{QueryError, TransactError};
use crate::hamt::space::{Read, ReadError, Reader};
use crate::hamt::trie::mem::base::MemBase;
use crate::hamt::trie::mem::slot::{KvTest, MemSlot};
use crate::hamt::trie::node::base::TrieBase;
use crate::hamt::trie::node::key::TrieKey;
use crate::hamt::trie::node::map::{
    bit, bit_of, lemma_rank_bounded, lemma_rank_lt_popcount, lemma_rank_mono, popcount, rank,
    TrieMap,
};
use crate::hamt::trie::node::model::{
    entries, entries_upto, holds_two, ins, insert_err, two_slot, inserted, kv_exhausts, lemma_entries_err, lemma_ins_new,
    lemma_ins_update, lemma_inserted_same_lookups, lemma_load_insert_err, lemma_load_lookup, lemma_load_wf, lemma_loaded_child, lemma_slot_kick,
    lemma_slot_replace, lemma_slot_sub, lemma_table_items_err, load, lookup, node_end, node_kind, node_seg, node_wf,
    one_node, persisted_item, slot_wf, space_wf, table_item, table_items, two_node, value_wf, BaseV, NodeV, SlotV,
    ValueV,
};
use crate::hamt::trie::node::count::lemma_ins_entries_len;
use crate::hamt::trie::node::persist::{
    base_savable, lemma_insert_savable, lemma_load_savable, lemma_update_savable, slot_savable, value_savable,
};
use crate::hamt::trie::node::value::{entries_view, kvs_view, opt_view, TrieValue};

verus! {

/// A trie node: an occupancy map and the base holding one slot per set index.
#[derive(Debug, PartialEq, Eq)]
pub struct TrieMapBase {
    pub map: TrieMap,
    pub base: TrieBase,
}

impl TrieMapBase {
    pub open spec fn dview(self) -> NodeV
        decreases self,
    {
        NodeV { map: self.map.0, base: self.base.dview() }
    }

    /// A copy of this node.
    pub fn clone(&self) -> (r: Self)
        ensures
            r.dview() == self.dview(),
        decreases self,
    {
        TrieMapBase { map: self.map, base: self.base.clone() }
    }

    /// Whether both nodes have the same view.
    pub fn same(&self, other: &Self) -> (r: bool)
        ensures
            r == (self.dview() == other.dview()),
        decreases self,
    {
        self.map.0 == other.map.0 && self.base.same(&other.base)
    }

    /// The occupancy map.
    pub fn map(&self) -> (r: TrieMap)
        ensures
            r == self.map,
    {
        self.map
    }

    /// The base.
    pub fn base(&self) -> (r: &TrieBase)
        ensures
            *r == self.base,
    {
        &self.base
    }

    /// The node without slots.
    pub fn empty() -> (r: Self)
        ensures
            r.dview() == (NodeV { map: 0, base: BaseV::Slots(Seq::empty()) }),
            node_wf(r.dview()),
    {
        let map = TrieMap::empty();
        let base = MemBase::new();
        let r = TrieMapBase { map, base: TrieBase::Mem(base) };
        assert(r.base.dview() == BaseV::Slots(Seq::<SlotV>::empty()));
        r
    }

    /// The slots of this node in memory: the node itself, or its table range
    /// read through `reader`.
    pub fn top_into_mem(self, reader: &Reader) -> (r: Result<TrieMapBase, QueryError>)
        ensures
            match load(reader.dview(), self.dview()) {
                Ok(s) => r matches Ok(m) && m.dview() == (NodeV {
                    map: self.map.0,
                    base: BaseV::Slots(s),
                }) && m.base is Mem && m.map == self.map && (self.base is Mem ==> m == self),
                Err(e) => r == Err::<TrieMapBase, QueryError>(QueryError::Read(e)),
            },
    {
        match self.base {
            TrieBase::Mem(_) => Ok(self),
            TrieBase::Space(a) => {
                let count = self.map.slot_count();
                assert(self.dview().base == BaseV::Table(a));
                assert(load(reader.dview(), self.dview()) == table_items(reader.dview(), a, count as nat));
                let mut slots: Vec<MemSlot> = Vec::new();
                let mut i: usize = 0;
                while i < count
                    invariant
                        i <= count,
                        count == popcount(self.map.0),
                        load(reader.dview(), self.dview()) == table_items(reader.dview(), a, count as nat),
                        slots@.len() == i,
                        table_items(reader.dview(), a, i as nat) matches Ok(s) && s =~= slots@.map_values(
                            |x: MemSlot| x.dview(),
                        ),
                    decreases count - i,
                {
                    match reader.read_slot(&a, i) {
                        Ok(item) => {
                            let ghost pre = slots@;
                            slots.push(item.clone());
                            assert(slots@.map_values(|x: MemSlot| x.dview()) =~= pre.map_values(
                                |x: MemSlot| x.dview(),
                            ).push(item.dview()));
                        },
                        Err(e) => {
                            proof {
                                assert(table_item(reader.dview(), a, i as nat) == Err::<SlotV, ReadError>(e));
                                assert(table_items(reader.dview(), a, (i + 1) as nat) == Err::<Seq<SlotV>, ReadError>(e));
                                lemma_table_items_err(reader.dview(), a, (i + 1) as nat, count as nat);
                            }
                            return Err(QueryError::Read(e));
                        },
                    }
                    i = i + 1;
                }
                let base = MemBase { slots };
                proof {
                    assert(base.dview() =~= slots@.map_values(|x: MemSlot| x.dview()));
                }
                Ok(TrieMapBase { map: self.map, base: TrieBase::Mem(base) })
            },
        }
    }

    /// The value stored under the key along its path, if any.
    pub fn query_value(&self, key: TrieKey, reader: &Reader) -> (r: Result<Option<TrieValue>, QueryError>)
        requires
            key.wf(),
        ensures
            opt_view(r) == lookup(reader.dview(), self.dview(), key),
        decreases node_kind(self.dview()), node_seg(self.dview()), node_end(self.dview()), self,
    {
        proof {
            use_type_invariant(reader);
            key.lemma_wf_map_index();
        }
        match self.map.to_base_index(key) {
            None => Ok(None),
            Some(bi) => match &self.base {
                TrieBase::Mem(b) => {
                    proof {
                        lemma_rank_bounded(self.map.0, key.map_index as int);
                        assert(self.dview().base == BaseV::Slots(b.dview()));
                    }
                    if bi >= b.slots.len() {
                        return Err(QueryError::BaseIndexOutOfBounds(bi));
                    }
                    proof {
                        vstd::std_specs::vec::axiom_vec_index_decreases(b.slots, bi as int);
                    }
                    match &b.slots[bi] {
                        MemSlot::KeyValue(k, v) => {
                            if *k == key.value {
                                Ok(Some(v.clone()))
                            } else {
                                Ok(None)
                            }
                        },
                        MemSlot::MapBase(c) => {
                            proof {
                                lemma_rank_bounded(self.map.0, key.map_index as int);
                                assert(b.dview()[bi as int] == SlotV::Sub(c.dview()));
                            }
                            if key.at_last() {
                                return Err(QueryError::KeyExhausted);
                            }
                            c.query_value(key.next(), reader)
                        },
                    }
                },
                TrieBase::Space(a) => {
                    match reader.read_slot(a, bi) {
                        Err(e) => Err(QueryError::Read(e)),
                        Ok(item) => match item {
                            MemSlot::KeyValue(k, v) => {
                                proof {
                                    lemma_rank_bounded(self.map.0, key.map_index as int);
                                    assert(table_item(reader.dview(), *a, bi as nat) == Ok::<SlotV, ReadError>(item.dview()));
                                }
                                if *k == key.value {
                                    Ok(Some(v.clone()))
                                } else {
                                    Ok(None)
                                }
                            },
                            MemSlot::MapBase(c) => {
                                proof {
                                    lemma_rank_bounded(self.map.0, key.map_index as int);
                                    let sp = reader.dview();
                                    let j = a.1.0 + bi;
                                    assert(table_item(sp, *a, bi as nat) == Ok::<SlotV, ReadError>(item.dview()));
                                    assert(persisted_item(sp, a.0.0 as nat, j as nat, sp[a.0.0 as int].table[j]));
                                    lemma_rank_lt_popcount(self.map.0, key.map_index as int);
                                }
                                if key.at_last() {
                                    return Err(QueryError::KeyExhausted);
                                }
                                c.query_value(key.next(), reader)
                            },
                        },
                    }
                },
            },
        }
    }
}

} // verus!

verus! {

impl TrieMapBase {
    /// The node holding only `key` with `value`.
    pub fn one_kv(key: TrieKey, value: TrieValue) -> (r: Result<Self, TransactError>)
        requires
            key.wf(),
        ensures
            r matches Ok(n) && n.dview() == one_node(key, value.dview()) && n.base is Mem,
    {
        proof {
            key.lemma_wf_map_index();
        }
        let map = TrieMap::set_key_bit(key);
        let base = match MemBase::new_kv(key, value) {
            Ok(b) => b,
            Err(e) => return Err(e),
        };
        Ok(TrieMapBase { map, base: TrieBase::Mem(base) })
    }

    /// The node holding `key` and `key2` with their values; the two keys must
    /// differ in value and in map index.
    pub fn two_kv(key: TrieKey, value: TrieValue, key2: TrieKey, value2: TrieValue) -> (r: Result<Self, TransactError>)
        requires
            key.wf(),
            key2.wf(),
            key.value != key2.value,
            key.map_index != key2.map_index,
        ensures
            r matches Ok(n) && n.dview() == two_node(key, value.dview(), key2, value2.dview()) && n.base is Mem,
    {
        proof {
            key.lemma_wf_map_index();
            key2.lemma_wf_map_index();
        }
        let map = TrieMap(key.to_map_bit() | key2.to_map_bit());
        let ghost av = value.dview();
        let ghost bv = value2.dview();
        let mut slots: Vec<MemSlot> = Vec::new();
        if key.map_index() < key2.map_index() {
            let first = match MemSlot::one_kv(key, value) {
                Ok(s) => s,
                Err(e) => return Err(e),
            };
            let second = match MemSlot::one_kv(key2, value2) {
                Ok(s) => s,
                Err(e) => return Err(e),
            };
            slots.push(first);
            slots.push(second);
        } else {
            let first = match MemSlot::one_kv(key2, value2) {
                Ok(s) => s,
                Err(e) => return Err(e),
            };
            let second = match MemSlot::one_kv(key, value) {
                Ok(s) => s,
                Err(e) => return Err(e),
            };
            slots.push(first);
            slots.push(second);
        }
        let base = MemBase { slots };
        proof {
            base.lemma_dview();
            if key.map_index < key2.map_index {
                assert(base.dview() =~= seq![SlotV::Kv(key.value, av), SlotV::Kv(key2.value, bv)]);
            } else {
                assert(base.dview() =~= seq![SlotV::Kv(key2.value, bv), SlotV::Kv(key.value, av)]);
            }
        }
        Ok(TrieMapBase { map, base: TrieBase::Mem(base) })
    }
}

} // verus!

verus! {

impl TrieMapBase {
    /// The map and the slots of this node in memory.
    pub fn into_map_mem_base(self, reader: &Reader) -> (r: Result<(TrieMap, MemBase), QueryError>)
        ensures
            match load(reader.dview(), self.dview()) {
                Ok(s) => r matches Ok((m, b)) && m == self.map && b.dview() == s && (self.base is Mem
                    ==> self.base == TrieBase::Mem(b)),
                Err(e) => r == Err::<(TrieMap, MemBase), QueryError>(QueryError::Read(e)),
            },
    {
        match self.top_into_mem(reader) {
            Ok(TrieMapBase { map, base: TrieBase::Mem(b) }) => Ok((map, b)),
            Ok(TrieMapBase { map: _, base: TrieBase::Space(_) }) => vstd::pervasive::unreached(),
            Err(e) => Err(e),
        }
    }

    /// This node with `key` mapped to `value`: a fresh slot where the key's
    /// index is clear, the slot's value replaced where the key is present, the
    /// slot split where another key sits at the index, and the insertion passed
    /// one position deeper where a sub-trie sits there.
    pub fn insert_kv(self, key: TrieKey, value: TrieValue, reader: &Reader) -> (r: Result<Self, TransactError>)
        requires
            key.wf(),
            node_wf(self.dview()),
            value_wf(value.dview()),
        ensures
            match insert_err(reader.dview(), self.dview(), key) {
                None => r matches Ok(n) && n.base is Mem && node_wf(n.dview()) && inserted(
                    reader.dview(),
                    self.dview(),
                    key,
                    value.dview(),
                    n.dview(),
                ) && n.dview() == ins(reader.dview(), self.dview(), key, value.dview()),
                Some(e) => r == Err::<Self, TransactError>(e),
            },
            r matches Ok(n) ==> (base_savable(reader.dview(), self.dview().base) && value_savable(
                reader.dview(),
                value.dview(),
            ) ==> base_savable(reader.dview(), n.dview().base)),
            r matches Ok(n) ==> (entries(reader.dview(), self.dview()) is Ok ==> entries(reader.dview(), n.dview()) is Ok
                && entries(reader.dview(), n.dview())->Ok_0.len() == entries(reader.dview(), self.dview())->Ok_0.len()
                + if lookup(reader.dview(), self.dview(), key) == Ok::<Option<ValueV>, QueryError>(None) {
                1int
            } else {
                0int
            }),
        decreases node_kind(self.dview()), node_seg(self.dview()), node_end(self.dview()), self,
    {
        proof {
            use_type_invariant(reader);
            key.lemma_wf_map_index();
            if insert_err(reader.dview(), self.dview(), key) is None && entries(reader.dview(), self.dview()) is Ok {
                lemma_ins_entries_len(reader.dview(), self.dview(), key, value.dview());
            }
        }
        let ghost sp = reader.dview();
        let ghost n0 = self.dview();
        let ghost v = value.dview();
        let ghost p = key.map_index as int;
        let ghost self_base = self.base;
        let (map, base) = match self.into_map_mem_base(reader) {
            Ok(pair) => pair,
            Err(e) => return Err(TransactError::Query(e)),
        };
        let ghost s = base.dview();
        let ghost m = NodeV { map: map.0, base: BaseV::Slots(s) };
        let ghost savable = base_savable(sp, n0.base) && value_savable(sp, v);
        proof {
            base.lemma_dview();
            lemma_load_insert_err(sp, n0, key);
            lemma_load_wf(sp, n0);
            if base_savable(sp, n0.base) {
                lemma_load_savable(sp, n0);
            }
            assert forall|k: TrieKey| #[trigger] lookup(sp, m, k) == lookup(sp, n0, k) by {
                lemma_load_lookup(sp, n0, k);
            }
        }
        proof {
            assert forall|key2: TrieKey, v2: ValueV, n2: NodeV| inserted(sp, m, key2, v2, n2) implies #[trigger] inserted(
                sp,
                n0,
                key2,
                v2,
                n2,
            ) by {
                lemma_inserted_same_lookups(sp, m, n0, key2, v2, n2);
            }
        }
        match map.to_base_index(key) {
            None => {
                let bi = map.count_left(key);
                proof {
                    lemma_rank_bounded(map.0, p);
                    lemma_rank_mono(map.0, p, 32);
                    lemma_ins_new(sp, map.0, s, key, v);
                    if savable {
                        lemma_insert_savable(sp, s, bi as int, SlotV::Kv(key.value, v));
                    }
                }
                let post_base = match base.insert_kv(bi, key, value) {
                    Ok(b) => b,
                    Err(e) => return Err(e),
                };
                let post_map = map.with_key(key);
                Ok(TrieMapBase { map: post_map, base: TrieBase::Mem(post_base) })
            },
            Some(bi) => {
                proof {
                    lemma_rank_bounded(map.0, p);
                    lemma_rank_lt_popcount(map.0, p);
                    assert(s[bi as int] == base.slots@[bi as int].dview());
                }
                let test = base.slots[bi].test_kv(&key, &value);
                match test {
                    KvTest::SameValue => {
                        proof {
                            assert(s.update(bi as int, s[bi as int]) =~= s);
                            lemma_slot_replace(sp, key, v, v);
                            lemma_ins_update(sp, map.0, s, key, v, s[bi as int]);
                        }
                        Ok(TrieMapBase { map, base: TrieBase::Mem(base) })
                    },
                    KvTest::ConflictOldValue => {
                        proof {
                            lemma_slot_replace(sp, key, s[bi as int]->Kv_1, v);
                            lemma_ins_update(sp, map.0, s, key, v, SlotV::Kv(key.value, v));
                            if savable {
                                lemma_update_savable(sp, s, bi as int, SlotV::Kv(key.value, v));
                            }
                        }
                        let post_base = match base.replace_value(bi, value) {
                            Ok(b) => b,
                            Err(e) => return Err(e),
                        };
                        Ok(TrieMapBase { map, base: TrieBase::Mem(post_base) })
                    },
                    KvTest::ConflictKeyValue => {
                        let post_base = match base.kick_kv(bi, key, value, reader) {
                            Ok(b) => b,
                            Err(e) => return Err(e),
                        };
                        proof {
                            let c = post_base.dview()[bi as int]->Sub_0;
                            lemma_slot_kick(sp, key, s[bi as int]->Kv_0, s[bi as int]->Kv_1, v, c);
                            lemma_ins_update(sp, map.0, s, key, v, SlotV::Sub(c));
                            if savable {
                                let b = BaseV::Slots(s);
                                assert(b->Slots_0[bi as int] == s[bi as int]);
                                assert(slot_savable(sp, s[bi as int]));
                                lemma_update_savable(sp, s, bi as int, SlotV::Sub(c));
                                assert(post_base.dview() =~= s.update(bi as int, SlotV::Sub(c)));
                            }
                        }
                        Ok(TrieMapBase { map, base: TrieBase::Mem(post_base) })
                    },
                    KvTest::ConflictMapBase => {
                        proof {
                            if self_base is Mem {
                                vstd::std_specs::vec::axiom_vec_index_decreases(base.slots, bi as int);
                            } else {
                                lemma_loaded_child(sp, n0, bi as nat);
                            }
                        }
                        let MemBase { mut slots } = base;
                        let pre_slot = slots.remove(bi);
                        let child = match pre_slot {
                            MemSlot::MapBase(c) => c,
                            MemSlot::KeyValue(_, _) => vstd::pervasive::unreached(),
                        };
                        if key.at_last() {
                            return Err(TransactError::KeyExhausted);
                        }
                        proof {
                            key.lemma_step();
                        }
                        let ghost c = child.dview();
                        let post_child = match child.insert_kv(key.next(), value, reader) {
                            Ok(c2) => c2,
                            Err(e) => return Err(e),
                        };
                        let ghost c2 = post_child.dview();
                        proof {
                            lemma_slot_sub(sp, key, v, c, c2);
                            lemma_ins_update(sp, map.0, s, key, v, SlotV::Sub(c2));
                            if savable {
                                let b = BaseV::Slots(s);
                                assert(b->Slots_0[bi as int] == s[bi as int]);
                                assert(slot_savable(sp, s[bi as int]));
                                lemma_update_savable(sp, s, bi as int, SlotV::Sub(c2));
                            }
                        }
                        slots.insert(bi, MemSlot::MapBase(post_child));
                        let post_base = MemBase { slots };
                        proof {
                            post_base.lemma_dview();
                            assert(post_base.dview() =~= s.update(bi as int, SlotV::Sub(c2)));
                        }
                        Ok(TrieMapBase { map, base: TrieBase::Mem(post_base) })
                    },
                }
            },
        }
    }
}

} // verus!

verus! {

impl TrieMapBase {
    /// The node with the single slot `slot` at `map_index`.
    pub fn one_slot(map_index: u8, slot: MemSlot) -> (r: Result<Self, TransactError>)
        requires
            map_index < 32,
        ensures
            r matches Ok(n) && n.dview() == (NodeV {
                map: bit_of(map_index as int),
                base: BaseV::Slots(seq![slot.dview()]),
            }),
    {
        let map = TrieMap::set_map_index_bit(map_index);
        let ghost sv = slot.dview();
        let mut slots: Vec<MemSlot> = Vec::new();
        slots.push(slot);
        let base = MemBase { slots };
        proof {
            base.lemma_dview();
            assert(base.dview() =~= seq![sv]);
        }
        Ok(TrieMapBase { map, base: TrieBase::Mem(base) })
    }

    /// This node, in memory, with the value of the key-value slot at the key's
    /// base index replaced by `value`.
    pub fn replace_existing_value(self, key: TrieKey, value: TrieValue, reader: &Reader) -> (r: Result<
        Self,
        TransactError,
    >)
        requires
            key.wf(),
            node_wf(self.dview()),
            rank(self.map.0, key.map_index as int) < popcount(self.map.0),
        ensures
            match load(reader.dview(), self.dview()) {
                Err(e) => r == Err::<Self, TransactError>(TransactError::Query(QueryError::Read(e))),
                Ok(s) => {
                    let bi = rank(self.map.0, key.map_index as int) as int;
                    match s[bi] {
                        SlotV::Kv(k, _) => r matches Ok(n) && n.dview() == (NodeV {
                            map: self.map.0,
                            base: BaseV::Slots(s.update(bi, SlotV::Kv(k, value.dview()))),
                        }),
                        SlotV::Sub(_) => r == Err::<Self, TransactError>(TransactError::InvalidSlotType),
                    }
                },
            },
    {
        proof {
            use_type_invariant(reader);
            key.lemma_wf_map_index();
            lemma_rank_bounded(self.map.0, key.map_index as int);
            if load(reader.dview(), self.dview()) is Ok {
                lemma_load_wf(reader.dview(), self.dview());
            }
        }
        let (map, pre_base) = match self.into_map_mem_base(reader) {
            Ok(pair) => pair,
            Err(e) => return Err(TransactError::Query(e)),
        };
        let base_index = key.to_base_index(map);
        let post_base = match pre_base.replace_value(base_index, value) {
            Ok(b) => b,
            Err(e) => return Err(e),
        };
        Ok(TrieMapBase { map, base: TrieBase::Mem(post_base) })
    }

    /// This node, in memory, with the key-value slot at the key's base index,
    /// which holds another key, split into a sub-trie holding both keys.
    pub fn kick_kv(self, key: TrieKey, value: TrieValue, reader: &Reader) -> (r: Result<Self, TransactError>)
        requires
            key.wf(),
            node_wf(self.dview()),
            rank(self.map.0, key.map_index as int) < popcount(self.map.0),
            value_wf(value.dview()),
            load(reader.dview(), self.dview()) matches Ok(s) ==> s[rank(self.map.0, key.map_index as int) as int] is Kv
                && s[rank(self.map.0, key.map_index as int) as int]->Kv_0 != key.value,
        ensures
            match load(reader.dview(), self.dview()) {
                Err(e) => r == Err::<Self, TransactError>(TransactError::Query(QueryError::Read(e))),
                Ok(s) => {
                    let bi = rank(self.map.0, key.map_index as int) as int;
                    let b = s[bi]->Kv_0;
                    if kv_exhausts(key, b) {
                        r == Err::<Self, TransactError>(TransactError::KeyExhausted)
                    } else {
                        r matches Ok(n) && n.dview().map == self.map.0 && n.dview().base is Slots && ({
                            let s2 = n.dview().base->Slots_0;
                            &&& s2 == s.update(bi, s2[bi])
                            &&& s2[bi] is Sub
                            &&& node_wf(s2[bi]->Sub_0)
                            &&& holds_two(
                                reader.dview(),
                                s2[bi]->Sub_0,
                                TrieKey::at(b, key.level, key.hash_index).step(),
                                s[bi]->Kv_1,
                                key.step(),
                                value.dview(),
                            )
                            &&& s2[bi] == two_slot(
                                TrieKey::at(b, key.level, key.hash_index).step(),
                                s[bi]->Kv_1,
                                key.step(),
                                value.dview(),
                            )
                        })
                    }
                },
            },
    {
        proof {
            use_type_invariant(reader);
            key.lemma_wf_map_index();
            lemma_rank_bounded(self.map.0, key.map_index as int);
            if load(reader.dview(), self.dview()) is Ok {
                lemma_load_wf(reader.dview(), self.dview());
            }
        }
        let (map, pre_base) = match self.into_map_mem_base(reader) {
            Ok(pair) => pair,
            Err(e) => return Err(TransactError::Query(e)),
        };
        let base_index = key.to_base_index(map);
        let post_base = match pre_base.kick_kv(base_index, key, value, reader) {
            Ok(b) => b,
            Err(e) => return Err(e),
        };
        Ok(TrieMapBase { map, base: TrieBase::Mem(post_base) })
    }

    /// This node, in memory, with `key` inserted one position deeper into the
    /// sub-trie at the key's base index.
    pub fn merge_kv(self, key: TrieKey, value: TrieValue, reader: &Reader) -> (r: Result<Self, TransactError>)
        requires
            key.wf(),
            node_wf(self.dview()),
            rank(self.map.0, key.map_index as int) < popcount(self.map.0),
            value_wf(value.dview()),
            load(reader.dview(), self.dview()) matches Ok(s) ==> s[rank(self.map.0, key.map_index as int) as int] is Sub,
        ensures
            match load(reader.dview(), self.dview()) {
                Err(e) => r == Err::<Self, TransactError>(TransactError::Query(QueryError::Read(e))),
                Ok(s) => {
                    let bi = rank(self.map.0, key.map_index as int) as int;
                    let c = s[bi]->Sub_0;
                    if key.is_last() {
                        r == Err::<Self, TransactError>(TransactError::KeyExhausted)
                    } else {
                        match insert_err(reader.dview(), c, key.step()) {
                            Some(e) => r == Err::<Self, TransactError>(e),
                            None => r matches Ok(n) && n.dview().map == self.map.0 && n.dview().base is Slots && ({
                                let s2 = n.dview().base->Slots_0;
                                &&& s2 == s.update(bi, s2[bi])
                                &&& s2[bi] is Sub
                                &&& node_wf(s2[bi]->Sub_0)
                                &&& inserted(reader.dview(), c, key.step(), value.dview(), s2[bi]->Sub_0)
                                &&& s2[bi] == SlotV::Sub(ins(reader.dview(), c, key.step(), value.dview()))
                            }),
                        }
                    }
                },
            },
    {
        proof {
            use_type_invariant(reader);
            key.lemma_wf_map_index();
            lemma_rank_bounded(self.map.0, key.map_index as int);
            if load(reader.dview(), self.dview()) is Ok {
                lemma_load_wf(reader.dview(), self.dview());
            }
        }
        let (map, pre_base) = match self.into_map_mem_base(reader) {
            Ok(pair) => pair,
            Err(e) => return Err(TransactError::Query(e)),
        };
        let base_index = key.to_base_index(map);
        proof {
            assert(slot_wf(pre_base.dview()[base_index as int]));
        }
        let post_base = match pre_base.merge_kv(base_index, key, value, reader) {
            Ok(b) => b,
            Err(e) => return Err(e),
        };
        Ok(TrieMapBase { map, base: TrieBase::Mem(post_base) })
    }

    /// The slot that the key's map index selects in this memory node, if set.
    pub fn as_slot(&self, key: TrieKey, reader: &Reader) -> (r: Result<Option<&MemSlot>, QueryError>)
        requires
            key.wf(),
            self.base is Mem,
        ensures
            ({
                let s = self.base->Mem_0.dview();
                let bi = rank(self.map.0, key.map_index as int);
                if !bit(self.map.0, key.map_index as int) {
                    r == Ok::<Option<&MemSlot>, QueryError>(None)
                } else if bi < s.len() {
                    r matches Ok(Some(slot)) && slot.dview() == s[bi as int]
                } else {
                    r == Err::<Option<&MemSlot>, QueryError>(QueryError::BaseIndexOutOfBounds(bi as usize))
                }
            }),
    {
        proof {
            key.lemma_wf_map_index();
            lemma_rank_bounded(self.map.0, key.map_index as int);
        }
        match self.map.to_base_index(key) {
            None => Ok(None),
            Some(base_index) => match &self.base {
                TrieBase::Mem(b) => match b.as_slot(base_index) {
                    Ok(slot) => Ok(Some(slot)),
                    Err(e) => Err(e),
                },
                TrieBase::Space(_) => vstd::pervasive::unreached(),
            },
        }
    }
}

} // verus!

verus! {

impl TrieMapBase {
    /// All entries of this node in slot order, each sub-trie's entries in its
    /// slot's place. A node stored in the space is listed like one in memory:
    /// each of its items once.
    pub fn query_key_values(&self, reader: &Reader) -> (r: Result<Vec<(i32, TrieValue)>, QueryError>)
        ensures
            kvs_view(r) == entries(reader.dview(), self.dview()),
        decreases node_kind(self.dview()), node_seg(self.dview()), node_end(self.dview()), self,
    {
        proof {
            use_type_invariant(reader);
        }
        let ghost sp = reader.dview();
        let ghost n = self.dview();
        let mut result: Vec<(i32, TrieValue)> = Vec::new();
        let slot_count = self.map.slot_count();
        let mut i: usize = 0;
        assert(entries_view(result@) =~= Seq::<(i32, ValueV)>::empty());
        while i < slot_count
            invariant
                i <= slot_count,
                slot_count == popcount(self.map.0),
                n == self.dview(),
                sp == reader.dview(),
                space_wf(sp),
                entries_upto(sp, n, i as nat) == Ok::<Seq<(i32, ValueV)>, QueryError>(entries_view(result@)),
            decreases slot_count - i,
        {
            let ghost pre = result@;
            match &self.base {
                TrieBase::Mem(b) => {
                    proof {
                        b.lemma_dview();
                    }
                    if i >= b.slots.len() {
                        proof {
                            lemma_entries_err(sp, n, (i + 1) as nat, slot_count as nat);
                        }
                        return Err(QueryError::BaseIndexOutOfBounds(i));
                    }
                    proof {
                        vstd::std_specs::vec::axiom_vec_index_decreases(b.slots, i as int);
                    }
                    match &b.slots[i] {
                        MemSlot::KeyValue(k, v) => {
                            result.push((*k, v.clone()));
                        },
                        MemSlot::MapBase(c) => {
                            let mut more = match c.query_key_values(reader) {
                                Ok(m) => m,
                                Err(e) => {
                                    proof {
                                        lemma_entries_err(sp, n, (i + 1) as nat, slot_count as nat);
                                    }
                                    return Err(e);
                                },
                            };
                            result.append(&mut more);
                        },
                    }
                },
                TrieBase::Space(a) => {
                    match reader.read_slot(a, i) {
                        Err(e) => {
                            proof {
                                lemma_entries_err(sp, n, (i + 1) as nat, slot_count as nat);
                            }
                            return Err(QueryError::Read(e));
                        },
                        Ok(item) => match item {
                            MemSlot::KeyValue(k, v) => {
                                result.push((*k, v.clone()));
                            },
                            MemSlot::MapBase(c) => {
                                proof {
                                    let j = a.1.0 + i;
                                    assert(persisted_item(sp, a.0.0 as nat, j as nat, sp[a.0.0 as int].table[j]));
                                }
                                let mut more = match c.query_key_values(reader) {
                                    Ok(m) => m,
                                    Err(e) => {
                                        proof {
                                            lemma_entries_err(sp, n, (i + 1) as nat, slot_count as nat);
                                        }
                                        return Err(e);
                                    },
                                };
                                result.append(&mut more);
                            },
                        },
                    }
                },
            }
            proof {
                assert(entries_view(result@) =~= entries_upto(sp, n, (i + 1) as nat)->Ok_0);
            }
            i = i + 1;
        }
        Ok(result)
    }
}

} // verus!
