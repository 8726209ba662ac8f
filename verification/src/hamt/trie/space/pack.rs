//! Writing a trie held in memory into a packed table: nested tries first,
//! then the node's own items, each a key with its plain value or a nested map
//! with the position of its base.
use vstd::prelude::*;

use crate::client::{QueryError, TransactError};
use crate::hamt::space::TablePos;
use crate::hamt::trie::mem::slot::MemSlot;
use crate::hamt::trie::mem::value::MemValue;
use crate::hamt::trie::node::base::TrieBase;
use crate::hamt::trie::node::key::TrieKey;
use crate::hamt::trie::node::map_base::TrieMapBase;
use crate::hamt::trie::node::value::TrieValue;
use crate::hamt::trie::node::map::{bit, lemma_rank_lt_popcount, popcount, rank};
use crate::hamt::trie::node::count::{lemma_lookup_listed, lemma_seq_entries_map, seq_entries};
use crate::hamt::trie::node::model::{entries, lookup, BaseV, NodeV, SegV, SlotV, ValueV};
use crate::hamt::trie::space::map_base::{high, lemma_key_bits, lemma_pack_bits, low, packed_items, packed_lookup, SlotValue, SpaceMapBase};

verus! {

/// `n` lies in memory all the way down, with one slot per set index, and its
/// plain values leave the high bit clear.
pub open spec fn packable(n: NodeV) -> bool
    decreases n,
{
    match n.base {
        BaseV::Slots(s) => s.len() == popcount(n.map) && forall|i: int|
            0 <= i < s.len() ==> slot_packable(#[trigger] s[i]),
        BaseV::Table(_) => false,
    }
}

/// The slot holds a plain value that leaves the high bit clear, or a
/// packable nested trie.
pub open spec fn slot_packable(x: SlotV) -> bool
    decreases x,
{
    match x {
        SlotV::Kv(_, v) => v matches ValueV::U32(u) && !high(u),
        SlotV::Sub(c) => packable(c),
    }
}

/// The number of items that packing `n` writes.
pub open spec fn pack_count(n: NodeV) -> nat
    decreases n, 0nat,
{
    match n.base {
        BaseV::Slots(s) => slots_count(s, s.len()),
        BaseV::Table(_) => 0,
    }
}

/// The number of items that packing the first `i` slots of `s` writes: one
/// per slot, and those of each nested trie.
pub open spec fn slots_count(s: Seq<SlotV>, i: nat) -> nat
    decreases s, i,
{
    if i == 0 || i > s.len() {
        0
    } else {
        slots_count(s, (i - 1) as nat) + match s[i - 1] {
            SlotV::Kv(_, _) => 1,
            SlotV::Sub(c) => pack_count(c) + 1,
        }
    }
}

/// The items of `t` from `pos` on are the packed form of the memory node `n`;
/// a nested node's items lie before the item that names it.
pub open spec fn packed_at(t: Seq<SlotValue>, n: NodeV, pos: int) -> bool
    decreases n,
{
    match n.base {
        BaseV::Slots(s) => 0 <= pos && pos + s.len() <= t.len() && s.len() == popcount(n.map) && forall|i: int|
            0 <= i < s.len() ==> slot_packed_at(t, #[trigger] s[i], t[pos + i]) && (s[i] is Sub ==> low(
                t[pos + i].1,
            ) + popcount(t[pos + i].0) <= pos + i),
        BaseV::Table(_) => false,
    }
}

/// `item` of `t` is the packed form of the slot `x`.
pub open spec fn slot_packed_at(t: Seq<SlotValue>, x: SlotV, item: SlotValue) -> bool
    decreases x,
{
    match x {
        SlotV::Kv(k, v) => v == ValueV::U32(item.1) && item.0 == k as u32 && !high(item.1),
        SlotV::Sub(c) => high(item.1) && item.0 == c.map && packed_at(t, c, low(item.1) as int),
    }
}

/// A packed node stays packed when items are appended to the table.
pub proof fn lemma_packed_extend(t: Seq<SlotValue>, t2: Seq<SlotValue>, n: NodeV, pos: int)
    requires
        packed_at(t, n, pos),
        t.len() <= t2.len(),
        t2.subrange(0, t.len() as int) == t,
    ensures
        packed_at(t2, n, pos),
    decreases n,
{
    let s = n.base->Slots_0;
    assert forall|i: int| 0 <= i < s.len() implies slot_packed_at(t2, #[trigger] s[i], t2[pos + i]) && (s[i] is Sub
        ==> low(t2[pos + i].1) + popcount(t2[pos + i].0) <= pos + i) by {
        assert(t2[pos + i] == t2.subrange(0, t.len() as int)[pos + i]);
        assert(slot_packed_at(t, s[i], t[pos + i]));
        if let SlotV::Sub(c) = s[i] {
            lemma_packed_extend(t, t2, c, low(t[pos + i].1) as int);
        }
    }
}

/// A lookup's result with a plain value taken out of its wrapper: what a
/// packed table can hold.
pub open spec fn plain(r: Result<Option<ValueV>, QueryError>) -> Result<Option<u32>, QueryError> {
    match r {
        Ok(Some(ValueV::U32(x))) => Ok(Some(x)),
        Ok(_) => Ok(None),
        Err(e) => Err(e),
    }
}

/// Looking a key up in the packed form of a node finds what looking it up in
/// the node finds.
pub proof fn lemma_packed_lookup(t: Seq<SlotValue>, n: NodeV, pos: u32, sp: Seq<SegV>, k: TrieKey)
    requires
        packed_at(t, n, pos as int),
        k.wf(),
    ensures
        packed_lookup(t, n.map, pos, k) == plain(lookup(sp, n, k)),
    decreases n,
{
    k.lemma_wf_map_index();
    let p = k.map_index as int;
    let s = n.base->Slots_0;
    if bit(n.map, p) {
        let bi = rank(n.map, p);
        lemma_rank_lt_popcount(n.map, p);
        let item = t[pos + bi];
        assert(slot_packed_at(t, s[bi as int], item));
        lemma_pack_bits(item.1);
        match s[bi as int] {
            SlotV::Kv(kk, v) => {
                lemma_key_bits(kk);
            },
            SlotV::Sub(c) => {
                if !k.is_last() {
                    k.lemma_step();
                    lemma_packed_lookup(t, c, low(item.1), sp, k.step());
                }
            },
        }
    }
}

/// Items packed for a prefix of slots never outnumber the whole, and each
/// slot packs at least one item.
pub proof fn lemma_slots_count_mono(s: Seq<SlotV>, i: nat, j: nat)
    requires
        i <= j <= s.len(),
    ensures
        slots_count(s, i) + (j - i) <= slots_count(s, j),
    decreases j - i,
{
    if i < j {
        lemma_slots_count_mono(s, i, (j - 1) as nat);
    }
}

/// A packed slot stays packed when items are appended to the table.
pub proof fn lemma_slot_packed_extend(t: Seq<SlotValue>, t2: Seq<SlotValue>, x: SlotV, item: SlotValue)
    requires
        slot_packed_at(t, x, item),
        t.len() <= t2.len(),
        t2.subrange(0, t.len() as int) == t,
    ensures
        slot_packed_at(t2, x, item),
{
    if let SlotV::Sub(c) = x {
        lemma_packed_extend(t, t2, c, low(item.1) as int);
    }
}

/// Entries with plain values taken out of their wrappers: what a packed table
/// can list.
pub open spec fn plain_pairs(es: Seq<(i32, ValueV)>) -> Seq<(i32, u32)> {
    es.map_values(
        |e: (i32, ValueV)|
            (
                e.0,
                match e.1 {
                    ValueV::U32(x) => x,
                    _ => 0,
                },
            ),
    )
}

/// Listing the first `i` items of a packed node lists what the node's first
/// `i` slots list.
pub proof fn lemma_packed_items_entries(t: Seq<SlotValue>, n: NodeV, pos: u32, sp: Seq<SegV>, i: nat)
    requires
        packed_at(t, n, pos as int),
        i <= popcount(n.map),
    ensures
        seq_entries(sp, n.base->Slots_0, i) is Ok,
        packed_items(t, n.map, pos, i) == Ok::<Seq<(i32, u32)>, QueryError>(
            plain_pairs(seq_entries(sp, n.base->Slots_0, i)->Ok_0),
        ),
    decreases n, i,
{
    let s = n.base->Slots_0;
    if i > 0 {
        lemma_packed_items_entries(t, n, pos, sp, (i - 1) as nat);
        let acc = seq_entries(sp, s, (i - 1) as nat)->Ok_0;
        let j = pos + (i - 1);
        let item = t[j];
        assert(slot_packed_at(t, s[i - 1], item));
        lemma_pack_bits(item.1);
        match s[i - 1] {
            SlotV::Kv(k, v) => {
                lemma_key_bits(k);
                assert(plain_pairs(acc.push((k, v))) =~= plain_pairs(acc).push((k, item.1)));
            },
            SlotV::Sub(c) => {
                let cs = c.base->Slots_0;
                lemma_packed_items_entries(t, c, low(item.1), sp, popcount(c.map));
                lemma_seq_entries_map(sp, c.map, cs, popcount(c.map));
                let more = seq_entries(sp, cs, popcount(c.map))->Ok_0;
                assert(plain_pairs(acc + more) =~= plain_pairs(acc) + plain_pairs(more));
            },
        }
    } else {
        assert(plain_pairs(Seq::empty()) =~= Seq::<(i32, u32)>::empty());
    }
}

/// The listing of a packed node is the listing of the node, with plain values
/// taken out of their wrappers: every key-value slot, whatever its key, in
/// slot order, each nested node's in its slot's place.
pub proof fn lemma_packed_listing(t: Seq<SlotValue>, n: NodeV, pos: u32, sp: Seq<SegV>)
    requires
        packed_at(t, n, pos as int),
    ensures
        entries(sp, n) is Ok,
        packed_items(t, n.map, pos, popcount(n.map)) == Ok::<Seq<(i32, u32)>, QueryError>(
            plain_pairs(entries(sp, n)->Ok_0),
        ),
{
    lemma_packed_items_entries(t, n, pos, sp, popcount(n.map));
    lemma_seq_entries_map(sp, n.map, n.base->Slots_0, popcount(n.map));
}

/// Whatever a lookup in a packed node finds is listed: where looking `k` up
/// finds `x`, the listing holds the key's value with `x`.
pub proof fn lemma_packed_lookup_listed(t: Seq<SlotValue>, n: NodeV, pos: u32, k: TrieKey, x: u32)
    requires
        packed_at(t, n, pos as int),
        k.wf(),
        packed_lookup(t, n.map, pos, k) == Ok::<Option<u32>, QueryError>(Some(x)),
    ensures
        packed_items(t, n.map, pos, popcount(n.map)) matches Ok(es) && es.contains((k.value, x)),
{
    let sp = Seq::<SegV>::empty();
    lemma_packed_lookup(t, n, pos, sp, k);
    lemma_packed_listing(t, n, pos, sp);
    assert(lookup(sp, n, k) == Ok::<Option<ValueV>, QueryError>(Some(ValueV::U32(x))));
    lemma_lookup_listed(sp, n, k, ValueV::U32(x));
    let es = entries(sp, n)->Ok_0;
    let w = choose|w: int| 0 <= w < es.len() && es[w] == (k.value, ValueV::U32(x));
    assert(plain_pairs(es)[w] == (k.value, x));
}

impl TrieMapBase {
    /// Appends the packed form of this node to `table`, nested nodes first;
    /// returns the packed map base naming the node's own items.
    fn pack(&self, table: &mut Vec<SlotValue>) -> (r: SpaceMapBase)
        requires
            packable(self.dview()),
            old(table)@.len() + pack_count(self.dview()) < 0x8000_0000,
        ensures
            final(table)@.len() == old(table)@.len() + pack_count(self.dview()),
            final(table)@.subrange(0, old(table)@.len() as int) == old(table)@,
            r.map() == self.map.0,
            high(r.slot().1),
            r.base_pos() + popcount(self.map.0) == final(table)@.len(),
            packed_at(final(table)@, self.dview(), r.base_pos() as int),
        decreases self,
    {
        let ghost n = self.dview();
        let ghost t0 = table@;
        match &self.base {
            TrieBase::Space(_) => vstd::pervasive::unreached(),
            TrieBase::Mem(base) => {
                let ghost s = base.dview();
                proof {
                    base.lemma_dview();
                    lemma_slots_count_mono(s, 0, s.len());
                }
                let mut items: Vec<SlotValue> = Vec::new();
                let mut i: usize = 0;
                while i < base.slots.len()
                    invariant
                        n == self.dview(),
                        self.base == TrieBase::Mem(*base),
                        s == base.dview(),
                        s == base.slots@.map_values(|x: MemSlot| x.dview()),
                        n.base == BaseV::Slots(s),
                        packable(n),
                        i <= s.len(),
                        items@.len() == i,
                        table@.len() + i == t0.len() + slots_count(s, i as nat),
                        table@.subrange(0, t0.len() as int) == t0,
                        t0.len() + pack_count(n) < 0x8000_0000,
                        forall|j: int| 0 <= j < i ==> slot_packed_at(table@, #[trigger] s[j], items@[j]),
                    decreases s.len() - i,
                {
                    assert(slot_packable(s[i as int]));
                    proof {
                        lemma_slots_count_mono(s, 0, i as nat);
                    }
                    match &base.slots[i] {
                        MemSlot::KeyValue(k, v) => {
                            let x = match v {
                                TrieValue::Mem(MemValue::U32(x)) => *x,
                                _ => vstd::pervasive::unreached(),
                            };
                            let ghost pre_items = items@;
                            items.push(SlotValue(*k as u32, x));
                            assert forall|j: int| 0 <= j < i + 1 implies slot_packed_at(
                                table@,
                                #[trigger] s[j],
                                items@[j],
                            ) by {
                                if j < i {
                                    assert(items@[j] == pre_items[j]);
                                }
                            }
                        },
                        MemSlot::MapBase(mb) => {
                            proof {
                                vstd::std_specs::vec::axiom_vec_index_decreases(base.slots, i as int);
                                lemma_slots_count_mono(s, (i + 1) as nat, s.len());
                            }
                            let ghost pre = table@;
                            let ghost pre_items = items@;
                            let sub = mb.pack(table);
                            proof {
                                assert(table@.subrange(0, t0.len() as int) =~= t0) by {
                                    assert forall|q: int| 0 <= q < t0.len() implies table@[q] == t0[q] by {
                                        assert(table@[q] == table@.subrange(0, pre.len() as int)[q]);
                                        assert(pre[q] == pre.subrange(0, t0.len() as int)[q]);
                                    }
                                }
                                assert forall|j: int| 0 <= j < i implies slot_packed_at(
                                    table@,
                                    #[trigger] s[j],
                                    pre_items[j],
                                ) by {
                                    lemma_slot_packed_extend(pre, table@, s[j], pre_items[j]);
                                }
                            }
                            items.push(sub.into_slot_value());
                            assert forall|j: int| 0 <= j < i + 1 implies slot_packed_at(
                                table@,
                                #[trigger] s[j],
                                items@[j],
                            ) by {
                                if j < i {
                                    assert(items@[j] == pre_items[j]);
                                }
                            }
                        },
                    }
                    i = i + 1;
                }
                let pos = table.len();
                proof {
                    lemma_slots_count_mono(s, 0, s.len());
                    assert(pos < 0x8000_0000u32);
                    assert((pos as u32) & 0x80000000u32 == 0) by (bit_vector)
                        requires
                            pos < 0x8000_0000usize,
                    ;
                }
                let ghost pre = table@;
                let ghost its = items@;
                let mut items = items;
                table.append(&mut items);
                let r = SpaceMapBase::new(self.map, TablePos(pos as u32));
                proof {
                    lemma_pack_bits(pos as u32);
                    assert(table@ == pre + its);
                    assert(table@.subrange(0, pre.len() as int) =~= pre);
                    assert(table@.subrange(0, t0.len() as int) =~= t0) by {
                        assert forall|q: int| 0 <= q < t0.len() implies table@[q] == t0[q] by {
                            assert(pre[q] == pre.subrange(0, t0.len() as int)[q]);
                        }
                    }
                    assert forall|j: int| 0 <= j < s.len() implies slot_packed_at(
                        table@,
                        #[trigger] s[j],
                        table@[pos + j],
                    ) by {
                        assert(table@[pos + j] == its[j]);
                        lemma_slot_packed_extend(pre, table@, s[j], its[j]);
                    }
                }
                r
            },
        }
    }

    /// Appends the packed form of this node, which lies in memory all the
    /// way down with plain values that leave the high bit clear, to `table`:
    /// nested nodes first, then the node's own items. The packed map base
    /// returned answers every lookup with the plain value that the node holds.
    pub fn into_space_map_base(self, table: &mut Vec<SlotValue>) -> (r: Result<SpaceMapBase, TransactError>)
        requires
            packable(self.dview()),
            old(table)@.len() + pack_count(self.dview()) < 0x8000_0000,
        ensures
            r matches Ok(mb) && {
                &&& mb.map() == self.map.0
                &&& final(table)@.len() == old(table)@.len() + pack_count(self.dview())
                &&& final(table)@.subrange(0, old(table)@.len() as int) == old(table)@
                &&& packed_at(final(table)@, self.dview(), mb.base_pos() as int)
                &&& forall|sp: Seq<SegV>, k: TrieKey|
                    k.wf() ==> packed_lookup(final(table)@, mb.map(), mb.base_pos(), k) == plain(
                        #[trigger] lookup(sp, self.dview(), k),
                    )
            },
    {
        let mb = self.pack(table);
        proof {
            assert forall|sp: Seq<SegV>, k: TrieKey| k.wf() implies packed_lookup(
                table@,
                mb.map(),
                mb.base_pos(),
                k,
            ) == plain(#[trigger] lookup(sp, self.dview(), k)) by {
                lemma_packed_lookup(table@, self.dview(), mb.base_pos(), sp, k);
            }
        }
        Ok(mb)
    }
}

} // verus!
