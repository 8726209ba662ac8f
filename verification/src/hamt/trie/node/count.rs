//! How many entries a node lists, and how an insertion changes that number.
use vstd::prelude::*;

use crate::client::QueryError;
use crate::hamt::trie::node::key::TrieKey;
use crate::hamt::trie::node::map::{
    bit, bit_of, lemma_bit_only, lemma_rank_lt_popcount, lemma_rank_mono, lemma_rank_only, lemma_rank_with, popcount,
    rank,
};
use crate::hamt::space::ReadError;
use crate::hamt::trie::node::model::{
    entries, entries_upto, ins, ins_kv, ins_new, insert_err, lemma_loaded_child, lemma_table_items, load, lookup,
    node_end, node_kind, node_seg, node_wf, pair_exhausts, slot_wf, space_wf, table_item, table_items, two_node,
    two_slot, BaseV, NodeV, SegV, SlotV, ValueV,
};

verus! {

/// The entries of a single slot: its key with its value, or its sub-trie's
/// entries.
pub open spec fn slot_entries(sp: Seq<SegV>, x: SlotV) -> Result<Seq<(i32, ValueV)>, QueryError> {
    match x {
        SlotV::Kv(k, v) => Ok(seq![(k, v)]),
        SlotV::Sub(c) => entries(sp, c),
    }
}

/// The entries of the first `i` memory slots `s`.
pub open spec fn seq_entries(sp: Seq<SegV>, s: Seq<SlotV>, i: nat) -> Result<Seq<(i32, ValueV)>, QueryError> {
    entries_upto(sp, NodeV { map: 0, base: BaseV::Slots(s) }, i)
}

/// Listing memory slots does not depend on the map.
pub proof fn lemma_seq_entries_map(sp: Seq<SegV>, map: u32, s: Seq<SlotV>, i: nat)
    ensures
        entries_upto(sp, NodeV { map, base: BaseV::Slots(s) }, i) == seq_entries(sp, s, i),
    decreases i,
{
    if i > 0 {
        lemma_seq_entries_map(sp, map, s, (i - 1) as nat);
    }
}

/// One more memory slot adds its own entries, and the listing fails where the
/// slots before it or it fail.
pub proof fn lemma_seq_entries_step(sp: Seq<SegV>, s: Seq<SlotV>, i: nat)
    requires
        0 < i <= s.len(),
    ensures
        seq_entries(sp, s, i) is Ok <==> (seq_entries(sp, s, (i - 1) as nat) is Ok && slot_entries(sp, s[i - 1]) is Ok),
        seq_entries(sp, s, i) is Ok ==> seq_entries(sp, s, i)->Ok_0.len() == seq_entries(sp, s, (i - 1) as nat)->Ok_0.len()
            + slot_entries(sp, s[i - 1])->Ok_0.len(),
{
}

/// Replacing slot `j` changes the number of entries by the difference of the
/// two slots' numbers, once the listing has passed `j`.
pub proof fn lemma_seq_entries_update(sp: Seq<SegV>, s: Seq<SlotV>, j: int, x: SlotV, i: nat)
    requires
        0 <= j < s.len(),
        i <= s.len(),
        seq_entries(sp, s, i) is Ok,
        i > j ==> slot_entries(sp, x) is Ok,
    ensures
        seq_entries(sp, s.update(j, x), i) is Ok,
        seq_entries(sp, s.update(j, x), i)->Ok_0.len() == seq_entries(sp, s, i)->Ok_0.len() + if i > j {
            slot_entries(sp, x)->Ok_0.len() - slot_entries(sp, s[j])->Ok_0.len()
        } else {
            0
        },
    decreases i,
{
    if i > 0 {
        let s2 = s.update(j, x);
        lemma_seq_entries_step(sp, s, i);
        lemma_seq_entries_step(sp, s2, i);
        lemma_seq_entries_update(sp, s, j, x, (i - 1) as nat);
    }
}

/// Inserting a key-value slot at `j` adds one entry, once the listing has
/// passed `j`.
pub proof fn lemma_seq_entries_insert(sp: Seq<SegV>, s: Seq<SlotV>, j: int, x: SlotV, i: nat)
    requires
        0 <= j <= s.len(),
        x is Kv,
        i <= s.len(),
        seq_entries(sp, s, i) is Ok,
    ensures
        seq_entries(sp, s.insert(j, x), if i >= j { i + 1 } else { i }) is Ok,
        seq_entries(sp, s.insert(j, x), if i >= j { i + 1 } else { i })->Ok_0.len() == seq_entries(sp, s, i)->Ok_0.len()
            + if i >= j { 1int } else { 0int },
    decreases i,
{
    let s2 = s.insert(j, x);
    if i > 0 {
        lemma_seq_entries_step(sp, s, i);
        lemma_seq_entries_insert(sp, s, j, x, (i - 1) as nat);
        if i - 1 >= j {
            assert(s2[i as int] == s[i - 1]);
            lemma_seq_entries_step(sp, s2, i + 1);
        } else {
            assert(s2[i - 1] == s[i - 1]);
            lemma_seq_entries_step(sp, s2, i);
            if i == j {
                assert(s2[i as int] == x);
                lemma_seq_entries_step(sp, s2, i + 1);
            }
        }
    } else {
        if j == 0 {
            assert(s2[0] == x);
            lemma_seq_entries_step(sp, s2, 1);
        }
    }
}

/// The slot of two keys lists exactly two entries.
pub proof fn lemma_two_slot_entries(sp: Seq<SegV>, a: TrieKey, av: ValueV, b: TrieKey, bv: ValueV)
    requires
        a.wf(),
        b.wf(),
        a.same_pos(b),
        !pair_exhausts(a, b),
    ensures
        slot_entries(sp, two_slot(a, av, b, bv)) is Ok,
        slot_entries(sp, two_slot(a, av, b, bv))->Ok_0.len() == 2,
    decreases (u32::MAX - a.level) as nat, (4 - a.hash_index) as nat,
{
    a.lemma_wf_map_index();
    b.lemma_wf_map_index();
    let p = a.map_index as int;
    let q = b.map_index as int;
    if p == q && !a.is_last() {
        a.lemma_step();
        b.lemma_step();
        lemma_two_slot_entries(sp, a.step(), av, b.step(), bv);
        let inner = two_slot(a.step(), av, b.step(), bv);
        lemma_rank_only(p, 32);
        lemma_seq_entries_map(sp, bit_of(p), seq![inner], 1);
        lemma_seq_entries_map(sp, bit_of(p), seq![inner], 0);
        lemma_seq_entries_step(sp, seq![inner], 1);
    } else {
        let n = two_node(a, av, b, bv);
        lemma_bit_only(p, q);
        lemma_rank_with(bit_of(p), q, 32);
        lemma_rank_only(p, 32);
        assert(popcount(n.map) == 2);
        let s = n.base->Slots_0;
        lemma_seq_entries_map(sp, n.map, s, 2);
        lemma_seq_entries_step(sp, s, 2);
        lemma_seq_entries_step(sp, s, 1);
    }
}

/// Under a well-formed space, a stored node lists what its items read into
/// memory list.
pub proof fn lemma_table_entries(sp: Seq<SegV>, n: NodeV, i: nat)
    requires
        space_wf(sp),
        n.base is Table,
        load(sp, n) is Ok,
        i <= popcount(n.map),
    ensures
        entries_upto(sp, n, i) == seq_entries(sp, load(sp, n)->Ok_0, i),
    decreases i,
{
    if i > 0 {
        lemma_table_entries(sp, n, (i - 1) as nat);
        let a = n.base->Table_0;
        let s = load(sp, n)->Ok_0;
        lemma_table_items(sp, a, popcount(n.map));
        assert(table_item(sp, a, (i - 1) as nat) == Ok::<SlotV, ReadError>(s[i - 1]));
        if s[i - 1] is Sub {
            lemma_loaded_child(sp, n, (i - 1) as nat);
        }
    }
}

/// Every slot before a listed position lists its entries.
pub proof fn lemma_seq_entries_slot(sp: Seq<SegV>, s: Seq<SlotV>, i: nat, j: int)
    requires
        i <= s.len(),
        0 <= j < i,
        seq_entries(sp, s, i) is Ok,
    ensures
        slot_entries(sp, s[j]) is Ok,
    decreases i,
{
    lemma_seq_entries_step(sp, s, i);
    if j < i - 1 {
        lemma_seq_entries_slot(sp, s, (i - 1) as nat, j);
    }
}

/// The rebuilt node `ins(sp, n, key, v)` of a successful insertion lists one
/// entry more than `n` where `n` holds no value under the key, and as many
/// entries where it holds one.
pub proof fn lemma_ins_entries_len(sp: Seq<SegV>, n: NodeV, key: TrieKey, v: ValueV)
    requires
        space_wf(sp),
        node_wf(n),
        key.wf(),
        insert_err(sp, n, key) is None,
        entries(sp, n) is Ok,
    ensures
        lookup(sp, n, key) is Ok,
        entries(sp, ins(sp, n, key, v)) is Ok,
        entries(sp, ins(sp, n, key, v))->Ok_0.len() == entries(sp, n)->Ok_0.len() + if lookup(sp, n, key) == Ok::<
            Option<ValueV>,
            QueryError,
        >(None) {
            1int
        } else {
            0int
        },
    decreases node_kind(n), node_seg(n), node_end(n), n,
{
    key.lemma_wf_map_index();
    let p = key.map_index as int;
    let cnt = popcount(n.map);
    let s = match n.base {
        BaseV::Slots(s) => s,
        BaseV::Table(a) => table_items(sp, a, cnt)->Ok_0,
    };
    match n.base {
        BaseV::Slots(_) => {
            lemma_seq_entries_map(sp, n.map, s, cnt);
        },
        BaseV::Table(a) => {
            lemma_table_items(sp, a, cnt);
            lemma_table_entries(sp, n, cnt);
        },
    }
    assert(s.len() == cnt);
    assert(entries(sp, n) == seq_entries(sp, s, cnt));
    if !bit(n.map, p) {
        let r = rank(n.map, p);
        lemma_rank_mono(n.map, p, 32);
        lemma_rank_with(n.map, p, 32);
        let x = SlotV::Kv(key.value, v);
        let n2 = ins(sp, n, key, v);
        assert(n2 == ins_new(n.map, s, key, v));
        lemma_seq_entries_insert(sp, s, r as int, x, cnt);
        lemma_seq_entries_map(sp, n2.map, s.insert(r as int, x), cnt + 1);
    } else {
        let bi = rank(n.map, p);
        lemma_rank_lt_popcount(n.map, p);
        if n.base is Table {
            assert(table_item(sp, n.base->Table_0, bi) == Ok::<SlotV, ReadError>(s[bi as int]));
        }
        lemma_seq_entries_slot(sp, s, cnt, bi as int);
        match s[bi as int] {
            SlotV::Kv(b, bv) => {
                let n2 = ins(sp, n, key, v);
                assert(n2 == ins_kv(n.map, s, bi as int, b, bv, key, v));
                let x = n2.base->Slots_0[bi as int];
                if b != key.value {
                    let kb = TrieKey::at(b, key.level, key.hash_index);
                    assert(kb.wf());
                    kb.lemma_step();
                    key.lemma_step();
                    lemma_two_slot_entries(sp, kb.step(), bv, key.step(), v);
                }
                assert(n2.base->Slots_0 == s.update(bi as int, x));
                lemma_seq_entries_update(sp, s, bi as int, x, cnt);
                lemma_seq_entries_map(sp, n2.map, s.update(bi as int, x), cnt);
            },
            SlotV::Sub(c) => {
                key.lemma_step();
                if n.base is Table {
                    lemma_loaded_child(sp, n, bi);
                } else {
                    assert(slot_wf(n.base->Slots_0[bi as int]));
                }
                lemma_ins_entries_len(sp, c, key.step(), v);
                let n2 = ins(sp, n, key, v);
                let x = SlotV::Sub(ins(sp, c, key.step(), v));
                assert(n2.base->Slots_0 == s.update(bi as int, x));
                lemma_seq_entries_update(sp, s, bi as int, x, cnt);
                lemma_seq_entries_map(sp, n2.map, s.update(bi as int, x), cnt);
            },
        }
    }
}

/// Every entry of a slot listed before position `i` is in the listing of the
/// first `i` slots.
pub proof fn lemma_slot_listed(sp: Seq<SegV>, s: Seq<SlotV>, i: nat, j: int, x: (i32, ValueV))
    requires
        0 <= j < i,
        seq_entries(sp, s, i) is Ok,
        slot_entries(sp, s[j]) is Ok,
        slot_entries(sp, s[j])->Ok_0.contains(x),
    ensures
        i <= s.len(),
        seq_entries(sp, s, i)->Ok_0.contains(x),
    decreases i,
{
    let n = NodeV { map: 0, base: BaseV::Slots(s) };
    if i > s.len() {
        lemma_entries_err_past(sp, s, i);
    }
    lemma_seq_entries_step(sp, s, i);
    let acc = seq_entries(sp, s, (i - 1) as nat)->Ok_0;
    let all = seq_entries(sp, s, i)->Ok_0;
    let here = slot_entries(sp, s[i - 1])->Ok_0;
    assert(all == acc + here) by {
        match s[i - 1] {
            SlotV::Kv(k, v) => {
                assert(acc.push((k, v)) =~= acc + seq![(k, v)]);
            },
            SlotV::Sub(c) => {},
        }
    }
    if j == i - 1 {
        let w = choose|w: int| 0 <= w < here.len() && here[w] == x;
        assert(all[acc.len() + w] == x);
    } else {
        lemma_slot_listed(sp, s, (i - 1) as nat, j, x);
        let w = choose|w: int| 0 <= w < acc.len() && acc[w] == x;
        assert(all[w] == x);
    }
}

/// Listing more slots than there are fails.
pub proof fn lemma_entries_err_past(sp: Seq<SegV>, s: Seq<SlotV>, i: nat)
    requires
        i > s.len(),
    ensures
        seq_entries(sp, s, i) is Err,
    decreases i,
{
    if i - 1 > s.len() {
        lemma_entries_err_past(sp, s, (i - 1) as nat);
    }
}

/// Whatever a lookup finds is listed: where looking `key` up in `n` finds `v`,
/// the entries of `n` hold the key's value with `v`.
pub proof fn lemma_lookup_listed(sp: Seq<SegV>, n: NodeV, key: TrieKey, v: ValueV)
    requires
        space_wf(sp),
        key.wf(),
        entries(sp, n) is Ok,
        lookup(sp, n, key) == Ok::<Option<ValueV>, QueryError>(Some(v)),
    ensures
        entries(sp, n)->Ok_0.contains((key.value, v)),
    decreases node_kind(n), node_seg(n), node_end(n), n,
{
    key.lemma_wf_map_index();
    let p = key.map_index as int;
    let cnt = popcount(n.map);
    let bi = rank(n.map, p);
    lemma_rank_lt_popcount(n.map, p);
    let s = match n.base {
        BaseV::Slots(s) => s,
        BaseV::Table(a) => table_items(sp, a, cnt)->Ok_0,
    };
    match n.base {
        BaseV::Slots(_) => {
            lemma_seq_entries_map(sp, n.map, s, cnt);
        },
        BaseV::Table(a) => {
            lemma_table_items(sp, a, cnt);
            lemma_table_entries(sp, n, cnt);
            assert(table_item(sp, a, bi) == Ok::<SlotV, ReadError>(s[bi as int]));
        },
    }
    assert(entries(sp, n) == seq_entries(sp, s, cnt));
    if cnt > s.len() {
        lemma_entries_err_past(sp, s, cnt);
    }
    lemma_seq_entries_slot(sp, s, cnt, bi as int);
    match s[bi as int] {
        SlotV::Kv(k, kv) => {
            assert(seq![(k, kv)][0] == (key.value, v));
        },
        SlotV::Sub(c) => {
            if n.base is Table {
                lemma_loaded_child(sp, n, bi);
            }
            key.lemma_step();
            lemma_lookup_listed(sp, c, key.step(), v);
        },
    }
    lemma_slot_listed(sp, s, cnt, bi as int, (key.value, v));
}

} // verus!
