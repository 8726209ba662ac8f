//! What saving memory nodes into a segment writes, and why lookups in the
//! saved nodes answer as the memory nodes did.
use vstd::prelude::*;

use crate::client::QueryError;
use crate::hamt::space::{ReadError, TableAddr, Value, ValueAddr};
use crate::hamt::trie::node::key::TrieKey;
use crate::hamt::trie::node::map::{bit, lemma_rank_lt_popcount, popcount, rank};
use crate::hamt::trie::node::model::{
    below, deep_lookup, lemma_table_items, lookup, persisted_item, range_ok, read_value, resolve, resolved_lookup,
    space_wf, table_item, table_items, BaseV, NodeV, SegV, SlotV, ValueV,
};

verus! {

/// `sp2` holds everything that `sp` holds: every segment of `sp` is a prefix of
/// the segment at its place in `sp2`, values, table and all.
pub open spec fn sp_le(sp: Seq<SegV>, sp2: Seq<SegV>) -> bool {
    &&& sp.len() <= sp2.len()
    &&& forall|i: int|
        0 <= i < sp.len() ==> (#[trigger] sp[i]).values.len() <= sp2[i].values.len() && sp[i].table.len()
            <= sp2[i].table.len() && sp[i].values == sp2[i].values.take(sp[i].values.len() as int)
            && sp[i].table == sp2[i].table.take(sp[i].table.len() as int)
}

/// The memory slots of `b` refer only to table nodes that `sp` holds, all the
/// way down, nested tries held as values included.
pub open spec fn base_savable(sp: Seq<SegV>, b: BaseV) -> bool
    decreases b,
{
    match b {
        BaseV::Slots(s) => forall|i: int| 0 <= i < s.len() ==> slot_savable(sp, #[trigger] s[i]),
        BaseV::Table(_) => true,
    }
}

pub open spec fn slot_savable(sp: Seq<SegV>, s: SlotV) -> bool
    decreases s,
{
    match s {
        SlotV::Kv(_, v) => value_savable(sp, v),
        SlotV::Sub(c) => match c.base {
            BaseV::Table(_) => range_ok(sp, c),
            BaseV::Slots(_) => base_savable(sp, c.base),
        },
    }
}

pub open spec fn value_savable(sp: Seq<SegV>, v: ValueV) -> bool
    decreases v,
{
    match v {
        ValueV::Sub(c) => base_savable(sp, c.base),
        _ => true,
    }
}

/// The values and the table items that saving the first `i` slots of `s` adds.
pub open spec fn save_count(s: Seq<SlotV>, i: nat) -> (nat, nat)
    decreases s, i,
{
    if i == 0 || i > s.len() {
        (0, 0)
    } else {
        let (v, t) = save_count(s, (i - 1) as nat);
        match s[i - 1] {
            SlotV::Kv(_, ValueV::Stored(_)) => (v, t + 1),
            SlotV::Kv(_, ValueV::U32(_)) => (v + 1, t + 1),
            SlotV::Kv(_, ValueV::Sub(c)) => match c.base {
                BaseV::Slots(cs) => {
                    let (cv, ct) = save_count(cs, cs.len());
                    (v + 1 + cv, t + 1 + ct)
                },
                BaseV::Table(_) => (v + 1, t + 1),
            },
            SlotV::Sub(c) => match c.base {
                BaseV::Slots(cs) => {
                    let (cv, ct) = save_count(cs, cs.len());
                    (v + cv, t + 1 + ct)
                },
                BaseV::Table(_) => (v, t + 1),
            },
        }
    }
}

/// The values and table items that saving the base `b` adds.
pub open spec fn base_save_count(b: BaseV) -> (nat, nat) {
    match b {
        BaseV::Slots(s) => save_count(s, s.len()),
        BaseV::Table(_) => (0, 0),
    }
}

/// The base `b` is saved in `sp` at `a`: a table base is its own address, and
/// the memory slots are read back at `a` one for one as their saved forms.
pub open spec fn base_stored(sp: Seq<SegV>, b: BaseV, a: TableAddr) -> bool
    decreases b,
{
    match b {
        BaseV::Table(a0) => a == a0,
        BaseV::Slots(s) => match table_items(sp, a, s.len()) {
            Ok(t) => forall|i: int| 0 <= i < s.len() ==> slot_stored(sp, #[trigger] s[i], t[i]),
            Err(_) => false,
        },
    }
}

/// The item `t` is the saved form of the slot `s`: a key with the address of
/// its saved value, or a sub-trie saved as a table node.
pub open spec fn slot_stored(sp: Seq<SegV>, s: SlotV, t: SlotV) -> bool
    decreases s,
{
    match s {
        SlotV::Kv(k, v) => match t {
            SlotV::Kv(k2, ValueV::Stored(addr)) => k2 == k && value_stored(sp, v, addr),
            _ => false,
        },
        SlotV::Sub(c) => match t {
            SlotV::Sub(c2) => c2.map == c.map && c2.base is Table && base_stored(sp, c.base, c2.base->Table_0),
            _ => false,
        },
    }
}

/// The value at `addr` is the saved form of `v`: the plain value, a nested trie
/// as its map and the address of its saved base, or a stored value as itself.
pub open spec fn value_stored(sp: Seq<SegV>, v: ValueV, addr: ValueAddr) -> bool
    decreases v,
{
    match v {
        ValueV::U32(x) => read_value(sp, addr) == Ok::<Value, ReadError>(Value::U32(x)),
        ValueV::Sub(c) => match read_value(sp, addr) {
            Ok(Value::MapBase(m, a2)) => m == c.map && base_stored(sp, c.base, a2),
            _ => false,
        },
        ValueV::Stored(a0) => addr == a0,
    }
}

/// The node `n2` is the saved form of `n`: the same map over the saved base.
pub open spec fn stored(sp: Seq<SegV>, n: NodeV, n2: NodeV) -> bool {
    n2.map == n.map && n2.base is Table && base_stored(sp, n.base, n2.base->Table_0)
}

/// A resolved value `w` answers as `v` does: a nested trie by its saved form,
/// anything else by itself.
pub open spec fn res_rel(sp: Seq<SegV>, v: ValueV, w: ValueV) -> bool {
    match v {
        ValueV::Sub(c) => w matches ValueV::Sub(c2) && stored(sp, c, c2),
        _ => w == v,
    }
}

} // verus!

verus! {

/// A read that succeeds reads the same in a space that holds more.
pub proof fn lemma_table_item_le(sp: Seq<SegV>, sp2: Seq<SegV>, a: TableAddr, i: nat)
    requires
        sp_le(sp, sp2),
        table_item(sp, a, i) is Ok,
    ensures
        table_item(sp2, a, i) == table_item(sp, a, i),
{
    let s = a.0.0 as int;
    assert(sp[s].table == sp2[s].table.take(sp[s].table.len() as int));
    assert(sp[s].table[a.1.0 + i] == sp2[s].table[a.1.0 + i]);
}

pub proof fn lemma_read_value_le(sp: Seq<SegV>, sp2: Seq<SegV>, addr: ValueAddr)
    requires
        sp_le(sp, sp2),
        read_value(sp, addr) is Ok,
    ensures
        read_value(sp2, addr) == read_value(sp, addr),
{
    let s = addr.0.0 as int;
    assert(sp[s].values == sp2[s].values.take(sp[s].values.len() as int));
    assert(sp[s].values[addr.1.0 as int] == sp2[s].values[addr.1.0 as int]);
}

pub proof fn lemma_table_items_le(sp: Seq<SegV>, sp2: Seq<SegV>, a: TableAddr, n: nat)
    requires
        sp_le(sp, sp2),
        table_items(sp, a, n) is Ok,
    ensures
        table_items(sp2, a, n) == table_items(sp, a, n),
    decreases n,
{
    if n > 0 {
        lemma_table_items_le(sp, sp2, a, (n - 1) as nat);
        lemma_table_item_le(sp, sp2, a, (n - 1) as nat);
    }
}

pub proof fn lemma_resolve_le(sp: Seq<SegV>, sp2: Seq<SegV>, v: ValueV)
    requires
        sp_le(sp, sp2),
        resolve(sp, v) is Ok,
    ensures
        resolve(sp2, v) == resolve(sp, v),
{
    if let ValueV::Stored(addr) = v {
        lemma_read_value_le(sp, sp2, addr);
    }
}

/// A lookup that succeeds answers the same in a space that holds more.
pub proof fn lemma_lookup_le(sp: Seq<SegV>, sp2: Seq<SegV>, n: NodeV, k: TrieKey)
    requires
        sp_le(sp, sp2),
        lookup(sp, n, k) is Ok,
    ensures
        lookup(sp2, n, k) == lookup(sp, n, k),
    decreases crate::hamt::trie::node::model::node_kind(n), crate::hamt::trie::node::model::node_seg(n),
        crate::hamt::trie::node::model::node_end(n), n,
{
    let p = k.map_index as int;
    if bit(n.map, p) {
        let bi = rank(n.map, p);
        match n.base {
            BaseV::Slots(s) => {
                if bi < s.len() {
                    if let SlotV::Sub(c) = s[bi as int] {
                        if !k.is_last() {
                            lemma_lookup_le(sp, sp2, c, k.step());
                        }
                    }
                }
            },
            BaseV::Table(a) => {
                lemma_table_item_le(sp, sp2, a, bi);
                if let Ok(SlotV::Sub(c)) = table_item(sp, a, bi) {
                    if below(a, bi, c) && !k.is_last() {
                        lemma_rank_lt_popcount(n.map, p);
                        lemma_lookup_le(sp, sp2, c, k.step());
                    }
                }
            },
        }
    }
}

} // verus!

verus! {

/// What is saved in a space stays saved in a space that holds more.
pub proof fn lemma_base_stored_le(sp: Seq<SegV>, sp2: Seq<SegV>, b: BaseV, a: TableAddr)
    requires
        sp_le(sp, sp2),
        base_stored(sp, b, a),
    ensures
        base_stored(sp2, b, a),
    decreases b,
{
    if let BaseV::Slots(s) = b {
        lemma_table_items_le(sp, sp2, a, s.len());
        let t = table_items(sp, a, s.len())->Ok_0;
        assert forall|i: int| 0 <= i < s.len() implies slot_stored(sp2, #[trigger] s[i], t[i]) by {
            lemma_slot_stored_le(sp, sp2, s[i], t[i]);
        }
    }
}

pub proof fn lemma_slot_stored_le(sp: Seq<SegV>, sp2: Seq<SegV>, s: SlotV, t: SlotV)
    requires
        sp_le(sp, sp2),
        slot_stored(sp, s, t),
    ensures
        slot_stored(sp2, s, t),
    decreases s,
{
    match s {
        SlotV::Kv(_, v) => {
            lemma_value_stored_le(sp, sp2, v, t->Kv_1->Stored_0);
        },
        SlotV::Sub(c) => {
            lemma_base_stored_le(sp, sp2, c.base, t->Sub_0.base->Table_0);
        },
    }
}

pub proof fn lemma_value_stored_le(sp: Seq<SegV>, sp2: Seq<SegV>, v: ValueV, addr: ValueAddr)
    requires
        sp_le(sp, sp2),
        value_stored(sp, v, addr),
    ensures
        value_stored(sp2, v, addr),
    decreases v,
{
    match v {
        ValueV::U32(_) => {
            lemma_read_value_le(sp, sp2, addr);
        },
        ValueV::Sub(c) => {
            lemma_read_value_le(sp, sp2, addr);
            lemma_base_stored_le(sp, sp2, c.base, read_value(sp, addr)->Ok_0->MapBase_1);
        },
        ValueV::Stored(_) => {},
    }
}

/// What a lookup finds in the saved form of a node, against what it finds in
/// the node: a stored value as itself, any other value by its saved form.
pub open spec fn found_rel(sp: Seq<SegV>, v: ValueV, w: ValueV) -> bool {
    match v {
        ValueV::Stored(_) => w == v,
        _ => w matches ValueV::Stored(addr) && value_stored(sp, v, addr),
    }
}

/// Lookups in table nodes of a well-formed space find stored values only.
pub proof fn lemma_lookup_table_stored(sp: Seq<SegV>, n: NodeV, k: TrieKey)
    requires
        space_wf(sp),
        n.base is Table,
    ensures
        lookup(sp, n, k) matches Ok(Some(v)) ==> v is Stored,
    decreases crate::hamt::trie::node::model::node_kind(n), crate::hamt::trie::node::model::node_seg(n),
        crate::hamt::trie::node::model::node_end(n), n,
{
    let p = k.map_index as int;
    if bit(n.map, p) {
        let a = n.base->Table_0;
        let bi = rank(n.map, p);
        if let Ok(item) = table_item(sp, a, bi) {
            let j = a.1.0 + bi;
            assert(persisted_item(sp, a.0.0 as nat, j as nat, sp[a.0.0 as int].table[j]));
            if let SlotV::Sub(c) = item {
                if below(a, bi, c) && !k.is_last() {
                    lemma_rank_lt_popcount(n.map, p);
                    lemma_lookup_table_stored(sp, c, k.step());
                }
            }
        }
    }
}

/// A lookup in the saved form of a node answers as the lookup in the node:
/// where nothing is found, nothing; where a value is found, its saved form.
pub proof fn lemma_stored_lookup(sp: Seq<SegV>, sp2: Seq<SegV>, n: NodeV, n2: NodeV, k: TrieKey)
    requires
        sp_le(sp, sp2),
        space_wf(sp),
        space_wf(sp2),
        stored(sp2, n, n2),
        k.wf(),
    ensures
        lookup(sp, n, k) == Ok::<Option<ValueV>, QueryError>(None) ==> lookup(sp2, n2, k) == Ok::<
            Option<ValueV>,
            QueryError,
        >(None),
        lookup(sp, n, k) matches Ok(Some(v)) ==> (lookup(sp2, n2, k) matches Ok(Some(w)) && found_rel(sp2, v, w)),
    decreases n,
{
    k.lemma_wf_map_index();
    match n.base {
        BaseV::Table(_) => {
            if lookup(sp, n, k) is Ok {
                lemma_lookup_le(sp, sp2, n, k);
                lemma_lookup_table_stored(sp, n, k);
            }
        },
        BaseV::Slots(s) => {
            let p = k.map_index as int;
            let a = n2.base->Table_0;
            let t = table_items(sp2, a, s.len())->Ok_0;
            if bit(n.map, p) {
                let bi = rank(n.map, p);
                if bi < s.len() {
                    lemma_table_items(sp2, a, s.len());
                    assert(table_item(sp2, a, bi) == Ok::<SlotV, ReadError>(t[bi as int]));
                    assert(slot_stored(sp2, s[bi as int], t[bi as int]));
                    if let SlotV::Sub(c) = s[bi as int] {
                        let c2 = t[bi as int]->Sub_0;
                        let j = a.1.0 + bi;
                        assert(persisted_item(sp2, a.0.0 as nat, j as nat, sp2[a.0.0 as int].table[j]));
                        if !k.is_last() {
                            k.lemma_step();
                            lemma_stored_lookup(sp, sp2, c, c2, k.step());
                        }
                    }
                }
            }
        },
    }
}

} // verus!

verus! {

/// A query in the saved form of a node answers as the query in the node: a
/// plain value as itself, a nested trie by its saved form.
pub proof fn lemma_stored_resolved_lookup(sp: Seq<SegV>, sp2: Seq<SegV>, n: NodeV, n2: NodeV, k: TrieKey)
    requires
        sp_le(sp, sp2),
        space_wf(sp),
        space_wf(sp2),
        stored(sp2, n, n2),
        k.wf(),
    ensures
        resolved_lookup(sp, n, k) == Ok::<Option<ValueV>, QueryError>(None) ==> resolved_lookup(sp2, n2, k)
            == Ok::<Option<ValueV>, QueryError>(None),
        resolved_lookup(sp, n, k) matches Ok(Some(rv)) ==> (resolved_lookup(sp2, n2, k) matches Ok(Some(rw))
            && res_rel(sp2, rv, rw)),
{
    lemma_stored_lookup(sp, sp2, n, n2, k);
    if let Ok(Some(v)) = lookup(sp, n, k) {
        if let Ok(rv) = resolve(sp, v) {
            match v {
                ValueV::Stored(_) => {
                    lemma_resolve_le(sp, sp2, v);
                    if let ValueV::Sub(c) = rv {
                        assert(stored(sp2, c, c));
                    }
                },
                _ => {},
            }
        }
    }
}

/// A deep query in the saved form of a node answers as the deep query in the
/// node: a plain value as itself, a nested trie by its saved form.
pub proof fn lemma_stored_deep_lookup(
    sp: Seq<SegV>,
    sp2: Seq<SegV>,
    n: NodeV,
    n2: NodeV,
    keys: Seq<TrieKey>,
    i: nat,
)
    requires
        crate::hamt::trie::node::model::keys_wf(keys),
        sp_le(sp, sp2),
        space_wf(sp),
        space_wf(sp2),
        stored(sp2, n, n2),
    ensures
        deep_lookup(sp, n, keys, i) == Ok::<Option<ValueV>, QueryError>(None) ==> deep_lookup(sp2, n2, keys, i)
            == Ok::<Option<ValueV>, QueryError>(None),
        deep_lookup(sp, n, keys, i) matches Ok(Some(rv)) ==> (deep_lookup(sp2, n2, keys, i) matches Ok(Some(rw))
            && res_rel(sp2, rv, rw)),
    decreases keys.len() - i,
{
    if i < keys.len() {
        let k = keys[i as int];
        lemma_stored_resolved_lookup(sp, sp2, n, n2, k);
        if let Ok(Some(ValueV::Sub(c))) = resolved_lookup(sp, n, k) {
            if i + 1 < keys.len() {
                let c2 = resolved_lookup(sp2, n2, k)->Ok_0->Some_0->Sub_0;
                lemma_stored_deep_lookup(sp, sp2, c, c2, keys, i + 1);
            }
        }
    }
}

} // verus!

verus! {

/// Saving more slots adds more: the counts grow with the slots, and every slot
/// adds at least its own item.
pub proof fn lemma_save_count_mono(s: Seq<SlotV>, i: nat, j: nat)
    requires
        i <= j <= s.len(),
    ensures
        save_count(s, i).0 <= save_count(s, j).0,
        save_count(s, i).1 + (j - i) <= save_count(s, j).1,
    decreases j - i,
{
    if i < j {
        lemma_save_count_mono(s, i, (j - 1) as nat);
    }
}

pub proof fn lemma_sp_le_refl(sp: Seq<SegV>)
    ensures
        sp_le(sp, sp),
{
    assert forall|i: int| 0 <= i < sp.len() implies (#[trigger] sp[i]).values == sp[i].values.take(
        sp[i].values.len() as int,
    ) && sp[i].table == sp[i].table.take(sp[i].table.len() as int) by {
        assert(sp[i].values =~= sp[i].values.take(sp[i].values.len() as int));
        assert(sp[i].table =~= sp[i].table.take(sp[i].table.len() as int));
    }
}

pub proof fn lemma_sp_le_trans(a: Seq<SegV>, b: Seq<SegV>, c: Seq<SegV>)
    requires
        sp_le(a, b),
        sp_le(b, c),
    ensures
        sp_le(a, c),
{
    assert forall|i: int| 0 <= i < a.len() implies (#[trigger] a[i]).values.len() <= c[i].values.len() && a[i].table.len()
        <= c[i].table.len() && a[i].values == c[i].values.take(a[i].values.len() as int) && a[i].table
        == c[i].table.take(a[i].table.len() as int) by {
        assert(a[i] == a[i]);
        assert(b[i] == b[i]);
        assert(a[i].values =~= c[i].values.take(a[i].values.len() as int));
        assert(a[i].table =~= c[i].table.take(a[i].table.len() as int));
    }
}

/// Growing the last segment of a space gives a space that holds more.
pub proof fn lemma_push_le(base: Seq<SegV>, d: SegV, d2: SegV)
    requires
        d.values.len() <= d2.values.len(),
        d.table.len() <= d2.table.len(),
        d.values == d2.values.take(d.values.len() as int),
        d.table == d2.table.take(d.table.len() as int),
    ensures
        sp_le(base.push(d), base.push(d2)),
{
    lemma_sp_le_refl(base);
    assert forall|i: int| 0 <= i < base.push(d).len() implies (#[trigger] base.push(d)[i]).values.len()
        <= base.push(d2)[i].values.len() && base.push(d)[i].table.len() <= base.push(d2)[i].table.len()
        && base.push(d)[i].values == base.push(d2)[i].values.take(base.push(d)[i].values.len() as int)
        && base.push(d)[i].table == base.push(d2)[i].table.take(base.push(d)[i].table.len() as int) by {
        if i < base.len() {
            assert(base.push(d)[i] == base[i]);
            assert(base.push(d2)[i] == base[i]);
            assert(base[i].values =~= base[i].values.take(base[i].values.len() as int));
            assert(base[i].table =~= base[i].table.take(base[i].table.len() as int));
        }
    }
}

/// A properly persisted item stays so later in its segment of a space that
/// holds more.
pub proof fn lemma_persisted_mono(sp: Seq<SegV>, sp2: Seq<SegV>, s: nat, j: nat, j2: nat, item: SlotV)
    requires
        persisted_item(sp, s, j, item),
        sp_le(sp, sp2),
        j <= j2,
    ensures
        persisted_item(sp2, s, j2, item),
{
    if let SlotV::Sub(c) = item {
        if let BaseV::Table(a) = c.base {
            assert(sp[a.0.0 as int] == sp[a.0.0 as int]);
        }
    }
}

} // verus!

verus! {

/// The slots of a base are well formed.
pub open spec fn base_wf(b: BaseV) -> bool {
    match b {
        BaseV::Slots(s) => forall|i: int| 0 <= i < s.len() ==> crate::hamt::trie::node::model::slot_wf(#[trigger] s[i]),
        BaseV::Table(_) => true,
    }
}

/// A value appended to the last segment is read back at its index there.
pub proof fn lemma_added_value(base: Seq<SegV>, d: SegV, v: Value)
    requires
        d.values.len() < 0x10000,
        base.len() <= u32::MAX,
    ensures
        read_value(
            base.push(SegV { values: d.values.push(v), ..d }),
            ValueAddr(crate::hamt::space::Seg(base.len() as u32), crate::hamt::space::Val(d.values.len() as u16)),
        ) == Ok::<Value, ReadError>(v),
{
}

} // verus!

verus! {

/// Appending a value to the last segment gives a space that holds more.
pub proof fn lemma_add_value_le(base: Seq<SegV>, d: SegV, v: Value)
    ensures
        sp_le(base.push(d), base.push(SegV { values: d.values.push(v), ..d })),
{
    let d2 = SegV { values: d.values.push(v), ..d };
    assert(d.values =~= d2.values.take(d.values.len() as int));
    assert(d.table =~= d2.table.take(d.table.len() as int));
    lemma_push_le(base, d, d2);
}

} // verus!

verus! {

/// The slots loaded from a node of a well-formed space refer only to table
/// nodes that the space holds.
pub proof fn lemma_load_savable(sp: Seq<SegV>, n: NodeV)
    requires
        space_wf(sp),
        crate::hamt::trie::node::model::load(sp, n) is Ok,
        base_savable(sp, n.base),
    ensures
        base_savable(sp, BaseV::Slots(crate::hamt::trie::node::model::load(sp, n)->Ok_0)),
{
    if let BaseV::Table(a) = n.base {
        let s = crate::hamt::trie::node::model::load(sp, n)->Ok_0;
        lemma_table_items(sp, a, popcount(n.map));
        assert forall|i: int| 0 <= i < s.len() implies slot_savable(sp, #[trigger] s[i]) by {
            assert(table_item(sp, a, i as nat) == Ok::<SlotV, ReadError>(s[i]));
            let j = a.1.0 + i;
            assert(persisted_item(sp, a.0.0 as nat, j as nat, sp[a.0.0 as int].table[j]));
        }
    }
}

/// Inserting a savable slot keeps the slots savable.
pub proof fn lemma_insert_savable(sp: Seq<SegV>, s: Seq<SlotV>, i: int, slot: SlotV)
    requires
        base_savable(sp, BaseV::Slots(s)),
        slot_savable(sp, slot),
        0 <= i <= s.len(),
    ensures
        base_savable(sp, BaseV::Slots(s.insert(i, slot))),
{
    let s2 = s.insert(i, slot);
    let b = BaseV::Slots(s);
    assert(b->Slots_0 == s);
    assert forall|k: int| 0 <= k < s2.len() implies slot_savable(sp, #[trigger] s2[k]) by {
        if k < i {
            assert(s2[k] == b->Slots_0[k]);
        } else if k > i {
            assert(s2[k] == b->Slots_0[k - 1]);
        }
    }
    assert(BaseV::Slots(s2)->Slots_0 == s2);
}

/// Replacing a slot by a savable one keeps the slots savable.
pub proof fn lemma_update_savable(sp: Seq<SegV>, s: Seq<SlotV>, i: int, slot: SlotV)
    requires
        base_savable(sp, BaseV::Slots(s)),
        slot_savable(sp, slot),
        0 <= i < s.len(),
    ensures
        base_savable(sp, BaseV::Slots(s.update(i, slot))),
{
    let s2 = s.update(i, slot);
    let b = BaseV::Slots(s);
    assert(b->Slots_0 == s);
    assert forall|k: int| 0 <= k < s2.len() implies slot_savable(sp, #[trigger] s2[k]) by {
        if k != i {
            assert(s2[k] == b->Slots_0[k]);
        }
    }
    assert(BaseV::Slots(s2)->Slots_0 == s2);
}

} // verus!

verus! {

/// A value found in a savable node of a well-formed space is savable.
pub proof fn lemma_lookup_savable(sp: Seq<SegV>, n: NodeV, k: TrieKey)
    requires
        space_wf(sp),
        base_savable(sp, n.base),
    ensures
        lookup(sp, n, k) matches Ok(Some(v)) ==> value_savable(sp, v),
    decreases crate::hamt::trie::node::model::node_kind(n), crate::hamt::trie::node::model::node_seg(n),
        crate::hamt::trie::node::model::node_end(n), n,
{
    let p = k.map_index as int;
    if bit(n.map, p) {
        let bi = rank(n.map, p);
        match n.base {
            BaseV::Slots(s) => {
                if bi < s.len() {
                    assert(n.base->Slots_0[bi as int] == s[bi as int]);
                    assert(slot_savable(sp, s[bi as int]));
                    if let SlotV::Sub(c) = s[bi as int] {
                        if !k.is_last() {
                            lemma_lookup_savable(sp, c, k.step());
                        }
                    }
                }
            },
            BaseV::Table(_) => {
                lemma_lookup_table_stored(sp, n, k);
            },
        }
    }
}

/// The next node of a path from a savable node is savable.
pub proof fn lemma_path_next_savable(sp: Seq<SegV>, n: NodeV, key: TrieKey)
    requires
        space_wf(sp),
        base_savable(sp, n.base),
    ensures
        crate::hamt::trie::node::model::path_next(sp, n, key) matches Ok(c) ==> base_savable(sp, c.base),
{
    reveal(crate::hamt::trie::node::model::path_next);
    lemma_lookup_savable(sp, n, key);
}

} // verus!

verus! {

/// What refers only to table nodes of a space refers only to table nodes of a
/// space that holds more.
pub proof fn lemma_base_savable_le(sp: Seq<SegV>, sp2: Seq<SegV>, b: BaseV)
    requires
        sp_le(sp, sp2),
        base_savable(sp, b),
    ensures
        base_savable(sp2, b),
    decreases b,
{
    if let BaseV::Slots(s) = b {
        assert forall|i: int| 0 <= i < s.len() implies slot_savable(sp2, #[trigger] s[i]) by {
            assert(b->Slots_0[i] == s[i]);
            lemma_slot_savable_le(sp, sp2, s[i]);
        }
        assert(b->Slots_0 == s);
    }
}

pub proof fn lemma_slot_savable_le(sp: Seq<SegV>, sp2: Seq<SegV>, s: SlotV)
    requires
        sp_le(sp, sp2),
        slot_savable(sp, s),
    ensures
        slot_savable(sp2, s),
    decreases s,
{
    match s {
        SlotV::Kv(_, v) => {
            if let ValueV::Sub(c) = v {
                lemma_base_savable_le(sp, sp2, c.base);
            }
        },
        SlotV::Sub(c) => {
            match c.base {
                BaseV::Table(a) => {
                    assert(sp[a.0.0 as int] == sp[a.0.0 as int]);
                },
                BaseV::Slots(_) => {
                    lemma_base_savable_le(sp, sp2, c.base);
                },
            }
        },
    }
}

/// A space holds less than itself with one more segment.
pub proof fn lemma_sp_le_push(sp: Seq<SegV>, e: SegV)
    ensures
        sp_le(sp, sp.push(e)),
{
    lemma_sp_le_refl(sp);
    assert forall|i: int| 0 <= i < sp.len() implies (#[trigger] sp[i]).values.len() <= sp.push(e)[i].values.len()
        && sp[i].table.len() <= sp.push(e)[i].table.len() && sp[i].values == sp.push(e)[i].values.take(
        sp[i].values.len() as int,
    ) && sp[i].table == sp.push(e)[i].table.take(sp[i].table.len() as int) by {
        assert(sp.push(e)[i] == sp[i]);
    }
}

} // verus!
