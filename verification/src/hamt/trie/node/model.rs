//! Abstract views of trie nodes and the meaning of lookups in them.
use vstd::prelude::*;

use crate::client::{QueryError, TransactError};
use crate::hamt::space::{ReadError, TableAddr, TableRoot, Value, ValueAddr};
use crate::hamt::trie::node::key::TrieKey;
use crate::hamt::trie::node::map::{
    bit, bit_of, lemma_bit_only, lemma_bit_zero, lemma_bit_with, lemma_rank_bounded, lemma_rank_lt,
    lemma_rank_lt_popcount, lemma_rank_mono, lemma_rank_only, lemma_rank_with, lemma_rank_zero,
    popcount, rank,
};

verus! {

/// View of a trie value: a plain `u32`, an in-memory sub-trie, or a value stored
/// in a space at an address.
pub enum ValueV {
    U32(u32),
    Sub(NodeV),
    Stored(ValueAddr),
}

/// View of a slot: a key with its value, or a sub-trie one position deeper.
pub enum SlotV {
    Kv(i32, ValueV),
    Sub(NodeV),
}

/// View of a map base: the occupancy map and where its slots live.
pub struct NodeV {
    pub map: u32,
    pub base: BaseV,
}

/// The slots of a map base: held in memory, or at a table address in a space.
pub enum BaseV {
    Slots(Seq<SlotV>),
    Table(TableAddr),
}

/// View of one segment of a space.
#[verifier::ext_equal]
pub struct SegV {
    pub values: Seq<Value>,
    pub table: Seq<SlotV>,
    pub root: Option<TableRoot>,
}

/// First measure component: memory nodes rank above table nodes.
pub open spec fn node_kind(n: NodeV) -> nat {
    match n.base {
        BaseV::Slots(_) => 1,
        BaseV::Table(_) => 0,
    }
}

/// Second measure component: the segment of a table node.
pub open spec fn node_seg(n: NodeV) -> nat {
    match n.base {
        BaseV::Slots(_) => 0,
        BaseV::Table(a) => a.0.0 as nat,
    }
}

/// Third measure component: the end of a table node's slot range.
pub open spec fn node_end(n: NodeV) -> nat {
    match n.base {
        BaseV::Slots(_) => 0,
        BaseV::Table(a) => (a.1.0 + popcount(n.map)) as nat,
    }
}

/// The table node `c` lies wholly before position `j` of segment `s`.
pub open spec fn below_pos(s: nat, j: nat, c: NodeV) -> bool {
    match c.base {
        BaseV::Table(a) => a.0.0 < s || (a.0.0 == s && a.1.0 + popcount(c.map) <= j),
        BaseV::Slots(_) => false,
    }
}

/// The child `c` read at offset `i` of the table node at `a` lies before it.
pub open spec fn below(a: TableAddr, i: nat, c: NodeV) -> bool {
    below_pos(a.0.0 as nat, (a.1.0 + i) as nat, c)
}

/// Reads the item at offset `i` of the table at `a`.
pub open spec fn table_item(sp: Seq<SegV>, a: TableAddr, i: nat) -> Result<SlotV, ReadError> {
    if a.0.0 >= sp.len() {
        Err(ReadError::InvalidTableAddr(a))
    } else if a.1.0 + i >= sp[a.0.0 as int].table.len() {
        Err(
            ReadError::TablePosWithOffsetExceedsSegmentLen(
                a.1,
                i as usize,
                sp[a.0.0 as int].table.len() as usize,
            ),
        )
    } else {
        Ok(sp[a.0.0 as int].table[a.1.0 + i])
    }
}

/// Reads the first `n` items of the table at `a`, stopping at the first error.
pub open spec fn table_items(sp: Seq<SegV>, a: TableAddr, n: nat) -> Result<Seq<SlotV>, ReadError>
    decreases n,
{
    if n == 0 {
        Ok(Seq::empty())
    } else {
        match table_items(sp, a, (n - 1) as nat) {
            Err(e) => Err(e),
            Ok(s) => match table_item(sp, a, (n - 1) as nat) {
                Err(e) => Err(e),
                Ok(x) => Ok(s.push(x)),
            },
        }
    }
}

/// Reads the value at `addr`.
pub open spec fn read_value(sp: Seq<SegV>, addr: ValueAddr) -> Result<Value, ReadError> {
    if addr.0.0 >= sp.len() {
        Err(ReadError::InvalidValueAddr(addr))
    } else if addr.1.0 >= sp[addr.0.0 as int].values.len() {
        Err(ReadError::InvalidVal(addr.1))
    } else {
        Ok(sp[addr.0.0 as int].values[addr.1.0 as int])
    }
}

/// The table range of node `c` lies within its segment.
pub open spec fn range_ok(sp: Seq<SegV>, c: NodeV) -> bool {
    match c.base {
        BaseV::Table(a) => a.0.0 < sp.len() && a.1.0 + popcount(c.map) <= sp[a.0.0 as int].table.len(),
        BaseV::Slots(_) => true,
    }
}

/// An item stored at position `j` of segment `s`: it refers to its value by
/// address, or to a table node that lies wholly before it.
pub open spec fn persisted_item(sp: Seq<SegV>, s: nat, j: nat, item: SlotV) -> bool {
    match item {
        SlotV::Kv(_, ValueV::Stored(_)) => true,
        SlotV::Sub(c) => below_pos(s, j, c) && range_ok(sp, c),
        _ => false,
    }
}

/// Every table item of every segment is persisted properly.
pub open spec fn space_wf(sp: Seq<SegV>) -> bool {
    forall|s: int, j: int|
        0 <= s < sp.len() && 0 <= j < sp[s].table.len() ==> persisted_item(
            sp,
            s as nat,
            j as nat,
            #[trigger] sp[s].table[j],
        )
}

/// Memory nodes hold exactly one slot per set map index, all the way down,
/// nested tries held as values included.
pub open spec fn node_wf(n: NodeV) -> bool
    decreases n,
{
    match n.base {
        BaseV::Slots(s) => s.len() == popcount(n.map) && forall|i: int|
            0 <= i < s.len() ==> slot_wf(#[trigger] s[i]),
        BaseV::Table(_) => true,
    }
}

/// A slot is well formed: its value or its sub-trie is.
pub open spec fn slot_wf(s: SlotV) -> bool
    decreases s,
{
    match s {
        SlotV::Kv(_, v) => value_wf(v),
        SlotV::Sub(c) => node_wf(c),
    }
}

/// A value is well formed: a nested trie in it is.
pub open spec fn value_wf(v: ValueV) -> bool
    decreases v,
{
    match v {
        ValueV::Sub(c) => node_wf(c),
        _ => true,
    }
}

/// Result of looking `key` up in `n`: the value stored under the key's value
/// along the key's path, `None` when the path ends without it.
pub open spec fn lookup(sp: Seq<SegV>, n: NodeV, key: TrieKey) -> Result<Option<ValueV>, QueryError>
    decreases node_kind(n), node_seg(n), node_end(n), n,
{
    let p = key.map_index as int;
    if !bit(n.map, p) {
        Ok(None)
    } else {
        let bi = rank(n.map, p);
        match n.base {
            BaseV::Slots(s) => if bi >= s.len() {
                Err(QueryError::BaseIndexOutOfBounds(bi as usize))
            } else {
                match s[bi as int] {
                    SlotV::Kv(k, v) => Ok(
                        if k == key.value {
                            Some(v)
                        } else {
                            None
                        },
                    ),
                    SlotV::Sub(c) => if key.is_last() {
                        Err(QueryError::KeyExhausted)
                    } else {
                        lookup(sp, c, key.step())
                    },
                }
            },
            BaseV::Table(a) => match table_item(sp, a, bi) {
                Err(e) => Err(QueryError::Read(e)),
                Ok(SlotV::Kv(k, v)) => Ok(
                    if k == key.value {
                        Some(v)
                    } else {
                        None
                    },
                ),
                Ok(SlotV::Sub(c)) => if !below(a, bi, c) {
                    Err(QueryError::Read(ReadError::InvalidTableAddr(a)))
                } else if key.is_last() {
                    Err(QueryError::KeyExhausted)
                } else {
                    proof {
                        lemma_rank_lt_popcount(n.map, p);
                    }
                    lookup(sp, c, key.step())
                },
            },
        }
    }
}

} // verus!

verus! {

/// The segment `e`, appended to `sp`, holds only properly persisted items.
pub open spec fn ext_ok(sp: Seq<SegV>, e: SegV) -> bool {
    forall|j: int|
        0 <= j < e.table.len() ==> persisted_item(
            sp.push(e),
            sp.len(),
            j as nat,
            #[trigger] e.table[j],
        )
}

/// A segment with nothing in it.
pub open spec fn empty_seg() -> SegV {
    SegV { values: Seq::empty(), table: Seq::empty(), root: None }
}

/// Appending a segment leaves the items of earlier segments persisted.
pub proof fn lemma_persisted_push(sp: Seq<SegV>, e: SegV, s: nat, j: nat, item: SlotV)
    requires
        s < sp.len(),
        persisted_item(sp, s, j, item),
    ensures
        persisted_item(sp.push(e), s, j, item),
{
    match item {
        SlotV::Sub(c) => {
            match c.base {
                BaseV::Table(a) => {
                    assert(sp.push(e)[a.0.0 as int] == sp[a.0.0 as int]);
                },
                _ => {},
            }
        },
        _ => {},
    }
}

/// A well-formed space stays well formed when a proper segment is appended.
pub proof fn lemma_space_wf_push(sp: Seq<SegV>, e: SegV)
    requires
        space_wf(sp),
        ext_ok(sp, e),
    ensures
        space_wf(sp.push(e)),
{
    let sp2 = sp.push(e);
    assert forall|s: int, j: int|
        0 <= s < sp2.len() && 0 <= j < sp2[s].table.len() implies persisted_item(
        sp2,
        s as nat,
        j as nat,
        #[trigger] sp2[s].table[j],
    ) by {
        if s < sp.len() {
            assert(sp2[s] == sp[s]);
            lemma_persisted_push(sp, e, s as nat, j as nat, sp[s].table[j]);
        } else {
            assert(sp2[s] == e);
        }
    }
}

} // verus!

verus! {

/// The slots of `n`: its memory slots, or the items read from its table range.
pub open spec fn load(sp: Seq<SegV>, n: NodeV) -> Result<Seq<SlotV>, ReadError> {
    match n.base {
        BaseV::Slots(s) => Ok(s),
        BaseV::Table(a) => table_items(sp, a, popcount(n.map)),
    }
}

/// Reading `n` items succeeds item by item.
pub proof fn lemma_table_items(sp: Seq<SegV>, a: TableAddr, n: nat)
    ensures
        table_items(sp, a, n) matches Ok(s) ==> s.len() == n && forall|i: int|
            0 <= i < n ==> table_item(sp, a, i as nat) == Ok::<SlotV, ReadError>(#[trigger] s[i]),
        (a.0.0 < sp.len() && a.1.0 + n <= sp[a.0.0 as int].table.len()) ==> table_items(sp, a, n) is Ok,
    decreases n,
{
    if n > 0 {
        lemma_table_items(sp, a, (n - 1) as nat);
    }
}

/// Once reading a table range fails, reading a longer range fails the same way.
pub proof fn lemma_table_items_err(sp: Seq<SegV>, a: TableAddr, m: nat, n: nat)
    requires
        table_items(sp, a, m) is Err,
        m <= n,
    ensures
        table_items(sp, a, n) == table_items(sp, a, m),
    decreases n - m,
{
    if m < n {
        lemma_table_items_err(sp, a, m, (n - 1) as nat);
    }
}

/// Looking up in the loaded slots of a table node gives the same result as in
/// the table node itself.
pub proof fn lemma_load_lookup(sp: Seq<SegV>, n: NodeV, k: TrieKey)
    requires
        space_wf(sp),
        load(sp, n) is Ok,
    ensures
        lookup(sp, NodeV { map: n.map, base: BaseV::Slots(load(sp, n)->Ok_0) }, k) == lookup(sp, n, k),
{
    match n.base {
        BaseV::Slots(_) => {},
        BaseV::Table(a) => {
            let s = load(sp, n)->Ok_0;
            let p = k.map_index as int;
            lemma_table_items(sp, a, popcount(n.map));
            if bit(n.map, p) {
                let bi = rank(n.map, p);
                lemma_rank_lt_popcount(n.map, p);
                assert(table_item(sp, a, bi) == Ok::<SlotV, ReadError>(s[bi as int]));
                let s0 = a.0.0 as int;
                let j = a.1.0 + bi;
                assert(sp[s0].table[j] == s[bi as int]);
                assert(persisted_item(sp, s0 as nat, j as nat, sp[s0].table[j]));
            }
        },
    }
}

/// Loaded slots are well formed.
pub proof fn lemma_load_wf(sp: Seq<SegV>, n: NodeV)
    requires
        space_wf(sp),
        node_wf(n),
        load(sp, n) is Ok,
    ensures
        node_wf(NodeV { map: n.map, base: BaseV::Slots(load(sp, n)->Ok_0) }),
{
    match n.base {
        BaseV::Slots(_) => {},
        BaseV::Table(a) => {
            let s = load(sp, n)->Ok_0;
            lemma_table_items(sp, a, popcount(n.map));
            assert forall|i: int| 0 <= i < s.len() implies slot_wf(#[trigger] s[i]) by {
                assert(table_item(sp, a, i as nat) == Ok::<SlotV, ReadError>(s[i]));
                let j = a.1.0 + i;
                assert(persisted_item(sp, a.0.0 as nat, j as nat, sp[a.0.0 as int].table[j]));
            }
        },
    }
}

} // verus!

verus! {

/// Two keys at one position keep sharing map indices until one of them runs
/// out of positions.
pub open spec fn pair_exhausts(a: TrieKey, b: TrieKey) -> bool
    decreases (u32::MAX - a.level) as nat, (if a.hash_index <= 4 { 4 - a.hash_index } else { 0 }) as nat,
{
    if a.hash_index > 4 {
        false
    } else {
        a.map_index == b.map_index && (a.is_last() || pair_exhausts(a.step(), b.step()))
    }
}

/// Splitting the slot of key value `b` to make room for `key` runs out of positions.
pub open spec fn kv_exhausts(key: TrieKey, b: i32) -> bool {
    key.is_last() || pair_exhausts(TrieKey::at(b, key.level, key.hash_index).step(), key.step())
}

/// What a lookup finds in a single slot at the key's position.
pub open spec fn slot_find(sp: Seq<SegV>, slot: SlotV, key: TrieKey) -> Result<Option<ValueV>, QueryError> {
    match slot {
        SlotV::Kv(k, v) => Ok(
            if k == key.value {
                Some(v)
            } else {
                None
            },
        ),
        SlotV::Sub(c) => if key.is_last() {
            Err(QueryError::KeyExhausted)
        } else {
            lookup(sp, c, key.step())
        },
    }
}

/// The error that inserting under `key` into `n` runs into, if any.
pub open spec fn insert_err(sp: Seq<SegV>, n: NodeV, key: TrieKey) -> Option<TransactError>
    decreases node_kind(n), node_seg(n), node_end(n), n,
{
    let p = key.map_index as int;
    match n.base {
        BaseV::Slots(s) => if !bit(n.map, p) {
            None
        } else {
            let bi = rank(n.map, p);
            if bi >= s.len() {
                Some(TransactError::Query(QueryError::BaseIndexOutOfBounds(bi as usize)))
            } else {
                match s[bi as int] {
                    SlotV::Kv(b, _) => if b == key.value || !kv_exhausts(key, b) {
                        None
                    } else {
                        Some(TransactError::KeyExhausted)
                    },
                    SlotV::Sub(c) => if key.is_last() {
                        Some(TransactError::KeyExhausted)
                    } else {
                        insert_err(sp, c, key.step())
                    },
                }
            }
        },
        BaseV::Table(a) => match table_items(sp, a, popcount(n.map)) {
            Err(e) => Some(TransactError::Query(QueryError::Read(e))),
            Ok(s) => if !bit(n.map, p) {
                None
            } else {
                let bi = rank(n.map, p);
                if bi >= s.len() {
                    Some(TransactError::Query(QueryError::BaseIndexOutOfBounds(bi as usize)))
                } else {
                    match s[bi as int] {
                        SlotV::Kv(b, _) => if b == key.value || !kv_exhausts(key, b) {
                            None
                        } else {
                            Some(TransactError::KeyExhausted)
                        },
                        SlotV::Sub(c) => if !below(a, bi, c) {
                            Some(TransactError::Query(QueryError::Read(ReadError::InvalidTableAddr(a))))
                        } else if key.is_last() {
                            Some(TransactError::KeyExhausted)
                        } else {
                            proof {
                                lemma_rank_lt_popcount(n.map, p);
                            }
                            insert_err(sp, c, key.step())
                        },
                    }
                }
            },
        },
    }
}

/// `n2` answers every lookup at the key's position as `n` does, except that the
/// key's value now maps to `v`.
#[verifier::opaque]
pub closed spec fn inserted(sp: Seq<SegV>, n: NodeV, key: TrieKey, v: ValueV, n2: NodeV) -> bool {
    forall|k: TrieKey|
        k.wf() && k.same_pos(key) ==> #[trigger] lookup(sp, n2, k) == if k.value == key.value {
            Ok::<Option<ValueV>, QueryError>(Some(v))
        } else {
            lookup(sp, n, k)
        }
}

/// The slot holding the two keys `a` and `b`, which stand at one position:
/// while their map indices agree, a node with a single slot one position
/// deeper; then the node of the two keys ordered by index.
pub open spec fn two_slot(a: TrieKey, av: ValueV, b: TrieKey, bv: ValueV) -> SlotV
    decreases u32::MAX - a.level, 5 - a.hash_index,
{
    if a.map_index == b.map_index && !a.is_last() {
        SlotV::Sub(
            NodeV {
                map: bit_of(a.map_index as int),
                base: BaseV::Slots(seq![two_slot(a.step(), av, b.step(), bv)]),
            },
        )
    } else {
        SlotV::Sub(two_node(a, av, b, bv))
    }
}

/// The memory node of the slots `s` under `map` with a new key-value slot for
/// `key` at the rank of its index, which is clear.
pub open spec fn ins_new(map: u32, s: Seq<SlotV>, key: TrieKey, v: ValueV) -> NodeV {
    NodeV {
        map: map | bit_of(key.map_index as int),
        base: BaseV::Slots(s.insert(rank(map, key.map_index as int) as int, SlotV::Kv(key.value, v))),
    }
}

/// The memory node of the slots `s` under `map` whose slot `bi`, holding key
/// value `b` with `bv`, takes `key` with `v`: the value replaced where the key
/// values agree, the slot split into the two keys one position deeper where
/// they differ.
pub open spec fn ins_kv(map: u32, s: Seq<SlotV>, bi: int, b: i32, bv: ValueV, key: TrieKey, v: ValueV) -> NodeV {
    NodeV {
        map,
        base: BaseV::Slots(
            s.update(
                bi,
                if b == key.value {
                    SlotV::Kv(b, v)
                } else {
                    two_slot(TrieKey::at(b, key.level, key.hash_index).step(), bv, key.step(), v)
                },
            ),
        ),
    }
}

/// The node that inserting `key` with `v` into `n` builds, where
/// `insert_err` finds no error: a stored node is first read into memory; a
/// clear index gets a new slot, a key-value slot takes the key as `ins_kv`
/// says, and a sub-trie slot takes the insertion one position deeper.
pub open spec fn ins(sp: Seq<SegV>, n: NodeV, key: TrieKey, v: ValueV) -> NodeV
    decreases node_kind(n), node_seg(n), node_end(n), n,
{
    let p = key.map_index as int;
    match n.base {
        BaseV::Slots(s) => if !bit(n.map, p) {
            ins_new(n.map, s, key, v)
        } else {
            let bi = rank(n.map, p);
            if bi >= s.len() {
                n
            } else {
                match s[bi as int] {
                    SlotV::Kv(b, bv) => ins_kv(n.map, s, bi as int, b, bv, key, v),
                    SlotV::Sub(c) => if key.is_last() {
                        n
                    } else {
                        NodeV {
                            map: n.map,
                            base: BaseV::Slots(s.update(bi as int, SlotV::Sub(ins(sp, c, key.step(), v)))),
                        }
                    },
                }
            }
        },
        BaseV::Table(a) => match table_items(sp, a, popcount(n.map)) {
            Err(_) => n,
            Ok(s) => if !bit(n.map, p) {
                ins_new(n.map, s, key, v)
            } else {
                let bi = rank(n.map, p);
                if bi >= s.len() {
                    n
                } else {
                    match s[bi as int] {
                        SlotV::Kv(b, bv) => ins_kv(n.map, s, bi as int, b, bv, key, v),
                        SlotV::Sub(c) => if !below(a, bi, c) || key.is_last() {
                            n
                        } else {
                            proof {
                                lemma_rank_lt_popcount(n.map, p);
                            }
                            NodeV {
                                map: n.map,
                                base: BaseV::Slots(s.update(bi as int, SlotV::Sub(ins(sp, c, key.step(), v)))),
                            }
                        },
                    }
                }
            },
        },
    }
}

/// `c` holds exactly the two keys `a` and `b` with their values.
pub open spec fn holds_two(sp: Seq<SegV>, c: NodeV, a: TrieKey, av: ValueV, b: TrieKey, bv: ValueV) -> bool {
    forall|k: TrieKey|
        k.wf() && k.same_pos(a) ==> #[trigger] lookup(sp, c, k) == if k.value == a.value {
            Ok::<Option<ValueV>, QueryError>(Some(av))
        } else if k.value == b.value {
            Ok::<Option<ValueV>, QueryError>(Some(bv))
        } else {
            Ok::<Option<ValueV>, QueryError>(None)
        }
}

/// A lookup in a memory node goes through the slot that the key's index selects.
pub proof fn lemma_lookup_slots(sp: Seq<SegV>, map: u32, s: Seq<SlotV>, k: TrieKey)
    requires
        s.len() == popcount(map),
    ensures
        lookup(sp, NodeV { map, base: BaseV::Slots(s) }, k) == if !bit(map, k.map_index as int) {
            Ok::<Option<ValueV>, QueryError>(None)
        } else {
            slot_find(sp, s[rank(map, k.map_index as int) as int], k)
        },
{
    if bit(map, k.map_index as int) {
        lemma_rank_lt_popcount(map, k.map_index as int);
    }
}

/// The node with the single key `a`.
pub open spec fn one_node(a: TrieKey, av: ValueV) -> NodeV {
    NodeV { map: bit_of(a.map_index as int), base: BaseV::Slots(seq![SlotV::Kv(a.value, av)]) }
}

/// The node with the keys `a` and `b` at different map indices, ordered by index.
pub open spec fn two_node(a: TrieKey, av: ValueV, b: TrieKey, bv: ValueV) -> NodeV {
    NodeV {
        map: bit_of(a.map_index as int) | bit_of(b.map_index as int),
        base: BaseV::Slots(
            if a.map_index < b.map_index {
                seq![SlotV::Kv(a.value, av), SlotV::Kv(b.value, bv)]
            } else {
                seq![SlotV::Kv(b.value, bv), SlotV::Kv(a.value, av)]
            },
        ),
    }
}

pub proof fn lemma_one_node(sp: Seq<SegV>, a: TrieKey, av: ValueV)
    requires
        a.wf(),
    ensures
        value_wf(av) ==> node_wf(one_node(a, av)),
        forall|k: TrieKey|
            k.wf() && k.same_pos(a) ==> #[trigger] lookup(sp, one_node(a, av), k) == if k.value == a.value {
                Ok::<Option<ValueV>, QueryError>(Some(av))
            } else {
                Ok::<Option<ValueV>, QueryError>(None)
            },
{
    a.lemma_wf_map_index();
    let p = a.map_index as int;
    lemma_rank_only(p, 32);
    assert forall|k: TrieKey|
        k.wf() && k.same_pos(a) implies #[trigger] lookup(sp, one_node(a, av), k) == if k.value == a.value {
        Ok::<Option<ValueV>, QueryError>(Some(av))
    } else {
        Ok::<Option<ValueV>, QueryError>(None)
    } by {
        k.lemma_wf_map_index();
        lemma_bit_only(p, k.map_index as int);
        lemma_rank_only(p, k.map_index as int);
        lemma_lookup_slots(sp, bit_of(p), seq![SlotV::Kv(a.value, av)], k);
        if k.value == a.value {
            k.lemma_same_value(a);
        }
    }
}

pub proof fn lemma_two_node(sp: Seq<SegV>, a: TrieKey, av: ValueV, b: TrieKey, bv: ValueV)
    requires
        a.wf(),
        b.wf(),
        a.same_pos(b),
        a.value != b.value,
        a.map_index != b.map_index,
    ensures
        value_wf(av) && value_wf(bv) ==> node_wf(two_node(a, av, b, bv)),
        holds_two(sp, two_node(a, av, b, bv), a, av, b, bv),
{
    a.lemma_wf_map_index();
    b.lemma_wf_map_index();
    let p = a.map_index as int;
    let q = b.map_index as int;
    let n = two_node(a, av, b, bv);
    lemma_bit_only(p, q);
    assert forall|x: int| #[trigger] rank(n.map, x) == (if x > p { 1nat } else { 0nat }) + (if x > q {
        1nat
    } else {
        0nat
    }) by {
        lemma_rank_with(bit_of(p), q, x);
        lemma_rank_only(p, x);
    }
    assert(rank(n.map, 32) == 2);
    assert forall|k: TrieKey| k.wf() && k.same_pos(a) implies #[trigger] lookup(sp, n, k) == if k.value
        == a.value {
        Ok::<Option<ValueV>, QueryError>(Some(av))
    } else if k.value == b.value {
        Ok::<Option<ValueV>, QueryError>(Some(bv))
    } else {
        Ok::<Option<ValueV>, QueryError>(None)
    } by {
        k.lemma_wf_map_index();
        let x = k.map_index as int;
        lemma_bit_with(bit_of(p), q, x);
        lemma_bit_only(p, x);
        assert(rank(n.map, x) == (if x > p { 1nat } else { 0nat }) + (if x > q { 1nat } else { 0nat }));
        lemma_lookup_slots(sp, n.map, n.base->Slots_0, k);
        if k.value == a.value {
            k.lemma_same_value(a);
        }
        if k.value == b.value {
            k.lemma_same_value(b);
        }
    }
}

} // verus!

verus! {

/// A node with one sub-trie slot at the shared index of `a` and `b` holds the
/// two keys when the sub-trie holds them one position deeper.
pub proof fn lemma_two_deep(sp: Seq<SegV>, a: TrieKey, av: ValueV, b: TrieKey, bv: ValueV, c: NodeV)
    requires
        a.wf(),
        b.wf(),
        a.same_pos(b),
        a.map_index == b.map_index,
        !a.is_last(),
        node_wf(c),
        holds_two(sp, c, a.step(), av, b.step(), bv),
    ensures
        node_wf(NodeV { map: bit_of(a.map_index as int), base: BaseV::Slots(seq![SlotV::Sub(c)]) }),
        holds_two(
            sp,
            NodeV { map: bit_of(a.map_index as int), base: BaseV::Slots(seq![SlotV::Sub(c)]) },
            a,
            av,
            b,
            bv,
        ),
{
    a.lemma_wf_map_index();
    let p = a.map_index as int;
    let n = NodeV { map: bit_of(p), base: BaseV::Slots(seq![SlotV::Sub(c)]) };
    lemma_rank_only(p, 32);
    assert(slot_wf(n.base->Slots_0[0]));
    assert forall|k: TrieKey| k.wf() && k.same_pos(a) implies #[trigger] lookup(sp, n, k) == if k.value
        == a.value {
        Ok::<Option<ValueV>, QueryError>(Some(av))
    } else if k.value == b.value {
        Ok::<Option<ValueV>, QueryError>(Some(bv))
    } else {
        Ok::<Option<ValueV>, QueryError>(None)
    } by {
        k.lemma_wf_map_index();
        lemma_bit_only(p, k.map_index as int);
        lemma_rank_only(p, k.map_index as int);
        lemma_lookup_slots(sp, n.map, n.base->Slots_0, k);
        if k.value == a.value {
            k.lemma_same_value(a);
        }
        if k.value == b.value {
            k.lemma_same_value(b);
        }
        if k.map_index == a.map_index {
            assert(k.step().wf() && k.step().same_pos(a.step()));
            assert(lookup(sp, c, k.step()) == if k.step().value == a.step().value {
                Ok::<Option<ValueV>, QueryError>(Some(av))
            } else if k.step().value == b.step().value {
                Ok::<Option<ValueV>, QueryError>(Some(bv))
            } else {
                Ok::<Option<ValueV>, QueryError>(None)
            });
        }
    }
}

/// Inserting a fresh slot for a key whose index is clear.
pub proof fn lemma_ins_new(sp: Seq<SegV>, map: u32, s: Seq<SlotV>, key: TrieKey, v: ValueV)
    requires
        key.wf(),
        s.len() == popcount(map),
        !bit(map, key.map_index as int),
    ensures
        inserted(
            sp,
            NodeV { map, base: BaseV::Slots(s) },
            key,
            v,
            NodeV {
                map: map | bit_of(key.map_index as int),
                base: BaseV::Slots(s.insert(rank(map, key.map_index as int) as int, SlotV::Kv(key.value, v))),
            },
        ),
        node_wf(NodeV { map, base: BaseV::Slots(s) }) && value_wf(v) ==> node_wf(
            NodeV {
                map: map | bit_of(key.map_index as int),
                base: BaseV::Slots(s.insert(rank(map, key.map_index as int) as int, SlotV::Kv(key.value, v))),
            },
        ),
{
    reveal(inserted);
    key.lemma_wf_map_index();
    let p = key.map_index as int;
    let bi = rank(map, p);
    let map2 = map | bit_of(p);
    let s2 = s.insert(bi as int, SlotV::Kv(key.value, v));
    lemma_rank_bounded(map, p);
    lemma_rank_mono(map, p, 32);
    lemma_rank_with(map, p, 32);
    assert forall|k: TrieKey| k.wf() && k.same_pos(key) implies #[trigger] lookup(
        sp,
        NodeV { map: map2, base: BaseV::Slots(s2) },
        k,
    ) == if k.value == key.value {
        Ok::<Option<ValueV>, QueryError>(Some(v))
    } else {
        lookup(sp, NodeV { map, base: BaseV::Slots(s) }, k)
    } by {
        k.lemma_wf_map_index();
        let x = k.map_index as int;
        lemma_bit_with(map, p, x);
        lemma_rank_with(map, p, x);
        lemma_lookup_slots(sp, map, s, k);
        lemma_lookup_slots(sp, map2, s2, k);
        if k.value == key.value {
            k.lemma_same_value(key);
        }
        if x != p && bit(map, x) {
            lemma_rank_lt_popcount(map, x);
            if x > p {
                lemma_rank_mono(map, p, x);
                assert(s2[rank(map, x) as int + 1] == s[rank(map, x) as int]);
            } else {
                lemma_rank_lt(map, x, p);
                assert(s2[rank(map, x) as int] == s[rank(map, x) as int]);
            }
        }
        if x == p {
            assert(s2[bi as int] == SlotV::Kv(key.value, v));
        }
    }
    if node_wf(NodeV { map, base: BaseV::Slots(s) }) && value_wf(v) {
        assert forall|i: int| 0 <= i < s2.len() implies slot_wf(#[trigger] s2[i]) by {
            if i < bi {
                assert(s2[i] == s[i]);
            } else if i > bi {
                assert(s2[i] == s[i - 1]);
            }
        }
    }
}

/// The slot `slot2` finds `v` under the key's value and whatever `slot` finds
/// under other values, at the key's position.
pub open spec fn slot_inserted(sp: Seq<SegV>, slot: SlotV, key: TrieKey, v: ValueV, slot2: SlotV) -> bool {
    forall|k: TrieKey|
        k.wf() && k.same_pos(key) ==> #[trigger] slot_find(sp, slot2, k) == if k.value == key.value {
            Ok::<Option<ValueV>, QueryError>(Some(v))
        } else {
            slot_find(sp, slot, k)
        }
}

/// Replacing the slot that the key's index selects by one that finds the new
/// value under the key and whatever the old slot found under other keys.
pub proof fn lemma_ins_update(sp: Seq<SegV>, map: u32, s: Seq<SlotV>, key: TrieKey, v: ValueV, slot: SlotV)
    requires
        key.wf(),
        s.len() == popcount(map),
        bit(map, key.map_index as int),
        slot_inserted(sp, s[rank(map, key.map_index as int) as int], key, v, slot),
    ensures
        inserted(
            sp,
            NodeV { map, base: BaseV::Slots(s) },
            key,
            v,
            NodeV { map, base: BaseV::Slots(s.update(rank(map, key.map_index as int) as int, slot)) },
        ),
        node_wf(NodeV { map, base: BaseV::Slots(s) }) && slot_wf(slot) ==> node_wf(
            NodeV { map, base: BaseV::Slots(s.update(rank(map, key.map_index as int) as int, slot)) },
        ),
{
    reveal(inserted);
    key.lemma_wf_map_index();
    let p = key.map_index as int;
    let bi = rank(map, p);
    let s2 = s.update(bi as int, slot);
    lemma_rank_lt_popcount(map, p);
    assert forall|k: TrieKey| k.wf() && k.same_pos(key) implies #[trigger] lookup(
        sp,
        NodeV { map, base: BaseV::Slots(s2) },
        k,
    ) == if k.value == key.value {
        Ok::<Option<ValueV>, QueryError>(Some(v))
    } else {
        lookup(sp, NodeV { map, base: BaseV::Slots(s) }, k)
    } by {
        k.lemma_wf_map_index();
        let x = k.map_index as int;
        lemma_lookup_slots(sp, map, s, k);
        lemma_lookup_slots(sp, map, s2, k);
        if k.value == key.value {
            k.lemma_same_value(key);
        }
        if x != p && bit(map, x) {
            if x < p {
                lemma_rank_lt(map, x, p);
            } else {
                lemma_rank_lt(map, p, x);
            }
            lemma_rank_lt_popcount(map, x);
        }
    }
    if node_wf(NodeV { map, base: BaseV::Slots(s) }) && slot_wf(slot) {
        assert forall|i: int| 0 <= i < s2.len() implies slot_wf(#[trigger] s2[i]) by {
            if i != bi {
                assert(s2[i] == s[i]);
            }
        }
    }
}

/// Loading a table node does not change where insertion fails.
pub proof fn lemma_load_insert_err(sp: Seq<SegV>, n: NodeV, k: TrieKey)
    requires
        space_wf(sp),
        load(sp, n) is Ok,
    ensures
        insert_err(sp, NodeV { map: n.map, base: BaseV::Slots(load(sp, n)->Ok_0) }, k) == insert_err(sp, n, k),
{
    match n.base {
        BaseV::Slots(_) => {},
        BaseV::Table(a) => {
            let s = load(sp, n)->Ok_0;
            let p = k.map_index as int;
            lemma_table_items(sp, a, popcount(n.map));
            if bit(n.map, p) {
                let bi = rank(n.map, p);
                lemma_rank_lt_popcount(n.map, p);
                assert(table_item(sp, a, bi) == Ok::<SlotV, ReadError>(s[bi as int]));
                let s0 = a.0.0 as int;
                let j = a.1.0 + bi;
                assert(sp[s0].table[j] == s[bi as int]);
                assert(persisted_item(sp, s0 as nat, j as nat, sp[s0].table[j]));
            }
        },
    }
}

} // verus!

verus! {

/// A key-value slot for the key's value, replaced by one with `v`.
pub proof fn lemma_slot_replace(sp: Seq<SegV>, key: TrieKey, old: ValueV, v: ValueV)
    requires
        key.wf(),
    ensures
        slot_inserted(sp, SlotV::Kv(key.value, old), key, v, SlotV::Kv(key.value, v)),
{
}

/// A key-value slot of another key, split into a sub-trie holding both keys.
pub proof fn lemma_slot_kick(sp: Seq<SegV>, key: TrieKey, b: i32, bv: ValueV, v: ValueV, c: NodeV)
    requires
        key.wf(),
        !key.is_last(),
        b != key.value,
        holds_two(sp, c, TrieKey::at(b, key.level, key.hash_index).step(), bv, key.step(), v),
    ensures
        slot_inserted(sp, SlotV::Kv(b, bv), key, v, SlotV::Sub(c)),
{
    let bk = TrieKey::at(b, key.level, key.hash_index);
    assert forall|k: TrieKey| k.wf() && k.same_pos(key) implies #[trigger] slot_find(sp, SlotV::Sub(c), k)
        == if k.value == key.value {
        Ok::<Option<ValueV>, QueryError>(Some(v))
    } else {
        slot_find(sp, SlotV::Kv(b, bv), k)
    } by {
        k.lemma_step();
        assert(k.step().same_pos(bk.step()));
    }
}

/// A sub-trie slot whose sub-trie received the key one position deeper.
pub proof fn lemma_slot_sub(sp: Seq<SegV>, key: TrieKey, v: ValueV, c: NodeV, c2: NodeV)
    requires
        key.wf(),
        !key.is_last(),
        inserted(sp, c, key.step(), v, c2),
    ensures
        slot_inserted(sp, SlotV::Sub(c), key, v, SlotV::Sub(c2)),
{
    reveal(inserted);
    assert forall|k: TrieKey| k.wf() && k.same_pos(key) implies #[trigger] slot_find(sp, SlotV::Sub(c2), k)
        == if k.value == key.value {
        Ok::<Option<ValueV>, QueryError>(Some(v))
    } else {
        slot_find(sp, SlotV::Sub(c), k)
    } by {
        k.lemma_step();
        assert(k.step().same_pos(key.step()));
    }
}

/// A child read from a loaded table node lies below it.
pub proof fn lemma_loaded_child(sp: Seq<SegV>, n: NodeV, bi: nat)
    requires
        space_wf(sp),
        n.base is Table,
        load(sp, n) is Ok,
        bi < popcount(n.map),
        load(sp, n)->Ok_0[bi as int] is Sub,
    ensures
        below(n.base->Table_0, bi, load(sp, n)->Ok_0[bi as int]->Sub_0),
        node_kind(load(sp, n)->Ok_0[bi as int]->Sub_0) == 0,
        node_seg(load(sp, n)->Ok_0[bi as int]->Sub_0) < node_seg(n) || (node_seg(load(sp, n)->Ok_0[
        bi as int]->Sub_0) == node_seg(n) && node_end(load(sp, n)->Ok_0[bi as int]->Sub_0) < node_end(n)),
{
    let a = n.base->Table_0;
    let s = load(sp, n)->Ok_0;
    lemma_table_items(sp, a, popcount(n.map));
    assert(table_item(sp, a, bi) == Ok::<SlotV, ReadError>(s[bi as int]));
    let j = a.1.0 + bi;
    assert(persisted_item(sp, a.0.0 as nat, j as nat, sp[a.0.0 as int].table[j]));
}

} // verus!

verus! {

/// The entries of the first `i` slots of `n`, in slot order, with the entries
/// of each sub-trie in its slot's place; reading stops at the first error.
pub open spec fn entries_upto(sp: Seq<SegV>, n: NodeV, i: nat) -> Result<Seq<(i32, ValueV)>, QueryError>
    decreases node_kind(n), node_seg(n), node_end(n), n, i,
{
    if i == 0 {
        Ok(Seq::empty())
    } else {
        match entries_upto(sp, n, (i - 1) as nat) {
            Err(e) => Err(e),
            Ok(acc) => match n.base {
                BaseV::Slots(s) => if i - 1 >= s.len() {
                    Err(QueryError::BaseIndexOutOfBounds((i - 1) as usize))
                } else {
                    match s[i - 1] {
                        SlotV::Kv(k, v) => Ok(acc.push((k, v))),
                        SlotV::Sub(c) => match entries_upto(sp, c, popcount(c.map)) {
                            Err(e) => Err(e),
                            Ok(more) => Ok(acc + more),
                        },
                    }
                },
                BaseV::Table(a) => match table_item(sp, a, (i - 1) as nat) {
                    Err(e) => Err(QueryError::Read(e)),
                    Ok(SlotV::Kv(k, v)) => Ok(acc.push((k, v))),
                    Ok(SlotV::Sub(c)) => if !below(a, (i - 1) as nat, c) || i > popcount(n.map) {
                        Err(QueryError::Read(ReadError::InvalidTableAddr(a)))
                    } else {
                        match entries_upto(sp, c, popcount(c.map)) {
                            Err(e) => Err(e),
                            Ok(more) => Ok(acc + more),
                        }
                    },
                },
            },
        }
    }
}

/// All entries of `n`: those of the slots that its map announces.
pub open spec fn entries(sp: Seq<SegV>, n: NodeV) -> Result<Seq<(i32, ValueV)>, QueryError> {
    entries_upto(sp, n, popcount(n.map))
}

} // verus!

verus! {

/// Once reading the entries fails, reading more slots fails the same way.
pub proof fn lemma_entries_err(sp: Seq<SegV>, n: NodeV, m: nat, k: nat)
    requires
        entries_upto(sp, n, m) is Err,
        m <= k,
    ensures
        entries_upto(sp, n, k) == entries_upto(sp, n, m),
    decreases k - m,
{
    if m < k {
        lemma_entries_err(sp, n, m, (k - 1) as nat);
    }
}

} // verus!

verus! {

/// A value with its storage resolved: a stored value is read from the space,
/// a stored nested trie becoming the table node at its base address.
pub open spec fn resolve(sp: Seq<SegV>, v: ValueV) -> Result<ValueV, ReadError> {
    match v {
        ValueV::Stored(addr) => match read_value(sp, addr) {
            Err(e) => Err(e),
            Ok(Value::U32(x)) => Ok(ValueV::U32(x)),
            Ok(Value::MapBase(map, base)) => Ok(ValueV::Sub(NodeV { map, base: BaseV::Table(base) })),
        },
        _ => Ok(v),
    }
}

/// Looking `key` up in `n` and resolving what is found.
pub open spec fn resolved_lookup(sp: Seq<SegV>, n: NodeV, key: TrieKey) -> Result<Option<ValueV>, QueryError> {
    match lookup(sp, n, key) {
        Err(e) => Err(e),
        Ok(None) => Ok(None),
        Ok(Some(v)) => match resolve(sp, v) {
            Err(e) => Err(QueryError::Read(e)),
            Ok(w) => Ok(Some(w)),
        },
    }
}

} // verus!

verus! {

/// A value found in a well-formed node of a well-formed space is well formed.
pub proof fn lemma_lookup_wf(sp: Seq<SegV>, n: NodeV, k: TrieKey)
    requires
        space_wf(sp),
        node_wf(n),
        k.wf(),
    ensures
        lookup(sp, n, k) matches Ok(Some(v)) ==> value_wf(v),
    decreases node_kind(n), node_seg(n), node_end(n), n,
{
    k.lemma_wf_map_index();
    let p = k.map_index as int;
    if bit(n.map, p) {
        let bi = rank(n.map, p);
        match n.base {
            BaseV::Slots(s) => {
                if bi < s.len() {
                    assert(slot_wf(s[bi as int]));
                    match s[bi as int] {
                        SlotV::Sub(c) => {
                            if !k.is_last() {
                                k.lemma_step();
                                lemma_lookup_wf(sp, c, k.step());
                            }
                        },
                        _ => {},
                    }
                }
            },
            BaseV::Table(a) => {
                match table_item(sp, a, bi) {
                    Ok(item) => {
                        let j = a.1.0 + bi;
                        assert(persisted_item(sp, a.0.0 as nat, j as nat, sp[a.0.0 as int].table[j]));
                        match item {
                            SlotV::Sub(c) => {
                                if below(a, bi, c) && !k.is_last() {
                                    lemma_rank_lt_popcount(n.map, p);
                                    k.lemma_step();
                                    lemma_lookup_wf(sp, c, k.step());
                                }
                            },
                            _ => {},
                        }
                    },
                    _ => {},
                }
            },
        }
    }
}

/// The empty memory node.
pub open spec fn empty_node() -> NodeV {
    NodeV { map: 0, base: BaseV::Slots(Seq::empty()) }
}

/// Every key of `keys` is well formed.
pub open spec fn keys_wf(keys: Seq<TrieKey>) -> bool {
    forall|i: int| 0 <= i < keys.len() ==> (#[trigger] keys[i]).wf()
}

/// The keys of the values `keys`, each at its first position.
pub open spec fn first_keys(keys: Seq<i32>) -> Seq<TrieKey> {
    keys.map_values(|k: i32| TrieKey::at(k, 1, 0))
}

pub proof fn lemma_first_keys_wf(keys: Seq<i32>)
    ensures
        keys_wf(first_keys(keys)),
        first_keys(keys).len() == keys.len(),
{
}

/// Looking up `keys[i..]` level after level from `n`: every key but the last
/// must lead to a nested trie, in which the next key is looked up.
pub open spec fn deep_lookup(sp: Seq<SegV>, n: NodeV, keys: Seq<TrieKey>, i: nat) -> Result<Option<ValueV>, QueryError>
    decreases keys.len() - i,
{
    if i >= keys.len() {
        Ok(None)
    } else {
        match resolved_lookup(sp, n, keys[i as int]) {
            Err(e) => Err(e),
            Ok(None) => Ok(None),
            Ok(Some(v)) => if i + 1 == keys.len() {
                Ok(Some(v))
            } else {
                match v {
                    ValueV::Sub(c) => deep_lookup(sp, c, keys, i + 1),
                    _ => Err(QueryError::NoSubtrieAtKeyIndex(i as usize)),
                }
            },
        }
    }
}

/// The node below `n` along `key` for a deep insertion: the nested trie found
/// under the key, or the empty node where nothing is found.
#[verifier::opaque]
pub open spec fn path_next(sp: Seq<SegV>, n: NodeV, key: TrieKey) -> Result<NodeV, TransactError> {
    match lookup(sp, n, key) {
        Err(e) => Err(TransactError::Query(e)),
        Ok(None) => Ok(empty_node()),
        Ok(Some(v)) => match resolve(sp, v) {
            Err(e) => Err(TransactError::SpaceReadError(e)),
            Ok(ValueV::Sub(c)) => Ok(c),
            Ok(_) => Err(TransactError::ExpectedMapBaseAtKey),
        },
    }
}

/// The nodes that inserting under `keys` passes, from level `i` on, starting at
/// `n`: below each key but the last lies the next node along it.
pub open spec fn deep_path(sp: Seq<SegV>, n: NodeV, keys: Seq<TrieKey>, i: nat) -> Result<Seq<NodeV>, TransactError>
    decreases keys.len() - i,
{
    if i + 1 >= keys.len() {
        Ok(seq![n])
    } else {
        match path_next(sp, n, keys[i as int]) {
            Err(e) => Err(e),
            Ok(c) => match deep_path(sp, c, keys, i + 1) {
                Err(e) => Err(e),
                Ok(p) => Ok(seq![n] + p),
            },
        }
    }
}

/// The next node of a path from a well-formed node is well formed.
pub proof fn lemma_path_next_wf(sp: Seq<SegV>, n: NodeV, key: TrieKey)
    requires
        space_wf(sp),
        node_wf(n),
        key.wf(),
    ensures
        path_next(sp, n, key) matches Ok(c) ==> node_wf(c),
{
    reveal(path_next);
    lemma_lookup_wf(sp, n, key);
    lemma_rank_zero(32);
}

/// The first error, from the deepest level up, that inserting under
/// `keys[i..]` into the nodes of `path` runs into.
pub open spec fn deep_insert_err(sp: Seq<SegV>, path: Seq<NodeV>, keys: Seq<TrieKey>, i: nat) -> Option<TransactError>
    decreases keys.len() - i,
{
    if i >= keys.len() {
        None
    } else {
        match deep_insert_err(sp, path, keys, i + 1) {
            Some(e) => Some(e),
            None => insert_err(sp, path[i as int], keys[i as int]),
        }
    }
}

/// The value that level `i` of a deep insertion maps its key to: `v` at the
/// last level, the updated node of the level below elsewhere.
pub open spec fn chain_value(news: Seq<NodeV>, v: ValueV, i: int) -> ValueV {
    if i + 1 >= news.len() {
        v
    } else {
        ValueV::Sub(news[i + 1])
    }
}

/// `news` are the nodes of `path` updated by a deep insertion of `v` under
/// `keys`: at each level the key maps to the level's value, and the level's
/// node is what inserting that value builds.
pub closed spec fn deep_chain(sp: Seq<SegV>, path: Seq<NodeV>, keys: Seq<TrieKey>, v: ValueV, news: Seq<NodeV>) -> bool {
    &&& news.len() == keys.len()
    &&& forall|i: int|
        0 <= i < news.len() ==> inserted(
            sp,
            path[i],
            keys[i],
            chain_value(news, v, i),
            #[trigger] news[i],
        ) && built(sp, path[i], keys[i], chain_value(news, v, i), news[i])
}

/// `m` is what inserting `key` with `v` into `n` builds.
#[verifier::opaque]
pub open spec fn built(sp: Seq<SegV>, n: NodeV, key: TrieKey, v: ValueV, m: NodeV) -> bool {
    m == ins(sp, n, key, v)
}

/// Each node of a deep insertion is what inserting its level's value into the
/// level's node of the path builds.
pub proof fn lemma_deep_chain_ins(sp: Seq<SegV>, path: Seq<NodeV>, keys: Seq<TrieKey>, v: ValueV, news: Seq<NodeV>, i: int)
    requires
        deep_chain(sp, path, keys, v, news),
        0 <= i < keys.len(),
    ensures
        news.len() == keys.len(),
        news[i] == ins(sp, path[i], keys[i], chain_value(news, v, i)),
{
    assert(inserted(sp, path[i], keys[i], chain_value(news, v, i), news[i]));
    reveal(built);
}

} // verus!

verus! {

/// The nodes of a path found in a well-formed space from a well-formed node
/// are well formed, one per remaining key, and start at that node.
pub proof fn lemma_deep_path(sp: Seq<SegV>, n: NodeV, keys: Seq<TrieKey>, i: nat)
    requires
        space_wf(sp),
        keys_wf(keys),
        node_wf(n),
        i < keys.len(),
    ensures
        deep_path(sp, n, keys, i) matches Ok(p) ==> p.len() == keys.len() - i && p[0] == n && forall|j: int|
            0 <= j < p.len() ==> node_wf(#[trigger] p[j]),
    decreases keys.len() - i,
{
    if i + 1 < keys.len() {
        let k = keys[i as int];
        lemma_path_next_wf(sp, n, k);
        match path_next(sp, n, k) {
            Ok(c) => {
                lemma_deep_path(sp, c, keys, i + 1);
                match deep_path(sp, c, keys, i + 1) {
                    Ok(p) => {
                        let q = seq![n] + p;
                        assert forall|j: int| 0 <= j < q.len() implies node_wf(#[trigger] q[j]) by {
                            if j > 0 {
                                assert(q[j] == p[j - 1]);
                            }
                        }
                    },
                    Err(_) => {},
                }
            },
            Err(_) => {},
        }
    }
}

/// An error at a deeper level is the error of every level above it.
pub proof fn lemma_deep_insert_err(sp: Seq<SegV>, path: Seq<NodeV>, keys: Seq<TrieKey>, i: nat, j: nat)
    requires
        i <= j,
        deep_insert_err(sp, path, keys, j) is Some,
    ensures
        deep_insert_err(sp, path, keys, i) == deep_insert_err(sp, path, keys, j),
    decreases j - i,
{
    if i < j {
        lemma_deep_insert_err(sp, path, keys, i + 1, j);
    }
}

/// A deep insertion is found again by a deep lookup of the same keys: the
/// lookup passes the updated nested tries down to the inserted value.
pub proof fn lemma_deep_lookup_chain(
    sp: Seq<SegV>,
    path: Seq<NodeV>,
    keys: Seq<TrieKey>,
    v: ValueV,
    news: Seq<NodeV>,
    i: nat,
)
    requires
        keys_wf(keys),
        i < keys.len(),
        !(v is Stored),
        deep_chain(sp, path, keys, v, news),
    ensures
        deep_lookup(sp, news[i as int], keys, i) == Ok::<Option<ValueV>, QueryError>(Some(v)),
    decreases keys.len() - i,
{
    let k = keys[i as int];
    assert(k.wf() && k.same_pos(k));
    assert(inserted(sp, path[i as int], k, chain_value(news, v, i as int), news[i as int]));
    lemma_inserted_lookup(sp, path[i as int], k, chain_value(news, v, i as int), news[i as int], k);
    assert(lookup(sp, news[i as int], k) == Ok::<Option<ValueV>, QueryError>(Some(chain_value(news, v, i as int))));
    if i + 1 < keys.len() {
        lemma_deep_lookup_chain(sp, path, keys, v, news, i + 1);
    }
}

/// The nodes of a found path follow one another along the keys: each is the
/// next node below the one before it.
pub proof fn lemma_deep_path_next(sp: Seq<SegV>, n: NodeV, keys: Seq<TrieKey>, i: nat)
    requires
        i < keys.len(),
    ensures
        deep_path(sp, n, keys, i) matches Ok(p) ==> p.len() == keys.len() - i && p[0] == n && forall|t: int|
            0 <= t < p.len() - 1 ==> path_next(sp, #[trigger] p[t], keys[i + t]) == Ok::<NodeV, TransactError>(
                p[t + 1],
            ),
    decreases keys.len() - i,
{
    if i + 1 < keys.len() {
        match path_next(sp, n, keys[i as int]) {
            Ok(c) => {
                lemma_deep_path_next(sp, c, keys, i + 1);
                match deep_path(sp, c, keys, i + 1) {
                    Ok(p) => {
                        let q = seq![n] + p;
                        assert forall|t: int| 0 <= t < q.len() - 1 implies path_next(
                            sp,
                            #[trigger] q[t],
                            keys[i + t],
                        ) == Ok::<NodeV, TransactError>(q[t + 1]) by {
                            if t == 0 {
                                assert(q[1] == p[0]);
                            } else {
                                assert(q[t] == p[t - 1]);
                                assert(q[t + 1] == p[t]);
                                assert(i + t == (i + 1) + (t - 1));
                            }
                        }
                    },
                    Err(_) => {},
                }
            },
            Err(_) => {},
        }
    }
}

/// A deep insertion leaves the deep lookup of keys that leave its path
/// unchanged: `others` agrees with `keys` below level `j` and takes another
/// key value at level `j`.
pub proof fn lemma_deep_lookup_chain_other(
    sp: Seq<SegV>,
    path: Seq<NodeV>,
    keys: Seq<TrieKey>,
    v: ValueV,
    news: Seq<NodeV>,
    others: Seq<TrieKey>,
    j: nat,
    i: nat,
)
    requires
        keys_wf(keys),
        keys_wf(others),
        deep_chain(sp, path, keys, v, news),
        path.len() == keys.len(),
        forall|t: int| 0 <= t < path.len() - 1 ==> path_next(sp, #[trigger] path[t], keys[t]) == Ok::<
            NodeV,
            TransactError,
        >(path[t + 1]),
        i <= j,
        j < keys.len(),
        j < others.len(),
        forall|t: int| 0 <= t < j ==> #[trigger] others[t] == keys[t],
        others[j as int].value != keys[j as int].value,
        others[j as int].same_pos(keys[j as int]),
    ensures
        deep_lookup(sp, news[i as int], others, i) == deep_lookup(sp, path[i as int], others, i),
    decreases j - i,
{
    let k = keys[i as int];
    assert(inserted(sp, path[i as int], k, chain_value(news, v, i as int), news[i as int]));
    if i == j {
        assert(others[i as int].wf());
        lemma_inserted_lookup(sp, path[i as int], k, chain_value(news, v, i as int), news[i as int], others[i as int]);
    } else {
        assert(others[i as int] == k);
        assert(k.wf() && k.same_pos(k));
        lemma_inserted_lookup(sp, path[i as int], k, chain_value(news, v, i as int), news[i as int], k);
        assert(chain_value(news, v, i as int) == ValueV::Sub(news[i + 1int]));
        lemma_deep_lookup_chain_other(sp, path, keys, v, news, others, j, i + 1);
        assert(path_next(sp, path[i as int], k) == Ok::<NodeV, TransactError>(path[i + 1int]));
        reveal(path_next);
        if lookup(sp, path[i as int], k) == Ok::<Option<ValueV>, QueryError>(None) {
            let o = others[i + 1int];
            assert(o.wf());
            o.lemma_wf_map_index();
            lemma_bit_zero(o.map_index as u32);
            assert(lookup(sp, empty_node(), o) == Ok::<Option<ValueV>, QueryError>(None));
        }
    }
}

} // verus!

verus! {

/// What an insertion states of one lookup: the inserted key finds the new
/// value, every other key at the same position what it found before.
pub proof fn lemma_inserted_lookup(sp: Seq<SegV>, n: NodeV, key: TrieKey, v: ValueV, n2: NodeV, k: TrieKey)
    requires
        inserted(sp, n, key, v, n2),
        k.wf(),
        k.same_pos(key),
    ensures
        lookup(sp, n2, k) == if k.value == key.value {
            Ok::<Option<ValueV>, QueryError>(Some(v))
        } else {
            lookup(sp, n, k)
        },
{
    reveal(inserted);
}

/// An insertion into a node is one into every node that answers all lookups
/// the same way.
pub proof fn lemma_inserted_same_lookups(sp: Seq<SegV>, m: NodeV, n: NodeV, key: TrieKey, v: ValueV, n2: NodeV)
    requires
        inserted(sp, m, key, v, n2),
        forall|k: TrieKey| #[trigger] lookup(sp, m, k) == lookup(sp, n, k),
    ensures
        inserted(sp, n, key, v, n2),
{
    reveal(inserted);
    assert forall|k: TrieKey| k.wf() && k.same_pos(key) implies #[trigger] lookup(sp, n2, k) == if k.value
        == key.value {
        Ok::<Option<ValueV>, QueryError>(Some(v))
    } else {
        lookup(sp, n, k)
    } by {
        assert(lookup(sp, m, k) == lookup(sp, n, k));
    }
}

/// Extending a deep insertion by one level above: the updated node of that
/// level maps its key to the updated node below.
pub proof fn lemma_chain_extend(
    sp: Seq<SegV>,
    path: Seq<NodeV>,
    keys: Seq<TrieKey>,
    v: ValueV,
    news: Seq<NodeV>,
    j: int,
    m: NodeV,
)
    requires
        1 <= j <= keys.len(),
        path.len() == keys.len(),
        news.len() == keys.len() - j,
        deep_chain(sp, path.skip(j), keys.skip(j), v, news),
        inserted(
            sp,
            path[j - 1],
            keys[j - 1],
            if j == keys.len() {
                v
            } else {
                ValueV::Sub(news[0])
            },
            m,
        ),
        m == ins(
            sp,
            path[j - 1],
            keys[j - 1],
            if j == keys.len() {
                v
            } else {
                ValueV::Sub(news[0])
            },
        ),
    ensures
        deep_chain(sp, path.skip(j - 1), keys.skip(j - 1), v, seq![m] + news),
{
    let news2 = seq![m] + news;
    let path2 = path.skip(j - 1);
    let keys2 = keys.skip(j - 1);
    assert forall|t: int| 0 <= t < news2.len() implies inserted(
        sp,
        path2[t],
        keys2[t],
        chain_value(news2, v, t),
        #[trigger] news2[t],
    ) && built(sp, path2[t], keys2[t], chain_value(news2, v, t), news2[t]) by {
        if t > 0 {
            let u = t - 1;
            assert(news2[t] == news[u]);
            assert(path2[t] == path.skip(j)[u]);
            assert(keys2[t] == keys.skip(j)[u]);
            assert(chain_value(news2, v, t) == chain_value(news, v, u));
            assert(inserted(
                sp,
                path.skip(j)[u],
                keys.skip(j)[u],
                chain_value(news, v, u),
                news[u],
            ));
            assert(built(sp, path.skip(j)[u], keys.skip(j)[u], chain_value(news, v, u), news[u]));
        } else {
            assert(path2[0] == path[j - 1]);
            assert(keys2[0] == keys[j - 1]);
            assert(built(sp, path2[0], keys2[0], chain_value(news2, v, 0), news2[0])) by {
                reveal(built);
            }
        }
    }
}

/// A deep insertion with nothing below is empty.
pub proof fn lemma_chain_empty(sp: Seq<SegV>, path: Seq<NodeV>, keys: Seq<TrieKey>, v: ValueV)
    requires
        keys.len() == 0,
    ensures
        deep_chain(sp, path, keys, v, Seq::empty()),
{
}

/// A deep insertion updates one node per key.
pub proof fn lemma_chain_len(sp: Seq<SegV>, path: Seq<NodeV>, keys: Seq<TrieKey>, v: ValueV, news: Seq<NodeV>)
    requires
        deep_chain(sp, path, keys, v, news),
    ensures
        news.len() == keys.len(),
{
}

} // verus!
