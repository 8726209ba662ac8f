//! Table items packed into two 32-bit halves: a key with a value whose high
//! bit is clear, or a map with a base position marked by the high bit.
use vstd::prelude::*;

use crate::client::QueryError;
use crate::hamt::space::{ReadError, TablePos};
use crate::hamt::trie::mem::slot::MemSlot;
use crate::hamt::trie::mem::value::MemValue;
use crate::hamt::trie::node::key::TrieKey;
use crate::hamt::trie::node::map::{bit, lemma_rank_bounded, popcount, rank, TrieMap};
use crate::hamt::trie::node::model::{SlotV, ValueV};
use crate::hamt::trie::node::value::TrieValue;

verus! {

/// The high bit of a right half: set in a packed map base.
pub open spec fn high(x: u32) -> bool {
    x & 0x80000000u32 != 0
}

/// The right half without its high bit.
pub open spec fn low(x: u32) -> u32 {
    x & 0x7fffffffu32
}

/// Packing a value that leaves the high bit clear keeps it whole; marking a
/// base position that leaves it clear sets the high bit and keeps the position.
pub proof fn lemma_pack_bits(v: u32)
    ensures
        !high(v) ==> low(v) == v,
        !high(v) ==> high(v | 0x80000000u32) && low(v | 0x80000000u32) == v,
        !high(low(v)),
{
    assert(v & 0x80000000u32 == 0 ==> v & 0x7fffffffu32 == v) by (bit_vector);
    assert(v & 0x80000000u32 == 0 ==> (v | 0x80000000u32) & 0x80000000u32 != 0 && (v | 0x80000000u32) & 0x7fffffffu32
        == v) by (bit_vector);
    assert((v & 0x7fffffffu32) & 0x80000000u32 == 0) by (bit_vector);
}

/// A key survives its trip through the left half.
pub proof fn lemma_key_bits(k: i32)
    ensures
        (k as u32) as i32 == k,
{
    assert((k as u32) as i32 == k) by (bit_vector);
}

/// A packed table item: its left and its right half.
#[derive(Debug, Clone, Copy, PartialEq, Eq, Structural)]
pub struct SlotValue(pub u32, pub u32);

impl SlotValue {
    /// The left half.
    pub fn left(&self) -> (r: u32)
        ensures
            r == self.0,
    {
        self.0
    }

    /// The right half.
    pub fn right(&self) -> (r: u32)
        ensures
            r == self.1,
    {
        self.1
    }
}

/// A packed key with its value.
pub struct SpaceKeyValue(SlotValue);

impl SpaceKeyValue {
    /// The packed item.
    pub closed spec fn slot(self) -> SlotValue {
        self.0
    }

    /// The key.
    pub open spec fn key(self) -> i32 {
        self.slot().0 as i32
    }

    /// The value.
    pub open spec fn value(self) -> u32 {
        low(self.slot().1)
    }

    /// `key` with `value`, which must leave the high bit clear.
    pub fn new(key: i32, value: u32) -> (r: Self)
        requires
            !high(value),
        ensures
            r.slot() == SlotValue(key as u32, value),
            r.key() == key,
            r.value() == value,
    {
        proof {
            lemma_pack_bits(value);
            lemma_key_bits(key);
        }
        SpaceKeyValue(SlotValue(key as u32, value))
    }

    /// The packed item.
    pub fn into_slot_value(self) -> (r: SlotValue)
        ensures
            r == self.slot(),
    {
        self.0
    }

    /// The key.
    pub fn to_key(&self) -> (r: i32)
        ensures
            r == self.key(),
    {
        self.0.left() as i32
    }

    /// The value.
    pub fn to_value(&self) -> (r: u32)
        ensures
            r == self.value(),
    {
        self.0.right() & 0x7fffffffu32
    }

    /// The key with its value in memory; nothing of the packed table `table`
    /// is read.
    pub fn to_key_and_value(&self, table: &[SlotValue]) -> (r: Result<(i32, MemValue), QueryError>)
        ensures
            r == Ok::<(i32, MemValue), QueryError>((self.key(), MemValue::U32(self.value()))),
    {
        let key = self.to_key();
        let value = self.to_value();
        Ok((key, MemValue::U32(value)))
    }

    /// The memory slot of the key with its value.
    pub fn to_mem_slot(self) -> (r: MemSlot)
        ensures
            r.dview() == SlotV::Kv(self.key(), ValueV::U32(self.value())),
    {
        let key = self.to_key();
        let value = self.to_value();
        MemSlot::KeyValue(key, TrieValue::Mem(MemValue::U32(value)))
    }

    /// The value, when `key` is the packed key; nothing of the packed table
    /// `table` is read.
    pub fn query_value(&self, key: TrieKey, table: &[SlotValue]) -> (r: Result<Option<MemValue>, QueryError>)
        ensures
            key.value == self.key() ==> (r matches Ok(Some(v)) && v.dview() == ValueV::U32(self.value())),
            key.value != self.key() ==> r == Ok::<Option<MemValue>, QueryError>(None),
    {
        if key.i32() == self.to_key() {
            let value = self.to_value();
            Ok(Some(MemValue::U32(value)))
        } else {
            Ok(None)
        }
    }
}

/// A packed map with the position of its base.
pub struct SpaceMapBase(SlotValue);

impl SpaceMapBase {
    /// The packed item.
    pub closed spec fn slot(self) -> SlotValue {
        self.0
    }

    /// The packed item marks a map base.
    #[verifier::type_invariant]
    closed spec fn inv(self) -> bool {
        high(self.0.1)
    }

    /// The map.
    pub open spec fn map(self) -> u32 {
        self.slot().0
    }

    /// The position of the base.
    pub open spec fn base_pos(self) -> u32 {
        low(self.slot().1)
    }

    /// `map` over the base at `base_addr`, which must leave the high bit clear.
    pub fn new(map: TrieMap, base_addr: TablePos) -> (r: Self)
        requires
            !high(base_addr.0),
        ensures
            r.slot() == SlotValue(map.0, base_addr.0 | 0x80000000u32),
            r.map() == map.0,
            r.base_pos() == base_addr.0,
    {
        proof {
            lemma_pack_bits(base_addr.0);
        }
        SpaceMapBase(SlotValue(map.u32(), base_addr.0 | 0x80000000u32))
    }

    /// The packed item, which must mark a map base.
    pub fn from_slot_value(slot_value: SlotValue) -> (r: Self)
        requires
            high(slot_value.1),
        ensures
            r.slot() == slot_value,
    {
        SpaceMapBase(slot_value)
    }

    /// The packed item.
    pub fn into_slot_value(self) -> (r: SlotValue)
        ensures
            r == self.slot(),
    {
        self.0
    }

    /// The packed item.
    pub fn to_slot_value(&self) -> (r: SlotValue)
        ensures
            r == self.slot(),
    {
        self.0
    }

    /// The map.
    pub fn to_map(&self) -> (r: TrieMap)
        ensures
            r.0 == self.map(),
    {
        TrieMap(self.0.left())
    }

    /// The position of the base.
    pub fn to_base_addr(&self) -> (r: TablePos)
        ensures
            r.0 == self.base_pos(),
            !high(r.0),
    {
        proof {
            lemma_pack_bits(self.0.1);
        }
        TablePos(self.0.right() & 0x7fffffffu32)
    }

    /// The map and the position of the base.
    pub fn into_map_base_addr(self) -> (r: (TrieMap, TablePos))
        ensures
            r.0.0 == self.map(),
            r.1.0 == self.base_pos(),
    {
        let map = self.to_map();
        let base_addr = self.to_base_addr();
        (map, base_addr)
    }

    /// The base.
    pub fn extract_base(&self) -> (r: SpaceBase)
        ensures
            r.pos() == self.base_pos(),
    {
        let addr = self.to_base_addr();
        SpaceBase(addr)
    }
}

/// A packed table item of either kind.
pub struct SpaceSlot(SlotValue);

impl SpaceSlot {
    /// The packed item.
    pub closed spec fn slot(self) -> SlotValue {
        self.0
    }

    /// The item holds a key with its value.
    pub open spec fn key_value(self) -> bool {
        !high(self.slot().1)
    }

    /// The packed item.
    pub fn from_slot_value(slot_value: SlotValue) -> (r: Self)
        ensures
            r.slot() == slot_value,
    {
        SpaceSlot(slot_value)
    }

    /// The packed item.
    pub fn into_slot_value(self) -> (r: SlotValue)
        ensures
            r == self.slot(),
    {
        self.0
    }

    /// Whether the item holds a key with its value.
    pub fn is_key_value(&self) -> (r: bool)
        ensures
            r == self.key_value(),
    {
        (self.0.right() & 0x80000000u32) == 0
    }

    /// Whether the item holds a map base.
    pub fn is_map_base(&self) -> (r: bool)
        ensures
            r == !self.key_value(),
    {
        let right = self.0.right();
        assert(right & 0x80000000u32 != 0 <==> right & 0x80000000u32 == 0x80000000u32) by (bit_vector);
        (right & 0x80000000u32) == 0x80000000u32
    }

    /// The key with its value, when the item holds one.
    pub fn to_key_value(&self) -> (r: Option<SpaceKeyValue>)
        ensures
            self.key_value() ==> (r matches Some(kv) && kv.key() == self.slot().0 as i32 && kv.value()
                == self.slot().1),
            !self.key_value() ==> r is None,
    {
        if self.is_key_value() {
            let key = self.0.left() as i32;
            let value = self.0.right() & 0x7fffffffu32;
            proof {
                lemma_pack_bits(self.0.1);
            }
            Some(SpaceKeyValue::new(key, value))
        } else {
            None
        }
    }

    /// The map base, when the item holds one.
    pub fn to_map_base(&self) -> (r: Option<SpaceMapBase>)
        ensures
            !self.key_value() ==> (r matches Some(mb) && mb.map() == self.slot().0 && mb.base_pos() == low(
                self.slot().1,
            )),
            self.key_value() ==> r is None,
    {
        if self.is_map_base() {
            let map = TrieMap(self.0.left());
            let base_addr = TablePos(self.0.right() & 0x7fffffffu32);
            proof {
                lemma_pack_bits(self.0.1);
            }
            Some(SpaceMapBase::new(map, base_addr))
        } else {
            None
        }
    }

    /// The item of `key` with `value`, which must leave the high bit clear.
    pub fn from_key_value(key: i32, value: u32) -> (r: Self)
        requires
            !high(value),
        ensures
            r.slot() == SlotValue(key as u32, value),
            r.key_value(),
    {
        proof {
            lemma_pack_bits(value);
        }
        let left = key as u32;
        let right = value & 0x7fffffffu32;
        SpaceSlot(SlotValue(left, right))
    }

    /// The item of `map` over the base at `base_addr`, which must leave the
    /// high bit clear.
    pub fn from_map_base(map: TrieMap, base_addr: TablePos) -> (r: Self)
        requires
            !high(base_addr.0),
        ensures
            r.slot() == SlotValue(map.0, base_addr.0 | 0x80000000u32),
            !r.key_value(),
    {
        proof {
            lemma_pack_bits(base_addr.0);
        }
        let left = map.u32();
        let right = base_addr.0 | 0x80000000u32;
        SpaceSlot(SlotValue(left, right))
    }
}

/// A packed base: the position of its first item.
pub struct SpaceBase(TablePos);

impl SpaceBase {
    /// The position of the first item.
    pub closed spec fn pos(self) -> u32 {
        self.0.0
    }

    /// The item at `offset` in the packed table `table`.
    pub fn read_slot(&self, table: &[SlotValue], offset: usize) -> (r: Result<SpaceSlot, QueryError>)
        ensures
            self.pos() + offset < table@.len() ==> (r matches Ok(s) && s.slot() == table@[self.pos() + offset]),
            self.pos() + offset >= table@.len() ==> r == Err::<SpaceSlot, QueryError>(
                QueryError::Read(ReadError::TablePosWithOffsetExceedsSegmentLen(TablePos(self.pos()), offset, table@.len() as usize)),
            ),
    {
        let len = table.len();
        if offset >= len || self.0.0 as usize >= len - offset {
            return Err(QueryError::Read(ReadError::TablePosWithOffsetExceedsSegmentLen(self.0, offset, len)));
        }
        Ok(SpaceSlot(table[self.0.0 as usize + offset]))
    }
}

/// The packed table `table` holds every nested map base below the item that
/// names it: its base ends at or before the item's own position.
pub open spec fn packed_wf(table: Seq<SlotValue>) -> bool {
    forall|j: int| 0 <= j < table.len() && high(#[trigger] table[j].1) ==> low(table[j].1) + popcount(table[j].0) <= j
}

/// The error of reading item `offset` of the base at `pos` past the end of
/// `table`.
pub open spec fn past_end(table: Seq<SlotValue>, pos: u32, offset: int) -> QueryError {
    QueryError::Read(ReadError::TablePosWithOffsetExceedsSegmentLen(TablePos(pos), offset as usize, table.len() as usize))
}

/// Looking `key` up in the packed map `map` over the base at `pos` of `table`:
/// the item at the key's rank holds the key with its value, another key, or a
/// nested map base in which the key looks further at its next position.
pub open spec fn packed_lookup(table: Seq<SlotValue>, map: u32, pos: u32, key: TrieKey) -> Result<
    Option<u32>,
    QueryError,
>
    decreases u32::MAX - key.level, 5 - key.hash_index,
{
    let p = key.map_index as int;
    if !bit(map, p) {
        Ok(None)
    } else {
        let at = pos + rank(map, p);
        if at >= table.len() {
            Err(past_end(table, pos, rank(map, p) as int))
        } else {
            let item = table[at];
            if !high(item.1) {
                Ok(
                    if item.0 as i32 == key.value {
                        Some(low(item.1))
                    } else {
                        None
                    },
                )
            } else if key.is_last() {
                Err(QueryError::KeyExhausted)
            } else {
                packed_lookup(table, item.0, low(item.1), key.step())
            }
        }
    }
}

/// The entries held by the first `n` items of the base at `pos` of `table`
/// under the packed map `map`, in item order, each nested map base's entries
/// in its item's place.
pub open spec fn packed_items(table: Seq<SlotValue>, map: u32, pos: u32, n: nat) -> Result<
    Seq<(i32, u32)>,
    QueryError,
>
    decreases pos + popcount(map), n,
{
    if n == 0 {
        Ok(Seq::empty())
    } else {
        match packed_items(table, map, pos, (n - 1) as nat) {
            Err(e) => Err(e),
            Ok(s) => {
                let j = pos + (n - 1);
                if j >= table.len() {
                    Err(past_end(table, pos, n - 1))
                } else {
                    let item = table[j];
                    if !high(item.1) {
                        Ok(s.push((item.0 as i32, low(item.1))))
                    } else if n <= popcount(map) && low(item.1) + popcount(item.0) <= j {
                        match packed_items(table, item.0, low(item.1), popcount(item.0)) {
                            Err(e) => Err(e),
                            Ok(t) => Ok(s + t),
                        }
                    } else {
                        Ok(s)
                    }
                }
            }
        }
    }
}

/// Once the items read so far run into an error, reading more items runs
/// into the same one.
pub proof fn lemma_packed_items_err(table: Seq<SlotValue>, map: u32, pos: u32, i: nat, n: nat)
    requires
        i <= n,
        packed_items(table, map, pos, i) is Err,
    ensures
        packed_items(table, map, pos, n) == packed_items(table, map, pos, i),
    decreases n - i,
{
    if i < n {
        lemma_packed_items_err(table, map, pos, i, (n - 1) as nat);
    }
}

/// Entries with their values in memory.
pub open spec fn mem_entries(s: Seq<(i32, u32)>) -> Seq<(i32, MemValue)> {
    s.map_values(|e: (i32, u32)| (e.0, MemValue::U32(e.1)))
}

impl SpaceMapBase {
    /// The map base that the item at `addr` of `table` packs; the item must
    /// mark a map base.
    pub fn load(table: &[SlotValue], addr: TablePos) -> (r: Result<Self, QueryError>)
        requires
            addr.0 < table@.len() ==> high(table@[addr.0 as int].1),
        ensures
            addr.0 < table@.len() ==> (r matches Ok(mb) && mb.slot() == table@[addr.0 as int]),
            addr.0 >= table@.len() ==> r == Err::<Self, QueryError>(past_end(table@, addr.0, 0)),
    {
        let base = SpaceBase(addr);
        match base.read_slot(table, 0) {
            Ok(slot) => Ok(SpaceMapBase::from_slot_value(slot.into_slot_value())),
            Err(e) => Err(e),
        }
    }

    /// The item of `table` that the key's map index selects, when the index
    /// is set.
    pub fn to_slot(&self, key: TrieKey, table: &[SlotValue]) -> (r: Result<Option<SpaceSlot>, QueryError>)
        requires
            key.map_index < 32,
        ensures
            !bit(self.map(), key.map_index as int) ==> r == Ok::<Option<SpaceSlot>, QueryError>(None),
            bit(self.map(), key.map_index as int) && self.base_pos() + rank(self.map(), key.map_index as int)
                < table@.len() ==> (r matches Ok(Some(s)) && s.slot() == table@[self.base_pos() + rank(
                self.map(),
                key.map_index as int,
            )]),
            bit(self.map(), key.map_index as int) && self.base_pos() + rank(self.map(), key.map_index as int)
                >= table@.len() ==> r == Err::<Option<SpaceSlot>, QueryError>(
                past_end(table@, self.base_pos(), rank(self.map(), key.map_index as int) as int),
            ),
    {
        proof {
            lemma_rank_bounded(self.map(), key.map_index as int);
        }
        match self.to_map().to_base_index(key) {
            Some(base_index) => {
                let base = self.extract_base();
                match base.read_slot(table, base_index) {
                    Ok(slot) => Ok(Some(slot)),
                    Err(e) => Err(e),
                }
            },
            None => Ok(None),
        }
    }

    /// The value of `key` in this packed map base, looking further into the
    /// nested map bases of `table` along the key's positions.
    pub fn query_value(&self, key: TrieKey, table: &[SlotValue]) -> (r: Result<Option<MemValue>, QueryError>)
        requires
            key.wf(),
        ensures
            match packed_lookup(table@, self.map(), self.base_pos(), key) {
                Ok(Some(x)) => r matches Ok(Some(m)) && m.dview() == ValueV::U32(x),
                Ok(None) => r == Ok::<Option<MemValue>, QueryError>(None),
                Err(e) => r == Err::<Option<MemValue>, QueryError>(e),
            },
        decreases u32::MAX - key.level, 5 - key.hash_index,
    {
        proof {
            key.lemma_wf_map_index();
        }
        let slot = match self.to_slot(key, table) {
            Ok(s) => s,
            Err(e) => return Err(e),
        };
        if let Some(slot) = slot {
            proof {
                lemma_pack_bits(slot.slot().1);
            }
            if let Some(key_value) = slot.to_key_value() {
                return key_value.query_value(key, table);
            } else if let Some(map_base) = slot.to_map_base() {
                if key.at_last() {
                    return Err(QueryError::KeyExhausted);
                }
                proof {
                    key.lemma_step();
                }
                return map_base.query_value(key.next(), table);
            }
        }
        Ok(None)
    }

    /// All entries of this packed map base and of the nested ones below it in
    /// `table`, in item order.
    pub fn query_key_values(&self, table: &[SlotValue]) -> (r: Result<Vec<(i32, MemValue)>, QueryError>)
        requires
            packed_wf(table@),
        ensures
            match packed_items(table@, self.map(), self.base_pos(), popcount(self.map())) {
                Ok(s) => r matches Ok(v) && v@ == mem_entries(s),
                Err(e) => r == Err::<Vec<(i32, MemValue)>, QueryError>(e),
            },
        decreases self.base_pos() + popcount(self.map()),
    {
        let slot_count = self.to_map().slot_count();
        let base = self.extract_base();
        let mut out: Vec<(i32, MemValue)> = Vec::new();
        let mut i: usize = 0;
        while i < slot_count
            invariant
                i <= slot_count,
                slot_count == popcount(self.map()),
                base.pos() == self.base_pos(),
                packed_wf(table@),
                packed_items(table@, self.map(), self.base_pos(), i as nat) matches Ok(s) && out@ == mem_entries(s),
            decreases slot_count - i,
        {
            let ghost s = packed_items(table@, self.map(), self.base_pos(), i as nat)->Ok_0;
            let slot = match base.read_slot(table, i) {
                Ok(slot) => slot,
                Err(e) => {
                    proof {
                        lemma_packed_items_err(table@, self.map(), self.base_pos(), (i + 1) as nat, slot_count as nat);
                    }
                    return Err(e);
                },
            };
            proof {
                lemma_pack_bits(slot.slot().1);
            }
            if let Some(key_value) = slot.to_key_value() {
                let entry = match key_value.to_key_and_value(table) {
                    Ok(e) => e,
                    Err(e) => return Err(e),
                };
                out.push(entry);
                assert(out@ =~= mem_entries(s.push((slot.slot().0 as i32, low(slot.slot().1)))));
            } else if let Some(map_base) = slot.to_map_base() {
                let ghost j = self.base_pos() + i;
                assert(high(table@[j as int].1));
                let mut more = match map_base.query_key_values(table) {
                    Ok(m) => m,
                    Err(e) => {
                        proof {
                            lemma_packed_items_err(
                                table@,
                                self.map(),
                                self.base_pos(),
                                (i + 1) as nat,
                                slot_count as nat,
                            );
                        }
                        return Err(e);
                    },
                };
                let ghost t = packed_items(table@, map_base.map(), map_base.base_pos(), popcount(map_base.map()))->Ok_0;
                out.append(&mut more);
                assert(out@ =~= mem_entries(s + t));
            }
            i = i + 1;
        }
        Ok(out)
    }
}

impl From<SlotValue> for SpaceBase {
    /// The base that the packed map base `slot_value` names: the low 31 bits
    /// of its right half.
    fn from(slot_value: SlotValue) -> (r: SpaceBase)
        ensures
            r.pos() == low(slot_value.1),
    {
        SpaceBase(TablePos(slot_value.right() & 0x7fffffffu32))
    }
}

impl vstd::std_specs::convert::FromSpecImpl<SlotValue> for SpaceBase {
    open spec fn obeys_from_spec() -> bool {
        true
    }

    closed spec fn from_spec(slot_value: SlotValue) -> SpaceBase {
        SpaceBase(TablePos(low(slot_value.1)))
    }
}

/// Packing a key with a value and unpacking the item gives them back, and the
/// item reads as a key with its value; packing a map with a base position and
/// unpacking the item gives them back, and the item reads as a map base.
pub proof fn lemma_pack_roundtrip(key: i32, value: u32, map: u32, pos: u32)
    requires
        !high(value),
        !high(pos),
    ensures
        ({
            let kv = SlotValue(key as u32, value);
            &&& !high(kv.1)
            &&& kv.0 as i32 == key
            &&& low(kv.1) == value
        }),
        ({
            let mb = SlotValue(map, pos | 0x80000000u32);
            &&& high(mb.1)
            &&& mb.0 == map
            &&& low(mb.1) == pos
        }),
{
    lemma_pack_bits(value);
    lemma_pack_bits(pos);
    lemma_key_bits(key);
}

} // verus!
