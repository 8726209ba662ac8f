//! A segment of bytes that tries are written into and read back from.
use vstd::prelude::*;

use crate::hamt::trie::flat::{MemMapBase, MemSlot, MemTrie};
use crate::hamt::trie::key::be_bytes;
use crate::hamt::trie::segment::{SegmentMapBase, SegmentTrie};

verus! {

/// The big-endian `u32` at byte `i` of `s`.
pub open spec fn be_u32_at(s: Seq<u8>, i: int) -> u32 {
    (s[i] as int * 0x1000000 + s[i + 1] as int * 0x10000 + s[i + 2] as int * 0x100 + s[i + 3] as int) as u32
}

/// The big-endian `u16` at byte `i` of `s`.
pub open spec fn be_u16_at(s: Seq<u8>, i: int) -> u16 {
    (s[i] as int * 0x100 + s[i + 1] as int) as u16
}

/// Big-endian bytes of `v`.
pub open spec fn be_bytes16(v: u16) -> Seq<u8> {
    seq![(v >> 8u16) as u8, v as u8]
}

/// The bytes of a written slot: its key and its value.
pub open spec fn slot_bytes(slot: MemSlot) -> Seq<u8> {
    match slot {
        MemSlot::KeyValue(k, v) => be_bytes(k) + be_bytes(v),
        MemSlot::Empty => Seq::empty(),
    }
}

/// The bytes of written slots, one after another.
pub open spec fn base_bytes(base: Seq<MemSlot>) -> Seq<u8>
    decreases base.len(),
{
    if base.len() == 0 {
        Seq::empty()
    } else {
        base_bytes(base.drop_last()) + slot_bytes(base.last())
    }
}

/// Reading back the bytes of a `u32` gives it back.
pub proof fn lemma_be_u32(s: Seq<u8>, i: int, v: u32)
    requires
        0 <= i,
        i + 4 <= s.len(),
        s.subrange(i, i + 4) == be_bytes(v),
    ensures
        be_u32_at(s, i) == v,
{
    assert(s[i] == be_bytes(v)[0]);
    assert(s[i + 1] == be_bytes(v)[1]);
    assert(s[i + 2] == be_bytes(v)[2]);
    assert(s[i + 3] == be_bytes(v)[3]);
    let b0 = (v >> 24u32) as u8;
    let b1 = (v >> 16u32) as u8;
    let b2 = (v >> 8u32) as u8;
    let b3 = v as u8;
    assert(b0 as u32 * 0x1000000 + b1 as u32 * 0x10000 + b2 as u32 * 0x100 + b3 as u32 == v) by (bit_vector)
        requires
            b0 == (v >> 24u32) as u8,
            b1 == (v >> 16u32) as u8,
            b2 == (v >> 8u32) as u8,
            b3 == v as u8,
    ;
}

/// Written slots lie eight bytes apart: the key of slot `i` at `8 * i`, its
/// value four bytes later.
pub proof fn lemma_base_bytes(base: Seq<MemSlot>, i: int)
    requires
        0 <= i < base.len(),
        forall|j: int| 0 <= j < base.len() ==> (#[trigger] base[j]) is KeyValue,
    ensures
        base_bytes(base).len() == 8 * base.len(),
        base_bytes(base).subrange(8 * i, 8 * i + 4) == be_bytes(base[i]->KeyValue_0),
        base_bytes(base).subrange(8 * i + 4, 8 * i + 8) == be_bytes(base[i]->KeyValue_1),
    decreases base.len(),
{
    lemma_base_bytes_len(base);
    let pre = base.drop_last();
    lemma_base_bytes_len(pre);
    if i < base.len() - 1 {
        assert forall|j: int| 0 <= j < pre.len() implies (#[trigger] pre[j]) is KeyValue by {
            assert(pre[j] == base[j]);
        }
        lemma_base_bytes(pre, i);
        assert(base_bytes(base).subrange(8 * i, 8 * i + 4) =~= base_bytes(pre).subrange(8 * i, 8 * i + 4));
        assert(base_bytes(base).subrange(8 * i + 4, 8 * i + 8) =~= base_bytes(pre).subrange(8 * i + 4, 8 * i + 8));
    } else {
        assert(base_bytes(base).subrange(8 * i, 8 * i + 4) =~= be_bytes(base[i]->KeyValue_0));
        assert(base_bytes(base).subrange(8 * i + 4, 8 * i + 8) =~= be_bytes(base[i]->KeyValue_1));
    }
}

/// Written key-value slots take eight bytes each.
pub proof fn lemma_base_bytes_len(base: Seq<MemSlot>)
    requires
        forall|j: int| 0 <= j < base.len() ==> (#[trigger] base[j]) is KeyValue,
    ensures
        base_bytes(base).len() == 8 * base.len(),
    decreases base.len(),
{
    if base.len() > 0 {
        let pre = base.drop_last();
        assert forall|j: int| 0 <= j < pre.len() implies (#[trigger] pre[j]) is KeyValue by {
            assert(pre[j] == base[j]);
        }
        lemma_base_bytes_len(pre);
    }
}

/// A position in a segment.
#[derive(Debug, Copy, Clone, Eq, PartialEq, Structural)]
pub struct SegmentIndex(pub usize);

impl SegmentIndex {
    /// The position `offset` bytes further.
    pub fn offset(&self, offset: usize) -> (r: SegmentIndex)
        requires
            self.0 + offset <= usize::MAX,
        ensures
            r.0 == self.0 + offset,
    {
        SegmentIndex(self.0 + offset)
    }
}

/// A segment of bytes.
pub struct Segment {
    bytes: Vec<u8>,
}

impl Segment {
    /// The bytes written so far.
    pub closed spec fn bytes(self) -> Seq<u8> {
        self.bytes@
    }

    /// The segment without bytes.
    pub fn new() -> (r: Self)
        ensures
            r.bytes() == Seq::<u8>::empty(),
    {
        Segment { bytes: Vec::new() }
    }

    /// Appends the big-endian bytes of `value`.
    pub fn write_u32(&mut self, value: u32)
        ensures
            final(self).bytes() == old(self).bytes() + be_bytes(value),
    {
        self.bytes.push((value >> 24u32) as u8);
        self.bytes.push((value >> 16u32) as u8);
        self.bytes.push((value >> 8u32) as u8);
        self.bytes.push(value as u8);
        assert(self.bytes@ =~= old(self).bytes() + be_bytes(value));
    }

    /// The big-endian `u32` at `start`, and the position after it.
    pub fn read_u32(&self, start: SegmentIndex) -> (r: (u32, SegmentIndex))
        requires
            start.0 + 4 <= self.bytes().len(),
        ensures
            r.0 == be_u32_at(self.bytes(), start.0 as int),
            r.1.0 == start.0 + 4,
    {
        proof {
            assert(self.bytes@.len() == self.bytes.len());
        }
        let end = start.0 + 4;
        let b0 = self.bytes[start.0];
        let b1 = self.bytes[start.0 + 1];
        let b2 = self.bytes[start.0 + 2];
        let b3 = self.bytes[start.0 + 3];
        let value = ((b0 as u32) << 24u32) | ((b1 as u32) << 16u32) | ((b2 as u32) << 8u32) | (b3 as u32);
        assert(((b0 as u32) << 24u32) | ((b1 as u32) << 16u32) | ((b2 as u32) << 8u32) | (b3 as u32) == b0 as u32
            * 0x1000000 + b1 as u32 * 0x10000 + b2 as u32 * 0x100 + b3 as u32) by (bit_vector);
        (value, SegmentIndex(end))
    }

    /// Appends the big-endian bytes of `value`.
    pub fn write_u16(&mut self, value: u16)
        ensures
            final(self).bytes() == old(self).bytes() + be_bytes16(value),
    {
        self.bytes.push((value >> 8u16) as u8);
        self.bytes.push(value as u8);
        assert(self.bytes@ =~= old(self).bytes() + be_bytes16(value));
    }

    /// The big-endian `u16` at `start`, and the position after it.
    pub fn read_u16(&self, start: SegmentIndex) -> (r: (u16, SegmentIndex))
        requires
            start.0 + 2 <= self.bytes().len(),
        ensures
            r.0 == be_u16_at(self.bytes(), start.0 as int),
            r.1.0 == start.0 + 2,
    {
        proof {
            assert(self.bytes@.len() == self.bytes.len());
        }
        let end = start.0 + 2;
        let b0 = self.bytes[start.0];
        let b1 = self.bytes[start.0 + 1];
        let value = ((b0 as u16) << 8u16) | (b1 as u16);
        assert(((b0 as u16) << 8u16) | (b1 as u16) == b0 as u16 * 0x100 + b1 as u16) by (bit_vector);
        (value, SegmentIndex(end))
    }

    /// The byte at `start`, and the position after it.
    pub fn read_u8(&self, start: SegmentIndex) -> (r: (u8, SegmentIndex))
        requires
            start.0 + 1 <= self.bytes().len(),
        ensures
            r.0 == self.bytes()[start.0 as int],
            r.1.0 == start.0 + 1,
    {
        proof {
            assert(self.bytes@.len() == self.bytes.len());
        }
        let end = start.0 + 1;
        (self.bytes[start.0], SegmentIndex(end))
    }

    /// Appends the key-value slots `base`, eight bytes each; returns where they
    /// start.
    pub fn write_base(&mut self, base: &[MemSlot]) -> (r: usize)
        requires
            forall|i: int| 0 <= i < base@.len() ==> (#[trigger] base@[i]) is KeyValue,
        ensures
            r == old(self).bytes().len(),
            final(self).bytes() == old(self).bytes() + base_bytes(base@),
    {
        let start = self.bytes.len();
        let mut i: usize = 0;
        while i < base.len()
            invariant
                i <= base@.len(),
                start == old(self).bytes().len(),
                forall|j: int| 0 <= j < base@.len() ==> (#[trigger] base@[j]) is KeyValue,
                self.bytes() == old(self).bytes() + base_bytes(base@.take(i as int)),
            decreases base@.len() - i,
        {
            match &base[i] {
                MemSlot::KeyValue(key, value) => {
                    self.write_u32(*key);
                    self.write_u32(*value);
                },
                MemSlot::Empty => {
                    assert(base@[i as int] is KeyValue);
                },
            }
            proof {
                assert(base@.take(i as int + 1).drop_last() =~= base@.take(i as int));
                assert(self.bytes() =~= old(self).bytes() + base_bytes(base@.take(i as int + 1)));
            }
            i = i + 1;
        }
        assert(base@.take(i as int) =~= base@);
        start
    }

    /// The key and the value of slot `base_index` of the base at `base_start`.
    pub fn read_slot(&self, base_index: usize, base_start: SegmentIndex) -> (r: (u32, u32))
        requires
            base_start.0 + base_index * 8 + 8 <= self.bytes().len(),
        ensures
            r.0 == be_u32_at(self.bytes(), base_start.0 + base_index * 8),
            r.1 == be_u32_at(self.bytes(), base_start.0 + base_index * 8 + 4),
    {
        proof {
            assert(self.bytes@.len() == self.bytes.len());
        }
        let slot_start = base_start.offset(base_index * 8);
        let (left, slot_part_start) = self.read_u32(slot_start);
        let (right, _) = self.read_u32(slot_part_start);
        (left, right)
    }

    /// Appends the base of `map_base`, then its map and the base's start;
    /// returns where the map starts.
    pub fn write_map_base(&mut self, map_base: &MemMapBase) -> (r: usize)
        requires
            forall|i: int| 0 <= i < map_base.base@.len() ==> (#[trigger] map_base.base@[i]) is KeyValue,
        ensures
            r == old(self).bytes().len() + base_bytes(map_base.base@).len(),
            final(self).bytes() == old(self).bytes() + base_bytes(map_base.base@) + be_bytes(map_base.map) + be_bytes(
                old(self).bytes().len() as u32,
            ),
    {
        let base_start = self.write_base(map_base.base.as_slice());
        let start = self.bytes.len();
        self.write_u32(map_base.map);
        self.write_u32(base_start as u32);
        start
    }

    /// The map and the base start written at `start`.
    pub fn read_map_base(&self, start: SegmentIndex) -> (r: SegmentMapBase)
        requires
            start.0 + 8 <= self.bytes().len(),
        ensures
            r.map == be_u32_at(self.bytes(), start.0 as int),
            r.base_start.0 == be_u32_at(self.bytes(), start.0 + 4) as usize,
    {
        let (map, base_part_start) = self.read_u32(start);
        let (base_start, _) = self.read_u32(base_part_start);
        SegmentMapBase { map, base_start: SegmentIndex(base_start as usize) }
    }

    /// Appends the root of `trie`; returns where its map starts.
    pub fn write_trie(&mut self, trie: &MemTrie) -> (r: usize)
        requires
            forall|i: int| 0 <= i < trie.map_base.base@.len() ==> (#[trigger] trie.map_base.base@[i]) is KeyValue,
        ensures
            r == old(self).bytes().len() + base_bytes(trie.map_base.base@).len(),
            final(self).bytes() == old(self).bytes() + base_bytes(trie.map_base.base@) + be_bytes(trie.map_base.map)
                + be_bytes(old(self).bytes().len() as u32),
    {
        self.write_map_base(&trie.map_base)
    }

    /// The trie whose root was written at `start`.
    pub fn read_trie(&self, start: SegmentIndex) -> (r: SegmentTrie)
        requires
            start.0 + 8 <= self.bytes().len(),
        ensures
            r.map_base.map == be_u32_at(self.bytes(), start.0 as int),
            r.map_base.base_start.0 == be_u32_at(self.bytes(), start.0 + 4) as usize,
    {
        let map_base = self.read_map_base(start);
        SegmentTrie { map_base }
    }
}

} // verus!

verus! {

/// A trie written after the bytes `pre` and read back answers a query of a key
/// it holds with the key's value: the map and the base start are read back as
/// written, and the slot at the key's rank holds the key and its value.
pub proof fn lemma_written_trie_query(pre: Seq<u8>, map: u32, base: Seq<MemSlot>, p: int, key: u32, value: u32)
    requires
        crate::hamt::trie::flat::flat_wf(map, base),
        0 <= p < 32,
        crate::hamt::trie::flat::flat_find(map, base, p) == MemSlot::KeyValue(key, value),
        pre.len() <= u32::MAX,
    ensures
        ({
            let bytes = pre + base_bytes(base) + be_bytes(map) + be_bytes(pre.len() as u32);
            let start = (pre.len() + base_bytes(base).len()) as int;
            let at = (pre.len() + crate::hamt::trie::node::map::rank(map, p) * 8) as int;
            &&& start + 8 <= bytes.len()
            &&& be_u32_at(bytes, start) == map
            &&& be_u32_at(bytes, start + 4) as usize == pre.len()
            &&& at + 8 <= bytes.len()
            &&& be_u32_at(bytes, at) == key
            &&& be_u32_at(bytes, at + 4) == value
        }),
{
    let bb = base_bytes(base);
    let bytes = pre + bb + be_bytes(map) + be_bytes(pre.len() as u32);
    let start = (pre.len() + bb.len()) as int;
    let i = crate::hamt::trie::node::map::rank(map, p) as int;
    crate::hamt::trie::node::map::lemma_rank_lt_popcount(map, p);
    lemma_base_bytes(base, i);
    assert(bytes.subrange(start, start + 4) =~= be_bytes(map));
    lemma_be_u32(bytes, start, map);
    assert(bytes.subrange(start + 4, start + 8) =~= be_bytes(pre.len() as u32));
    lemma_be_u32(bytes, start + 4, pre.len() as u32);
    let at = pre.len() + i * 8;
    assert(bytes.subrange(at, at + 4) =~= bb.subrange(8 * i, 8 * i + 4));
    lemma_be_u32(bytes, at, key);
    assert(bytes.subrange(at + 4, at + 8) =~= bb.subrange(8 * i + 4, 8 * i + 8));
    lemma_be_u32(bytes, at + 4, value);
}

} // verus!
