use vstd::prelude::*;

use crate::hamt::trie::node::key::TrieKey;

verus! {

/// The bit of map index `p` (0 is the most significant bit).
pub open spec fn bit_of(p: int) -> u32 {
    0x80000000u32 >> (p as u32)
}

/// Whether map index `p` is set in `map`.
pub open spec fn bit(map: u32, p: int) -> bool {
    0 <= p < 32 && map & bit_of(p) != 0
}

/// Number of indices below `p` that are set in `map`.
pub open spec fn rank(map: u32, p: int) -> nat
    decreases p,
{
    if p <= 0 {
        0
    } else {
        rank(map, p - 1) + if bit(map, p - 1) { 1nat } else { 0nat }
    }
}

/// Number of indices set in `map`.
pub open spec fn popcount(map: u32) -> nat {
    rank(map, 32)
}

pub proof fn lemma_bit_or(map: u32, p: u32, q: u32)
    requires
        p < 32,
        q < 32,
    ensures
        (map | (0x80000000u32 >> p)) & (0x80000000u32 >> q) != 0 <==> (p == q || map & (
        0x80000000u32 >> q) != 0),
{
    assert((map | (0x80000000u32 >> p)) & (0x80000000u32 >> q) != 0 <==> (p == q || map & (
    0x80000000u32 >> q) != 0)) by (bit_vector)
        requires
            p < 32,
            q < 32,
    ;
}

pub proof fn lemma_bit_zero(q: u32)
    requires
        q < 32,
    ensures
        0u32 & (0x80000000u32 >> q) == 0,
{
    assert(0u32 & (0x80000000u32 >> q) == 0) by (bit_vector);
}

pub proof fn lemma_bit_single(p: u32, q: u32)
    requires
        p < 32,
        q < 32,
    ensures
        (0x80000000u32 >> p) & (0x80000000u32 >> q) != 0 <==> p == q,
{
    assert((0x80000000u32 >> p) & (0x80000000u32 >> q) != 0 <==> p == q) by (bit_vector)
        requires
            p < 32,
            q < 32,
    ;
}

/// Setting bit `p` keeps every other bit.
pub proof fn lemma_bit_with(map: u32, p: int, q: int)
    requires
        0 <= p < 32,
    ensures
        bit(map | bit_of(p), q) <==> (q == p || bit(map, q)),
{
    if 0 <= q < 32 {
        lemma_bit_or(map, p as u32, q as u32);
    }
}

/// The map with the single bit `p`.
pub proof fn lemma_bit_only(p: int, q: int)
    requires
        0 <= p < 32,
    ensures
        bit(bit_of(p), q) <==> q == p,
{
    if 0 <= q < 32 {
        lemma_bit_single(p as u32, q as u32);
    }
}

pub proof fn lemma_rank_bounded(map: u32, p: int)
    ensures
        rank(map, p) <= if p <= 0 { 0 } else { p as nat },
    decreases p,
{
    if p > 0 {
        lemma_rank_bounded(map, p - 1);
    }
}

pub proof fn lemma_rank_mono(map: u32, p: int, q: int)
    requires
        p <= q,
    ensures
        rank(map, p) <= rank(map, q),
    decreases q - p,
{
    if p < q {
        lemma_rank_mono(map, p, q - 1);
    }
}

/// A set index ranks strictly below every later index.
pub proof fn lemma_rank_lt(map: u32, p: int, q: int)
    requires
        bit(map, p),
        p < q,
    ensures
        rank(map, p) < rank(map, q),
    decreases q - p,
{
    if q - 1 > p {
        lemma_rank_lt(map, p, q - 1);
    }
}

/// A set index has a rank below the number of set indices.
pub proof fn lemma_rank_lt_popcount(map: u32, p: int)
    requires
        bit(map, p),
    ensures
        rank(map, p) < popcount(map),
{
    lemma_rank_lt(map, p, 32);
}

/// Ranks after setting a bit that was clear.
pub proof fn lemma_rank_with(map: u32, p: int, q: int)
    requires
        0 <= p < 32,
        !bit(map, p),
    ensures
        rank(map | bit_of(p), q) == rank(map, q) + if q > p { 1nat } else { 0nat },
    decreases q,
{
    if q > 0 {
        lemma_rank_with(map, p, q - 1);
        lemma_bit_with(map, p, q - 1);
    }
}

/// Ranks in the empty map.
pub proof fn lemma_rank_zero(q: int)
    ensures
        rank(0, q) == 0,
    decreases q,
{
    if q > 0 {
        lemma_rank_zero(q - 1);
        if 0 <= q - 1 < 32 {
            lemma_bit_zero((q - 1) as u32);
        }
    }
}

/// Ranks in a single-bit map.
pub proof fn lemma_rank_only(p: int, q: int)
    requires
        0 <= p < 32,
    ensures
        rank(bit_of(p), q) == if q > p { 1nat } else { 0nat },
    decreases q,
{
    if q > 0 {
        lemma_rank_only(p, q - 1);
        lemma_bit_only(p, q - 1);
    }
}

/// Counts the set indices of `map` below `p`.
pub fn rank_exec(map: u32, p: u8) -> (r: usize)
    requires
        p <= 32,
    ensures
        r == rank(map, p as int),
        r <= p,
{
    let mut i: u8 = 0;
    let mut c: usize = 0;
    while i < p
        invariant
            i <= p <= 32,
            c == rank(map, i as int),
            c <= i,
        decreases p - i,
    {
        if map & (0x80000000u32 >> (i as u32)) != 0 {
            c = c + 1;
        }
        i = i + 1;
    }
    c
}

/// A 32-bit occupancy map of a trie node: bit `i` (from the top) is set when
/// map index `i` has a slot.
#[derive(Debug, Clone, Copy, PartialEq, Eq, Structural)]
pub struct TrieMap(pub u32);

impl TrieMap {
    /// The map with no index set.
    pub fn empty() -> (r: Self)
        ensures
            r.0 == 0,
            popcount(r.0) == 0,
    {
        proof {
            lemma_rank_zero(32);
        }
        TrieMap(0)
    }

    /// The raw map bits.
    pub fn u32(&self) -> (r: u32)
        ensures
            r == self.0,
    {
        self.0
    }

    /// Number of slots, i.e. of set indices.
    pub fn slot_count(&self) -> (r: usize)
        ensures
            r == popcount(self.0),
            r <= 32,
    {
        rank_exec(self.0, 32)
    }

    /// Number of set indices before the key's map index.
    pub fn count_left(&self, key: TrieKey) -> (r: usize)
        requires
            key.map_index < 32,
        ensures
            r == rank(self.0, key.map_index as int),
    {
        rank_exec(self.0, key.map_index)
    }

    /// The map that has only the key's index set.
    pub fn set_key_bit(key: TrieKey) -> (r: Self)
        requires
            key.map_index < 32,
        ensures
            r.0 == bit_of(key.map_index as int),
    {
        let map = key.to_map_bit();
        TrieMap(map)
    }

    /// The map that has only `map_index` set.
    pub fn set_map_index_bit(map_index: u8) -> (r: Self)
        requires
            map_index < 32,
        ensures
            r.0 == bit_of(map_index as int),
    {
        let bit = TrieKey::map_bit_from_map_index(map_index);
        TrieMap(bit)
    }

    /// This map with the key's index set as well.
    pub fn with_key(&self, key: TrieKey) -> (r: Self)
        requires
            key.map_index < 32,
        ensures
            r.0 == self.0 | bit_of(key.map_index as int),
    {
        let bit = key.to_map_bit();
        TrieMap(self.0 | bit)
    }

    /// Whether the key's index is set.
    pub fn is_present(&self, key: TrieKey) -> (r: bool)
        requires
            key.map_index < 32,
        ensures
            r == bit(self.0, key.map_index as int),
    {
        (self.0 & key.to_map_bit()) != 0
    }

    /// Position in the base of the key's slot, when its index is set.
    pub fn to_base_index(&self, key: TrieKey) -> (r: Option<usize>)
        requires
            key.map_index < 32,
        ensures
            r == if bit(self.0, key.map_index as int) {
                Some(rank(self.0, key.map_index as int) as usize)
            } else {
                None::<usize>
            },
    {
        if self.is_present(key) {
            Some(rank_exec(self.0, key.map_index))
        } else {
            None
        }
    }
}

} // verus!
