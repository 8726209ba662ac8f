use vstd::prelude::*;

use crate::hash::{spec_universal, universal};
use crate::hamt::trie::node::map::{bit_of, rank, TrieMap};

verus! {

/// Big-endian bytes of `key`.
pub open spec fn key_bytes(key: u32) -> Seq<u8> {
    seq![(key >> 24u32) as u8, (key >> 16u32) as u8, (key >> 8u32) as u8, key as u8]
}

/// Hash of a key at a level: the universal hash of its big-endian bytes.
pub open spec fn spec_hash_key(key: u32, level: u32) -> u32 {
    spec_universal(key_bytes(key), level)
}

/// The five bits of `hash` at position `hash_index`.
pub open spec fn spec_map_index(hash: u32, hash_index: u32) -> u8 {
    ((hash >> ((5 * hash_index) as u32)) & 0x1fu32) as u8
}

pub proof fn lemma_map_index_bound(hash: u32, hash_index: u32)
    ensures
        spec_map_index(hash, hash_index) < 32,
{
    let s = (5 * hash_index) as u32;
    assert((hash >> s) & 0x1fu32 < 32) by (bit_vector);
}

/// A trie key: the key value with its current hash position. A key starts at
/// level 1, hash index 0 and moves through the five 5-bit chunks of the level's
/// hash before rehashing at the next level.
#[derive(Debug, Clone, Copy, PartialEq, Eq, Structural)]
pub struct TrieKey {
    pub value: i32,
    pub level: u32,
    pub hash: u32,
    pub hash_index: u32,
    pub map_index: u8,
}

impl TrieKey {
    /// The key for `value` at position (`level`, `hash_index`).
    pub open spec fn at(value: i32, level: u32, hash_index: u32) -> TrieKey {
        let hash = spec_hash_key(value as u32, level);
        TrieKey { value, level, hash, hash_index, map_index: spec_map_index(hash, hash_index) }
    }

    /// The key's fields agree with its value and position.
    pub open spec fn wf(self) -> bool {
        &&& 1 <= self.level
        &&& self.hash_index < 5
        &&& self == Self::at(self.value, self.level, self.hash_index)
    }

    /// The key is at the last position: no next position exists.
    pub open spec fn is_last(self) -> bool {
        self.level == u32::MAX && self.hash_index >= 4
    }

    /// Both keys are at the same position.
    pub open spec fn same_pos(self, other: TrieKey) -> bool {
        self.level == other.level && self.hash_index == other.hash_index
    }

    /// The key at the next position.
    pub open spec fn step(self) -> TrieKey {
        if self.hash_index + 1 < 5 {
            Self::at(self.value, self.level, (self.hash_index + 1) as u32)
        } else {
            Self::at(self.value, (self.level + 1) as u32, 0)
        }
    }

    pub proof fn lemma_wf_map_index(self)
        requires
            self.wf(),
        ensures
            self.map_index < 32,
    {
        lemma_map_index_bound(self.hash, self.hash_index);
    }

    /// Two well-formed keys at one position with one value are the same key.
    pub proof fn lemma_same_value(self, other: TrieKey)
        requires
            self.wf(),
            other.wf(),
            self.same_pos(other),
            self.value == other.value,
        ensures
            self == other,
    {
    }

    pub proof fn lemma_step(self)
        requires
            self.wf(),
            !self.is_last(),
        ensures
            self.step().wf(),
            self.step().value == self.value,
            self.step().map_index < 32,
    {
        lemma_map_index_bound(self.step().hash, self.step().hash_index);
    }

    /// The key for `value` at level 1, hash index 0.
    pub fn new(value: i32) -> (r: Self)
        ensures
            r == Self::at(value, 1, 0),
            r.wf(),
            r.map_index < 32,
    {
        let level: u32 = 1;
        let hash = hash_key(value as u32, level);
        let hash_index: u32 = 0;
        let map_index = map_index(hash, hash_index);
        proof {
            lemma_map_index_bound(hash, hash_index);
        }
        TrieKey { value, level, hash, hash_index, map_index }
    }

    /// The key for `other` at this key's position.
    pub fn sync(&self, other: i32) -> (r: Self)
        requires
            self.wf(),
        ensures
            r == Self::at(other, self.level, self.hash_index),
            r.wf(),
            r.same_pos(*self),
            r.map_index < 32,
    {
        let level = self.level;
        let hash = hash_key(other as u32, level);
        let hash_index = self.hash_index;
        let map_index = map_index(hash, hash_index);
        proof {
            lemma_map_index_bound(hash, hash_index);
        }
        TrieKey { value: other, level, hash, hash_index, map_index }
    }

    /// The key at the next position.
    pub fn next(self) -> (r: Self)
        requires
            self.wf(),
            !self.is_last(),
        ensures
            r == self.step(),
            r.wf(),
            r.map_index < 32,
    {
        let mut k = self;
        k.hash_index = k.hash_index + 1;
        if k.hash_index < 5 {
            k.map_index = map_index(k.hash, k.hash_index);
        } else {
            k.level = k.level + 1;
            k.hash = hash_key(k.value as u32, k.level);
            k.hash_index = 0;
            k.map_index = map_index(k.hash, k.hash_index);
        }
        proof {
            self.lemma_step();
        }
        k
    }

    /// Whether the key is at its last position.
    pub fn at_last(&self) -> (r: bool)
        ensures
            r == self.is_last(),
    {
        self.level == u32::MAX && self.hash_index >= 4
    }

    /// The key value.
    pub fn i32(&self) -> (r: i32)
        ensures
            r == self.value,
    {
        self.value
    }

    /// The key's current map index.
    pub fn map_index(&self) -> (r: u8)
        ensures
            r == self.map_index,
    {
        self.map_index
    }

    /// The map bit of `map_index`.
    pub fn map_bit_from_map_index(map_index: u8) -> (r: u32)
        requires
            map_index < 32,
        ensures
            r == bit_of(map_index as int),
    {
        0x80000000u32 >> (map_index as u32)
    }

    /// The map bit of the key's current map index.
    pub fn to_map_bit(&self) -> (r: u32)
        requires
            self.map_index < 32,
        ensures
            r == bit_of(self.map_index as int),
    {
        Self::map_bit_from_map_index(self.map_index)
    }

    /// Number of indices set in `map` before the key's map index.
    pub fn to_base_index(&self, map: TrieMap) -> (r: usize)
        requires
            self.map_index < 32,
        ensures
            r == rank(map.0, self.map_index as int),
    {
        map.count_left(*self)
    }
}

/// The five bits of `hash` at position `hash_index`.
pub fn map_index(hash: u32, hash_index: u32) -> (r: u8)
    requires
        hash_index < 5,
    ensures
        r == spec_map_index(hash, hash_index),
{
    ((hash >> (5 * hash_index)) & 0x1f) as u8
}

/// Hash of `key` at `level`.
pub fn hash_key(key: u32, level: u32) -> (r: u32)
    ensures
        r == spec_hash_key(key, level),
{
    let bytes: Vec<u8> = vec![(key >> 24u32) as u8, (key >> 16u32) as u8, (key >> 8u32) as u8, key as u8];
    assert(bytes@ =~= key_bytes(key));
    universal(bytes.as_slice(), level)
}

} // verus!
