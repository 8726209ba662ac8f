//! Keys of the single-level trie: a key value with its hash and map index.
use vstd::prelude::*;

use crate::hamt::trie::node::map::{bit_of, rank, rank_exec};

verus! {

/// Factor that the key hash applies after each byte.
pub const KEY_HASH_B: u64 = 27183;

/// Initial factor of the key hash.
pub const KEY_HASH_A0: u64 = 31415;

/// Big-endian bytes of `key`.
pub open spec fn be_bytes(key: u32) -> Seq<u8> {
    seq![(key >> 24u32) as u8, (key >> 16u32) as u8, (key >> 8u32) as u8, key as u8]
}

/// The state `(a, hash)` of the key hash after `n` bytes: `hash' = a * hash *
/// level + byte` computed exactly, and `a' = a * B` modulo 2^64.
pub open spec fn key_hash_state(bytes: Seq<u8>, level: u64, n: nat) -> (u64, int)
    decreases n,
{
    if n == 0 {
        (KEY_HASH_A0, 0)
    } else {
        let (a, h) = key_hash_state(bytes, level, (n - 1) as nat);
        (vstd::wrapping::u64_specs::wrapping_mul(a, KEY_HASH_B), a * h * level + bytes[n - 1])
    }
}

/// Every step of the key hash of `bytes` stays within 64 bits.
pub open spec fn key_hash_fits(bytes: Seq<u8>, level: u64) -> bool {
    forall|n: nat|
        n < bytes.len() ==> {
            let (a, h) = #[trigger] key_hash_state(bytes, level, n);
            &&& a * h <= u64::MAX
            &&& a * h * level <= u64::MAX
            &&& a * h * level + bytes[n as int] <= u64::MAX
        }
}

/// The key hash of `key` at `level`: the low 32 bits of the final state.
pub open spec fn spec_key_hash(key: u32, level: u8) -> u32 {
    key_hash_state(be_bytes(key), level as u64, 4).1 as u64 as u32
}

/// Hashes `key` at `level`; every step must stay within 64 bits.
fn hash_key(key: u32, level: u8) -> (r: u32)
    requires
        key_hash_fits(be_bytes(key), level as u64),
    ensures
        r == spec_key_hash(key, level),
{
    let key_bytes: Vec<u8> = vec![(key >> 24u32) as u8, (key >> 16u32) as u8, (key >> 8u32) as u8, key as u8];
    assert(key_bytes@ =~= be_bytes(key));
    let level = level as u64;
    let mut a: u64 = KEY_HASH_A0;
    let mut hash: u64 = 0;
    let mut i: usize = 0;
    while i < key_bytes.len()
        invariant
            i <= key_bytes@.len(),
            key_bytes@ == be_bytes(key),
            key_hash_fits(key_bytes@, level),
            (a, hash as int) == key_hash_state(key_bytes@, level, i as nat),
        decreases key_bytes@.len() - i,
    {
        hash = a * hash * level + key_bytes[i] as u64;
        a = a.wrapping_mul(KEY_HASH_B);
        i = i + 1;
    }
    hash as u32
}

/// A key of the single-level trie.
#[derive(Debug, Clone, Copy, PartialEq, Eq, Structural)]
pub struct TrieKey {
    value: u32,
    hash: u32,
    map_index: u8,
}

impl TrieKey {
    /// The key value.
    pub closed spec fn value(self) -> u32 {
        self.value
    }

    /// The map index: the low five bits of the key's hash.
    pub closed spec fn index(self) -> u8 {
        self.map_index
    }

    /// The map index of the key value `value`.
    pub open spec fn index_of(value: u32) -> u8 {
        (spec_key_hash(value, 1) & 0x1fu32) as u8
    }

    /// The key of `value`; its hash must stay within 64 bits at every step.
    pub fn new(value: u32) -> (r: Self)
        requires
            key_hash_fits(be_bytes(value), 1),
        ensures
            r.value() == value,
            r.index() == Self::index_of(value),
            r.index() < 32,
    {
        let hash = hash_key(value, 1);
        let map_index = (hash & 0x1f) as u8;
        assert(hash & 0x1f < 32) by (bit_vector);
        TrieKey { value, hash, map_index }
    }

    /// The key value.
    pub fn u32(&self) -> (r: u32)
        ensures
            r == self.value(),
    {
        self.value
    }

    /// The map index.
    pub fn map_index(&self) -> (r: u8)
        ensures
            r == self.index(),
    {
        self.map_index
    }

    /// The map bit of the key's index.
    pub fn to_map_bit(&self) -> (r: u32)
        requires
            self.index() < 32,
        ensures
            r == bit_of(self.index() as int),
    {
        0x80000000u32 >> (self.map_index as u32)
    }

    /// Number of indices set in `map` before the key's index.
    pub fn to_base_index(&self, map: u32) -> (r: usize)
        requires
            self.index() < 32,
        ensures
            r == rank(map, self.index() as int),
    {
        rank_exec(map, self.map_index)
    }
}

} // verus!
