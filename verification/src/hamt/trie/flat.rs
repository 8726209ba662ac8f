//! A single-level trie in memory: one slot per set map index, holding a key
//! with its value.
use vstd::prelude::*;

use crate::hamt::trie::key::{be_bytes, key_hash_fits, TrieKey};
use crate::hamt::trie::node::map::{
    bit, bit_of, lemma_bit_with, lemma_rank_bounded, lemma_rank_lt, lemma_rank_lt_popcount, lemma_rank_mono,
    lemma_rank_with, lemma_rank_zero, popcount, rank,
};

verus! {

/// A slot: empty, or a key value with its value.
#[derive(Debug, Clone, Copy, PartialEq, Eq, Default, Structural)]
pub enum MemSlot {
    #[default]
    Empty,
    KeyValue(u32, u32),
}

/// The slots hold one key-value slot per set map index.
pub open spec fn flat_wf(map: u32, base: Seq<MemSlot>) -> bool {
    base.len() == popcount(map) && forall|i: int| 0 <= i < base.len() ==> (#[trigger] base[i]) is KeyValue
}

/// The slot that the map index `p` selects: the slot at its rank where the
/// index is set, the empty slot elsewhere.
pub open spec fn flat_find(map: u32, base: Seq<MemSlot>, p: int) -> MemSlot {
    if bit(map, p) {
        base[rank(map, p) as int]
    } else {
        MemSlot::Empty
    }
}

/// A map and its slots.
pub struct MemMapBase {
    pub map: u32,
    pub base: Vec<MemSlot>,
}

impl MemMapBase {
    /// The map base without slots.
    pub fn empty() -> (r: Self)
        ensures
            r.map == 0,
            r.base@ == Seq::<MemSlot>::empty(),
            flat_wf(r.map, r.base@),
    {
        proof {
            lemma_rank_zero(32);
        }
        MemMapBase { map: 0, base: Vec::new() }
    }

    /// This map base with a slot for `key` and `value` at the key's index,
    /// which must be clear.
    pub fn insert_key_value(self, key: TrieKey, value: u32) -> (r: Self)
        requires
            key.index() < 32,
            !bit(self.map, key.index() as int),
            flat_wf(self.map, self.base@),
        ensures
            r.map == self.map | bit_of(key.index() as int),
            r.base@ == self.base@.insert(rank(self.map, key.index() as int) as int, MemSlot::KeyValue(key.value(), value)),
            flat_wf(r.map, r.base@),
            flat_find(r.map, r.base@, key.index() as int) == MemSlot::KeyValue(key.value(), value),
            forall|p: int| 0 <= p < 32 && p != key.index() ==> #[trigger] flat_find(r.map, r.base@, p) == flat_find(self.map, self.base@, p),
    {
        let map_bit = key.to_map_bit();
        let base_index = key.to_base_index(self.map);
        let ghost p = key.index() as int;
        let ghost s = self.base@;
        proof {
            lemma_rank_bounded(self.map, p);
            lemma_rank_mono(self.map, p, 32);
            lemma_rank_with(self.map, p, 32);
        }
        let mut base = self.base;
        base.insert(base_index, MemSlot::KeyValue(key.u32(), value));
        let map = self.map | map_bit;
        proof {
            let s2 = base@;
            assert forall|i: int| 0 <= i < s2.len() implies (#[trigger] s2[i]) is KeyValue by {
                if i < base_index {
                    assert(s2[i] == s[i]);
                } else if i > base_index {
                    assert(s2[i] == s[i - 1]);
                }
            }
            lemma_bit_with(self.map, p, p);
            lemma_rank_with(self.map, p, p);
            assert forall|x: int| 0 <= x < 32 && x != p implies #[trigger] flat_find(map, s2, x) == flat_find(
                self.map,
                s,
                x,
            ) by {
                lemma_bit_with(self.map, p, x);
                lemma_rank_with(self.map, p, x);
                if bit(self.map, x) {
                    lemma_rank_lt_popcount(self.map, x);
                    if x > p {
                        lemma_rank_mono(self.map, p, x);
                        assert(s2[rank(self.map, x) as int + 1] == s[rank(self.map, x) as int]);
                    } else {
                        lemma_rank_lt(self.map, x, p);
                        assert(s2[rank(self.map, x) as int] == s[rank(self.map, x) as int]);
                    }
                }
            }
        }
        MemMapBase { map, base }
    }
}

/// A single-level trie in memory.
pub struct MemTrie {
    pub map_base: MemMapBase,
}

impl MemTrie {
    /// The trie without keys.
    pub fn empty() -> (r: Self)
        ensures
            r.map_base.map == 0,
            r.map_base.base@ == Seq::<MemSlot>::empty(),
            flat_wf(r.map_base.map, r.map_base.base@),
    {
        let map_base = MemMapBase::empty();
        MemTrie { map_base }
    }

    /// This trie with `key` mapped to `value`; the key's hash must stay within
    /// 64 bits and its map index must be clear.
    pub fn insert(self, key: u32, value: u32) -> (r: Self)
        requires
            key_hash_fits(be_bytes(key), 1),
            flat_wf(self.map_base.map, self.map_base.base@),
            !bit(self.map_base.map, TrieKey::index_of(key) as int),
        ensures
            flat_wf(r.map_base.map, r.map_base.base@),
            flat_find(r.map_base.map, r.map_base.base@, TrieKey::index_of(key) as int) == MemSlot::KeyValue(key, value),
            forall|p: int|
                0 <= p < 32 && p != TrieKey::index_of(key) ==> #[trigger] flat_find(r.map_base.map, r.map_base.base@, p)
                    == flat_find(self.map_base.map, self.map_base.base@, p),
    {
        let key = TrieKey::new(key);
        let map_base = self.map_base.insert_key_value(key, value);
        MemTrie { map_base }
    }
}

} // verus!
