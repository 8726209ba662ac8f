use vstd::prelude::*;

use crate::hamt::trie::node::key::TrieKey;
use crate::hamt::trie::node::model::first_keys;

verus! {

/// The trie keys of a path of key values, one per level, each at its first
/// position.
pub struct DeepKey {
    trie_keys: Vec<TrieKey>,
}

impl DeepKey {
    /// The trie keys, level by level.
    pub closed spec fn keys(self) -> Seq<TrieKey> {
        self.trie_keys@
    }

    /// The trie keys of the key values `key`.
    pub fn new(key: &[i32]) -> (r: Self)
        ensures
            r.keys() == first_keys(key@),
    {
        let mut trie_keys: Vec<TrieKey> = Vec::new();
        let mut i: usize = 0;
        while i < key.len()
            invariant
                i <= key@.len(),
                trie_keys@ == first_keys(key@.take(i as int)),
            decreases key@.len() - i,
        {
            trie_keys.push(TrieKey::new(key[i]));
            i = i + 1;
            assert(trie_keys@ =~= first_keys(key@.take(i as int)));
        }
        assert(key@.take(i as int) =~= key@);
        DeepKey { trie_keys }
    }

    /// The trie keys, level by level.
    pub fn trie_keys(&self) -> (r: &Vec<TrieKey>)
        ensures
            r@ == self.keys(),
    {
        &self.trie_keys
    }

    /// Number of levels.
    pub fn len(&self) -> (r: usize)
        ensures
            r == self.keys().len(),
    {
        self.trie_keys.len()
    }

    /// The trie key of level `index`.
    pub fn index(&self, index: usize) -> (r: TrieKey)
        requires
            index < self.keys().len(),
        ensures
            r == self.keys()[index as int],
    {
        self.trie_keys[index]
    }
}

} // verus!
