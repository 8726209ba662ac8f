//! A trie in memory addressed by paths of trie keys, one per level of nested
//! tries.
use vstd::prelude::*;

use crate::client::{QueryError, TransactError};
use crate::hamt::trie::deep::{deep_insert, deep_query};
use crate::hamt::trie::mem::no_space;
use crate::hamt::trie::mem::value::MemValue;
use crate::hamt::trie::node::key::TrieKey;
use crate::hamt::trie::node::map_base::TrieMapBase;
use crate::hamt::trie::node::model::{
    deep_chain, deep_insert_err, deep_lookup, deep_path, keys_wf, node_wf, value_wf, BaseV, NodeV,
};
use crate::hamt::trie::node::persist::{base_savable, value_savable};

verus! {

/// The keys of `key` as a vector.
fn key_vec<const N: usize>(key: &[TrieKey; N]) -> (r: Vec<TrieKey>)
    ensures
        r@ == key@,
{
    let mut out: Vec<TrieKey> = Vec::new();
    let mut i: usize = 0;
    while i < N
        invariant
            i <= N,
            key@.len() == N,
            out@ == key@.take(i as int),
        decreases N - i,
    {
        out.push(key[i]);
        i = i + 1;
        assert(out@ =~= key@.take(i as int));
    }
    assert(key@.take(N as int) =~= key@);
    out
}

/// A trie in memory whose values may be nested tries, addressed level by level.
pub struct Titan {
    map_base: TrieMapBase,
}

impl Titan {
    /// The root node.
    pub closed spec fn node(self) -> NodeV {
        self.map_base.dview()
    }

    /// The root is well formed and refers to no table node.
    #[verifier::type_invariant]
    closed spec fn inv(self) -> bool {
        node_wf(self.map_base.dview()) && base_savable(no_space(), self.map_base.dview().base)
    }

    /// The empty trie.
    pub fn new() -> (r: Self)
        ensures
            r.node() == (NodeV { map: 0, base: BaseV::Slots(Seq::empty()) }),
    {
        Titan { map_base: TrieMapBase::empty() }
    }

    /// Maps the path `key` to `value`: the nested tries along the path are
    /// updated from the deepest level up, an empty one standing in where none
    /// exists yet. On failure the trie is left as it was.
    pub fn insert<const N: usize>(&mut self, key: [TrieKey; N], value: MemValue) -> (r: Result<(), TransactError>)
        requires
            N >= 1,
            keys_wf(key@),
            value_wf(value.dview()),
            value_savable(no_space(), value.dview()),
        ensures
            match deep_path(no_space(), old(self).node(), key@, 0) {
                Err(e) => r == Err::<(), TransactError>(e) && final(self).node() == old(self).node(),
                Ok(path) => match deep_insert_err(no_space(), path, key@, 0) {
                    Some(e) => r == Err::<(), TransactError>(e) && final(self).node() == old(self).node(),
                    None => r is Ok && exists|news: Seq<NodeV>|
                        deep_chain(no_space(), path, key@, value.dview(), news) && news[0] == final(self).node(),
                },
            },
    {
        proof {
            use_type_invariant(&*self);
        }
        let keys = key_vec(&key);
        let reader = crate::hamt::trie::mem::empty_reader();
        match deep_insert(self.map_base.clone(), &keys, value, &reader) {
            Ok(m) => {
                self.map_base = m;
                Ok(())
            },
            Err(e) => Err(e),
        }
    }

    /// The value under the path `key`: every key but the last must lead to a
    /// nested trie.
    pub fn query_value<const N: usize>(&self, key: [TrieKey; N]) -> (r: Result<Option<MemValue>, QueryError>)
        requires
            N >= 1,
            keys_wf(key@),
        ensures
            match deep_lookup(no_space(), self.node(), key@, 0) {
                Ok(Some(v)) => r matches Ok(Some(m)) && m.dview() == v,
                Ok(None) => r == Ok::<Option<MemValue>, QueryError>(None),
                Err(e) => r == Err::<Option<MemValue>, QueryError>(e),
            },
    {
        let keys = key_vec(&key);
        let reader = crate::hamt::trie::mem::empty_reader();
        deep_query(&self.map_base, &keys, &reader)
    }
}

} // verus!
