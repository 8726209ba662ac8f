//! Tries held wholly in memory.
use vstd::prelude::*;

use crate::client::{QueryError, TransactError};
use crate::hamt::space::Reader;
use crate::hamt::trie::node::key::TrieKey;
use crate::hamt::trie::node::map_base::TrieMapBase;
use crate::hamt::trie::node::model::{
    ins, inserted, insert_err, lemma_inserted_lookup, lemma_one_node, lookup, node_wf, one_node, value_wf, NodeV, SegV,
    ValueV,
};
use crate::hamt::trie::node::value::{opt_view, TrieValue};

pub mod base;
pub mod slot;
pub mod value;

verus! {

/// The space that a memory trie reads: no segment at all.
pub open spec fn no_space() -> Seq<SegV> {
    Seq::empty()
}

/// A reader of the empty space.
pub(crate) fn empty_reader() -> (r: Reader)
    ensures
        r.dview() == no_space(),
{
    let segments = Vec::new();
    assert(segments@.map_values(|s: std::rc::Rc<crate::hamt::space::mem::MemSegment>| (*s).dview()) =~= no_space());
    Reader::new(segments)
}

/// A trie held in memory: no root at all, or a root node.
#[derive(Debug)]
pub struct MemTrie {
    pub root_map_base: Option<TrieMapBase>,
}

impl MemTrie {
    /// The view of the root.
    pub open spec fn root(self) -> Option<NodeV> {
        match self.root_map_base {
            Some(m) => Some(m.dview()),
            None => None,
        }
    }

    /// The trie without a root.
    pub fn empty() -> (r: Self)
        ensures
            r.root() is None,
    {
        MemTrie { root_map_base: None }
    }

    /// The trie holding only `key` with `value`.
    pub fn one_kv(key: TrieKey, value: TrieValue) -> (r: Result<Self, TransactError>)
        requires
            key.wf(),
            value_wf(value.dview()),
        ensures
            r matches Ok(t) && t.root() == Some(one_node(key, value.dview())),
    {
        Self::empty().insert(key, value)
    }

    /// The trie with `key` mapped to `value`: a root holding only the key
    /// where there is no root yet, the root with the key inserted otherwise.
    pub fn insert(self, key: TrieKey, value: TrieValue) -> (r: Result<Self, TransactError>)
        requires
            key.wf(),
            value_wf(value.dview()),
            self.root() matches Some(n) ==> node_wf(n),
        ensures
            match self.root() {
                None => r matches Ok(t) && t.root() == Some(one_node(key, value.dview())),
                Some(n) => match insert_err(no_space(), n, key) {
                    None => r matches Ok(t) && t.root() matches Some(n2) && node_wf(n2) && inserted(
                        no_space(),
                        n,
                        key,
                        value.dview(),
                        n2,
                    ) && n2 == ins(no_space(), n, key, value.dview()),
                    Some(e) => r == Err::<Self, TransactError>(e),
                },
            },
    {
        let root_map_base = match self.root_map_base {
            Some(map_base) => {
                let reader = empty_reader();
                match map_base.insert_kv(key, value, &reader) {
                    Ok(m) => m,
                    Err(e) => return Err(e),
                }
            },
            None => match TrieMapBase::one_kv(key, value) {
                Ok(m) => m,
                Err(e) => return Err(e),
            },
        };
        Ok(MemTrie { root_map_base: Some(root_map_base) })
    }

    /// The value under `key`, if any.
    pub fn query_value(&self, key: TrieKey) -> (r: Result<Option<TrieValue>, QueryError>)
        requires
            key.wf(),
        ensures
            match self.root() {
                None => r == Ok::<Option<TrieValue>, QueryError>(None),
                Some(n) => opt_view(r) == lookup(no_space(), n, key),
            },
    {
        match &self.root_map_base {
            Some(map_base) => {
                let reader = empty_reader();
                map_base.query_value(key, &reader)
            },
            None => Ok(None),
        }
    }
}

/// After `key` is inserted with `v` into a memory trie, a query of `key` finds
/// `v`.
pub proof fn lemma_mem_query_after_insert(root: Option<NodeV>, key: TrieKey, v: ValueV, n2: NodeV)
    requires
        key.wf(),
        match root {
            None => n2 == one_node(key, v),
            Some(n) => inserted(no_space(), n, key, v, n2),
        },
    ensures
        lookup(no_space(), n2, key) == Ok::<Option<ValueV>, QueryError>(Some(v)),
{
    match root {
        None => {
            lemma_one_node(no_space(), key, v);
        },
        Some(n) => {
            lemma_inserted_lookup(no_space(), n, key, v, n2, key);
        },
    }
}

} // verus!
