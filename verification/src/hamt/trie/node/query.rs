use vstd::prelude::*;

use crate::client::QueryError;
use crate::hamt::space::Reader;
use crate::hamt::trie::node::map_base::TrieMapBase;
use crate::hamt::trie::node::model::{entries, SegV, ValueV};
use crate::hamt::trie::node::value::{kvs_view, TrieValue};

verus! {

/// Listing every entry held below a trie node.
pub trait QueryKeysValues {
    /// The entries, in order, as seen in the space `sp`.
    spec fn key_values(&self, sp: Seq<SegV>) -> Result<Seq<(i32, ValueV)>, QueryError>;

    /// Lists the entries, reading through `reader`.
    fn query_keys_values(&self, reader: &Reader) -> (r: Result<Vec<(i32, TrieValue)>, QueryError>)
        ensures
            kvs_view(r) == self.key_values(reader.dview()),
    ;
}

impl QueryKeysValues for TrieMapBase {
    open spec fn key_values(&self, sp: Seq<SegV>) -> Result<Seq<(i32, ValueV)>, QueryError> {
        entries(sp, self.dview())
    }

    fn query_keys_values(&self, reader: &Reader) -> (r: Result<Vec<(i32, TrieValue)>, QueryError>) {
        self.query_key_values(reader)
    }
}

} // verus!
