use lib::client::QueryError;
use lib::hamt::titan::Titan;
use lib::hamt::trie::mem::value::MemValue;
use lib::hamt::trie::node::key::TrieKey;

#[test]
fn titan_works() {
    let mut trie = Titan::new();
    trie.insert([TrieKey::new(4), TrieKey::new(2)], MemValue::U32(42)).unwrap();
    {
        let value = trie.query_value([TrieKey::new(4)]).unwrap();
        let Some(MemValue::MapBase(map_base)) = value else {
            panic!("expected map_base");
        };
        assert_eq!(1, map_base.map().slot_count());
        assert_eq!(1, map_base.base().len());
    }
    {
        let value = trie.query_value([TrieKey::new(4), TrieKey::new(2)]).unwrap();
        assert_eq!(Some(MemValue::U32(42)), value);
    }
    {
        let value = trie.query_value([TrieKey::new(4), TrieKey::new(1)]).unwrap();
        assert_eq!(None, value);
    }
    {
        let value = trie.query_value([TrieKey::new(5), TrieKey::new(2)]).unwrap();
        assert_eq!(None, value);
    }
    {
        let result = trie.query_value([TrieKey::new(4), TrieKey::new(2), TrieKey::new(-1)]);
        let Err(QueryError::NoSubtrieAtKeyIndex(1)) = result else {
            panic!("expected NoSubtrieAtKeyIndex(1)")
        };
    }
}
