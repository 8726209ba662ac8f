use lib::hamt::trie::key::TrieKey as FlatKey;
use lib::hamt::trie::node::key::{hash_key, map_index, TrieKey};
use lib::hamt::trie::node::map::TrieMap;
use lib::hash::universal;

#[test]
fn universal_of_no_bytes_is_zero() {
    assert_eq!(0, universal(&[], 5));
}

#[test]
fn universal_known_values() {
    assert_eq!(4136740980, universal(&[1, 2, 3, 4], 1));
    assert_eq!(3436211492, universal(b"abc", 3));
}

#[test]
fn universal_at_level_zero_keeps_only_the_last_byte() {
    assert_eq!(4, universal(&[1, 2, 3, 4], 0));
}

#[test]
fn hash_key_is_universal_of_big_endian_bytes() {
    assert_eq!(universal(&[0, 0, 0, 42], 1), hash_key(42, 1));
    assert_eq!(42, hash_key(42, 1));
    assert_eq!(2406024992, hash_key(0xffff_ffff, 1));
}

#[test]
fn map_index_takes_five_bits() {
    assert_eq!(10, map_index(42, 0));
    assert_eq!(1, map_index(42, 1));
    assert_eq!(0, map_index(42, 2));
    assert_eq!(31, map_index(0xffff_ffff, 4));
}

#[test]
fn node_key_walks_hash_positions() {
    let key = TrieKey::new(42);
    assert_eq!(42, key.i32());
    assert_eq!(10, key.map_index());
    let key = key.next();
    assert_eq!(1, key.map_index());
    assert_eq!(42, key.i32());
    assert!(!key.at_last());
    let minus_one = TrieKey::new(-1);
    assert_eq!(0, minus_one.map_index());
    assert_eq!(25, minus_one.next().map_index());
}

#[test]
fn node_key_rehashes_after_five_positions() {
    let mut key = TrieKey::new(-1);
    for _ in 0..5 {
        key = key.next();
    }
    assert_eq!(2, key.level);
    assert_eq!(0, key.hash_index);
    assert_eq!(universal(&[255, 255, 255, 255], 2), key.hash);
    assert_eq!((key.hash & 0x1f) as u8, key.map_index());
}

#[test]
fn node_key_sync_keeps_position() {
    let key = TrieKey::new(-1).next();
    let other = key.sync(42);
    assert_eq!(42, other.i32());
    assert_eq!(key.level, other.level);
    assert_eq!(key.hash_index, other.hash_index);
    assert_eq!(1, other.map_index());
}

#[test]
fn map_bits_count_from_the_top() {
    assert_eq!(0x8000_0000, TrieKey::map_bit_from_map_index(0));
    assert_eq!(1, TrieKey::map_bit_from_map_index(31));
    assert_eq!(0x8000_0000 >> 10, TrieKey::new(42).to_map_bit());
}

#[test]
fn trie_map_ranks_keys() {
    let k42 = TrieKey::new(42);
    let k4 = TrieKey::new(4);
    let k5 = TrieKey::new(5);
    let map = TrieMap::set_key_bit(k42).with_key(k4);
    assert_eq!(2, map.slot_count());
    assert!(map.is_present(k42));
    assert!(map.is_present(k4));
    assert!(!map.is_present(k5));
    assert_eq!(Some(0), map.to_base_index(k4));
    assert_eq!(Some(1), map.to_base_index(k42));
    assert_eq!(None, map.to_base_index(k5));
    assert_eq!(1, map.count_left(k5));
    assert_eq!(1, k5.to_base_index(map));
    assert_eq!(TrieMap::set_map_index_bit(4), TrieMap::set_key_bit(k4));
    assert_eq!(0, TrieMap::empty().slot_count());
    assert_eq!(0, TrieMap::empty().u32());
}

#[test]
fn flat_key_uses_low_five_bits_of_its_hash() {
    let key = FlatKey::new(42);
    assert_eq!(42, key.u32());
    assert_eq!(10, key.map_index());
    assert_eq!(0x8000_0000 >> 10, key.to_map_bit());
    assert_eq!(19, FlatKey::new(1000).map_index());
    let map = 0x8000_0000u32 | (0x8000_0000 >> 4) | (0x8000_0000 >> 20);
    assert_eq!(2, key.to_base_index(map));
}
