use std::rc::Rc;

use lib::hamt::segment::{Segment, SegmentIndex};
use lib::hamt::trie::flat::{MemMapBase, MemSlot, MemTrie};
use lib::hamt::trie::key::TrieKey;
use lib::hamt::value::{Value, UINT};

#[test]
fn segment_index_offset_adds() {
    assert_eq!(SegmentIndex(12), SegmentIndex(5).offset(7));
}

#[test]
fn u32_written_big_endian_reads_back() {
    let mut segment = Segment::new();
    segment.write_u32(0x0102_0304);
    segment.write_u32(7);
    assert_eq!((1, SegmentIndex(1)), segment.read_u8(SegmentIndex(0)));
    assert_eq!((4, SegmentIndex(4)), segment.read_u8(SegmentIndex(3)));
    assert_eq!((0x0102_0304, SegmentIndex(4)), segment.read_u32(SegmentIndex(0)));
    assert_eq!((7, SegmentIndex(8)), segment.read_u32(SegmentIndex(4)));
    assert_eq!((0x0203, SegmentIndex(3)), segment.read_u16(SegmentIndex(1)));
}

#[test]
fn u16_written_big_endian_reads_back() {
    let mut segment = Segment::new();
    segment.write_u16(0xabcd);
    segment.write_u16(1);
    assert_eq!((0xab, SegmentIndex(1)), segment.read_u8(SegmentIndex(0)));
    assert_eq!((0xabcd, SegmentIndex(2)), segment.read_u16(SegmentIndex(0)));
    assert_eq!((1, SegmentIndex(4)), segment.read_u16(SegmentIndex(2)));
}

#[test]
fn value_bytes_are_tag_then_big_endian() {
    assert_eq!(vec![UINT, 0, 0, 0, 42], Value::Uint(42).to_be_bytes());
    assert_eq!(vec![UINT, 0x12, 0x34, 0x56, 0x78], Value::Uint(0x1234_5678).to_be_bytes());
}

#[test]
fn value_read_after_written_bytes() {
    // The tagged value starts at position 3.
    let mut bytes = Segment::new();
    bytes.write_u32(0xffff_0000 | UINT as u32);
    bytes.write_u32(0xdead_beef);
    let (value, next) = Value::from_be_bytes(SegmentIndex(3), &bytes);
    assert_eq!(Value::Uint(0xdead_beef), value);
    assert_eq!(SegmentIndex(8), next);
}

#[test]
fn base_slots_take_eight_bytes_each() {
    let mut segment = Segment::new();
    segment.write_u32(0);
    let start = segment.write_base(&[MemSlot::KeyValue(1, 10), MemSlot::KeyValue(2, 20)]);
    assert_eq!(4, start);
    assert_eq!((1, 10), segment.read_slot(0, SegmentIndex(4)));
    assert_eq!((2, 20), segment.read_slot(1, SegmentIndex(4)));
}

#[test]
fn map_base_is_written_after_its_base() {
    let map_base = MemMapBase::empty().insert_key_value(TrieKey::new(3), 30);
    let mut segment = Segment::new();
    let start = segment.write_map_base(&map_base);
    assert_eq!(8, start);
    let read = segment.read_map_base(SegmentIndex(start));
    assert_eq!(map_base.map, read.map);
    assert_eq!(SegmentIndex(0), read.base_start);
}

#[test]
fn flat_trie_inserts_keep_slots_in_index_order() {
    let trie = MemTrie::empty().insert(42, 420).insert(3, 30);
    let map = trie.map_base.map;
    assert_eq!((0x8000_0000u32 >> 10) | (0x8000_0000u32 >> 3), map);
    assert_eq!(vec![MemSlot::KeyValue(3, 30), MemSlot::KeyValue(42, 420)], trie.map_base.base);
}

#[test]
fn flat_trie_written_to_segment_answers_queries() {
    let trie = MemTrie::empty().insert(42, 420).insert(3, 30).insert(1000, 7);
    let mut segment = Segment::new();
    segment.write_u32(0xffff_ffff);
    let start = segment.write_trie(&trie);
    let segment = Rc::new(segment);
    let read = segment.read_trie(SegmentIndex(start));
    assert_eq!(trie.map_base.map, read.map_base.map);
    assert_eq!(Some(420), read.query_value(TrieKey::new(42), segment.clone()));
    assert_eq!(Some(30), read.query_value(TrieKey::new(3), segment.clone()));
    assert_eq!(Some(7), read.query_value(TrieKey::new(1000), segment.clone()));
    // Key 35 shares map index 3 with key 3 but is not stored.
    assert_eq!(None, read.query_value(TrieKey::new(35), segment.clone()));
    assert_eq!(MemSlot::KeyValue(3, 30), read.map_base.load_slot(TrieKey::new(3), segment.clone()));
    assert_eq!(MemSlot::Empty, read.map_base.load_slot(TrieKey::new(35), segment));
}
