pub mod space;
pub mod trie;
pub mod titan;
pub mod base;
pub mod segment;
pub mod value;
