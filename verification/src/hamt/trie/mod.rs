pub mod deep;
pub mod deep_key;
pub mod flat;
pub mod key;
pub mod mem;
pub mod node;
pub mod segment;
pub mod space;
