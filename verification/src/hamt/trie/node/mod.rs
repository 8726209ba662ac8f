pub mod base;
pub mod key;
pub mod map;
pub mod map_base;
pub mod model;
pub mod value;
pub mod query;
pub mod persist;
pub mod count;
