pub mod client;
pub mod hamt;
pub mod hash;
pub mod iroh_db;
pub mod reader;
