pub mod base;
