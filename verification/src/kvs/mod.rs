//! Key-value storage.

pub mod api;
pub mod config;
pub mod err;
pub mod key_map;
pub mod lance;
pub mod mvcc_source;
pub mod order;
