//! The columnar backend.

pub mod background_optimizer;
pub mod cnf;
pub mod columns;
pub mod commit_gate;
pub mod datastore;
pub mod durability;
pub mod flusher;
pub mod history;
pub mod laws;
pub mod memtable;
pub mod reads;
pub mod rows;
pub mod scan;
pub mod schema;
pub mod timeline;
pub mod transaction;
pub mod tx_buffer;
pub mod wal;
pub mod writes;
