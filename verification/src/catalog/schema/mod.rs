//! What stands on a table: fields and indexes.

pub mod field;
pub mod index;
