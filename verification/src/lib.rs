//! A verified key-value engine that keeps its rows in a versioned columnar
//! dataset, together with the table and field catalog that sits above it.

pub mod catalog;
pub mod cf;
pub mod kvs;
pub mod live;
pub mod text;
