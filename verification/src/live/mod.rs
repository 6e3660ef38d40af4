//! Live queries.

pub mod delta;
