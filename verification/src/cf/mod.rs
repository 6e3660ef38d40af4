//! The change feed.

pub mod stream;
