//! What callers of a key-value store choose.

use vstd::prelude::*;

verus! {

/// How much a scan returns.
#[derive(Clone, Copy, Debug, PartialEq, Eq, Structural)]
pub enum ScanLimit {
    /// At most this many rows.
    Count(u32),
    /// Rows up to and with the one that brings their keys and values to this
    /// many bytes.
    Bytes(u32),
    /// Rows up to and with the one that reaches the bytes or the count.
    BytesOrCount(u32, u32),
}

/// The order of a scan.
#[derive(Clone, Copy, Debug, PartialEq, Eq, Structural)]
pub enum Direction {
    /// By ascending key.
    Forward,
    /// By descending key.
    Backward,
}

} // verus!
