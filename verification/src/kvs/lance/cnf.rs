//! The settings of the backend, each with its default. An environment variable
//! of the given name overrides it.

use vstd::prelude::*;

verus! {

/// Whether the background optimizer runs:
/// `SURREAL_LANCE_BACKGROUND_OPTIMIZE_ENABLED`.
pub const LANCE_BACKGROUND_OPTIMIZE_ENABLED: bool = true;

/// So many commits wake the optimizer: `SURREAL_LANCE_OPTIMIZE_AFTER_N_WRITES`.
pub const LANCE_OPTIMIZE_AFTER_N_WRITES: u64 = 1000;

/// The longest time between two runs of the optimizer, in nanoseconds:
/// `SURREAL_LANCE_OPTIMIZE_INTERVAL`.
pub const LANCE_OPTIMIZE_INTERVAL_NS: u64 = 300_000_000_000;

/// How long a version of the dataset is kept, in seconds; 0 keeps all:
/// `SURREAL_LANCE_VERSION_RETENTION_SECS`.
pub const LANCE_VERSION_RETENTION_SECS: u64 = 604_800;

/// Whether a deletion is written as a row of its own:
/// `SURREAL_LANCE_DELETE_VIA_TOMBSTONE_ROW`.
pub const LANCE_DELETE_VIA_TOMBSTONE_ROW: bool = false;

/// Whether opening a dataset creates the index on its keys:
/// `SURREAL_LANCE_CREATE_KEY_INDEX_ON_OPEN`.
pub const LANCE_CREATE_KEY_INDEX_ON_OPEN: bool = true;

/// The largest number of rows of one commit batch:
/// `SURREAL_LANCE_COMMIT_MAX_BATCH_ROWS`.
pub const LANCE_COMMIT_MAX_BATCH_ROWS: usize = 10_000;

} // verus!
