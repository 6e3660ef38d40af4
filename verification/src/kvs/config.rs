//! The configuration of the columnar backend.

use std::time::Duration;

use vstd::prelude::*;

verus! {

/// The way of a commit into the dataset.
#[derive(Clone, Copy, Debug, PartialEq, Eq, Structural)]
pub enum WritePath {
    /// Write-ahead log, then the memtable; a background flush follows.
    LsmWithWal,
    /// As [`WritePath::LsmWithWal`].
    LsmColumnar,
    /// Straight into the dataset, one version for each batch of concurrent
    /// commits.
    LegacyCommitGate,
}

impl WritePath {
    /// Commits go through the log and the memtable.
    pub open spec fn is_lsm(self) -> bool {
        self is LsmWithWal || self is LsmColumnar
    }

    /// Whether commits go through the log and the memtable.
    pub fn uses_memtable(self) -> (lsm: bool)
        ensures
            lsm == self.is_lsm(),
    {
        match self {
            WritePath::LsmWithWal => true,
            WritePath::LsmColumnar => true,
            WritePath::LegacyCommitGate => false,
        }
    }
}

/// Every way but the one straight into the dataset goes through the log and
/// the memtable.
pub proof fn only_the_gate_goes_straight_in(path: WritePath)
    ensures
        path.is_lsm() <==> path != WritePath::LegacyCommitGate,
{
}

/// The settings of a datastore.
#[derive(Clone, Copy, Debug)]
pub struct LanceConfig {
    /// Whether reads of the past are allowed.
    pub versioned: bool,
    pub write_path: WritePath,
    /// Leave the memtable to the write-ahead log.
    pub disable_background_flusher: bool,
    /// The period of the background flush; the flusher's own where none is
    /// given.
    pub flusher_tick_interval: Option<Duration>,
}

impl Default for LanceConfig {
    fn default() -> (config: Self)
        ensures
            config.versioned,
            config.write_path == WritePath::LegacyCommitGate,
            !config.disable_background_flusher,
            config.flusher_tick_interval is None,
    {
        LanceConfig {
            versioned: true,
            write_path: WritePath::LegacyCommitGate,
            disable_background_flusher: false,
            flusher_tick_interval: None,
        }
    }
}

} // verus!
