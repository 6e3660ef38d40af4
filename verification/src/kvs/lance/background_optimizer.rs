//! The background maintenance of the dataset.
//!
//! Small fragments are compacted and old versions are dropped from time to
//! time, and whenever enough commits have come since the last run.

use vstd::prelude::*;

verus! {

/// The optimizer's counters.
#[derive(Debug)]
pub struct BackgroundOptimizer {
    write_count: u64,
    write_threshold: u64,
    interval_ns: u64,
    shutdown: bool,
}

/// What a wake-up of the optimizer leads to.
#[derive(Clone, Copy, Debug, PartialEq, Eq, Structural)]
pub enum OptimizeStep {
    Exit,
    /// Compact the fragments, then drop the versions that are older than the
    /// given time, in microseconds since the Unix epoch, where one is given.
    Cycle { prune_before_us: Option<i64> },
}

/// What a [`BackgroundOptimizer`] counts.
pub struct OptimizerView {
    pub write_count: u64,
    pub write_threshold: u64,
    pub interval_ns: u64,
    pub shutdown: bool,
}

impl View for BackgroundOptimizer {
    type V = OptimizerView;

    closed spec fn view(&self) -> OptimizerView {
        OptimizerView {
            write_count: self.write_count,
            write_threshold: self.write_threshold,
            interval_ns: self.interval_ns,
            shutdown: self.shutdown,
        }
    }
}

impl BackgroundOptimizer {
    /// The count stays below the threshold.
    #[verifier::type_invariant]
    spec fn below_threshold(&self) -> bool {
        self.write_count == 0 || self.write_count < self.write_threshold
    }

    /// An optimizer that runs every `interval_ns` nanoseconds, and after every
    /// `write_threshold` commits.
    pub fn start(interval_ns: u64, write_threshold: u64) -> (optimizer: Self)
        ensures
            optimizer@ == (OptimizerView {
                write_count: 0,
                write_threshold,
                interval_ns,
                shutdown: false,
            }),
    {
        BackgroundOptimizer { write_count: 0, write_threshold, interval_ns, shutdown: false }
    }

    /// The time between two runs.
    pub fn interval_ns(&self) -> (ns: u64)
        ensures
            ns == self@.interval_ns,
    {
        self.interval_ns
    }

    /// Counts a commit. At the threshold the count starts over, and the
    /// optimizer is to be woken.
    pub fn notify_commit(&mut self) -> (wake: bool)
        ensures
            wake == (old(self)@.write_count + 1 >= old(self)@.write_threshold),
            final(self)@ == (OptimizerView {
                write_count: if wake {
                    0
                } else {
                    (old(self)@.write_count + 1) as u64
                },
                ..old(self)@
            }),
    {
        proof {
            use_type_invariant(&*self);
        }
        if self.write_threshold == 0 || self.write_count >= self.write_threshold - 1 {
            self.write_count = 0;
            true
        } else {
            self.write_count = self.write_count + 1;
            false
        }
    }

    /// Asks the optimizer to leave; it is to be woken for that.
    pub fn shutdown(&mut self)
        ensures
            final(self)@ == (OptimizerView { shutdown: true, ..old(self)@ }),
    {
        proof {
            use_type_invariant(&*self);
        }
        self.shutdown = true;
    }

    /// What a wake-up leads to at the time `now_us`, in microseconds since the
    /// Unix epoch. A retention of 0 keeps every version, and so does one that
    /// reaches back behind all times: nothing is that old.
    pub fn on_wake(&self, now_us: i64, retention_secs: u64) -> (step: OptimizeStep)
        ensures
            step == step_after(self@, now_us, retention_secs),
    {
        if self.shutdown {
            return OptimizeStep::Exit;
        }
        if retention_secs == 0 {
            return OptimizeStep::Cycle { prune_before_us: None };
        }
        let cutoff: i128 = now_us as i128 - retention_secs as i128 * 1_000_000;
        if cutoff < i64::MIN as i128 {
            return OptimizeStep::Cycle { prune_before_us: None };
        }
        OptimizeStep::Cycle { prune_before_us: Some(cutoff as i64) }
    }
}

/// What a wake-up leads to. Neither an earlier compaction nor an earlier
/// cleanup has a say in it, whether it went well or not.
pub open spec fn step_after(
    optimizer: OptimizerView,
    now_us: i64,
    retention_secs: u64,
) -> OptimizeStep {
    let cutoff = now_us - retention_secs * 1_000_000;
    if optimizer.shutdown {
        OptimizeStep::Exit
    } else if retention_secs > 0 && cutoff >= i64::MIN {
        OptimizeStep::Cycle { prune_before_us: Some(cutoff as i64) }
    } else {
        OptimizeStep::Cycle { prune_before_us: None }
    }
}

/// A version of the time `at_us` is dropped in this step.
pub open spec fn prunes(step: OptimizeStep, at_us: i64) -> bool {
    step matches OptimizeStep::Cycle { prune_before_us: Some(before) } && at_us < before
}

/// A version is dropped exactly if a retention is set and the version is older
/// than that; without a retention none ever is. Once the optimizer was asked to
/// leave, the next wake-up neither compacts nor drops, and before that every
/// wake-up compacts.
pub proof fn only_old_versions_are_dropped(
    optimizer: OptimizerView,
    now_us: i64,
    retention_secs: u64,
    at_us: i64,
)
    ensures
        prunes(step_after(optimizer, now_us, retention_secs), at_us) <==> !optimizer.shutdown
            && retention_secs > 0 && now_us - at_us > retention_secs * 1_000_000,
        step_after(optimizer, now_us, retention_secs) is Exit <==> optimizer.shutdown,
{
}

/// A cycle drops what was made before the retention began, by the clock of the
/// wake-up; without a retention, or where it began before all times, it drops
/// nothing.
pub proof fn a_cycle_looks_back_by_the_retention(
    optimizer: OptimizerView,
    now_us: i64,
    retention_secs: u64,
)
    requires
        !optimizer.shutdown,
    ensures
        step_after(optimizer, now_us, retention_secs) matches OptimizeStep::Cycle {
            prune_before_us,
        } && match prune_before_us {
            Some(before) => retention_secs > 0 && before + 1_000_000 * retention_secs == now_us,
            None => retention_secs == 0 || now_us - 1_000_000 * retention_secs < i64::MIN,
        },
{
}

} // verus!
