//! The background flush of the write buffer into the dataset.
//!
//! A flush starts when the periodic timer fires, or when the buffer holds
//! enough rows or bytes, but never sooner after the previous one than a rate
//! floor allows. The last drain at shutdown is not held back.

use std::time::Duration;

use vstd::prelude::*;

use crate::kvs::key_map;
use crate::kvs::lance::commit_gate::MergeSource;
use crate::kvs::lance::memtable;
use crate::kvs::lance::memtable::{EntryView, Memtable, Op};
use crate::kvs::order;
use crate::kvs::order::{copy_bytes, Key, Val};

verus! {

/// How long to wait after a failed flush, in milliseconds.
pub const FLUSH_BACKOFF_MILLIS: u64 = 50;

/// What `Duration::as_nanos` returns.
pub uninterp spec fn duration_nanos(d: Duration) -> nat;

/// `Duration::as_nanos`.
#[verifier::external_body]
pub(crate) fn nanos(d: Duration) -> (n: u128)
    ensures
        n == duration_nanos(d),
{
    d.as_nanos()
}

/// `Duration::from_millis`: that many milliseconds.
#[verifier::external_body]
pub(crate) fn millis(ms: u64) -> (d: Duration)
    ensures
        duration_nanos(d) == ms * 1_000_000,
{
    Duration::from_millis(ms)
}

/// When a flush starts.
#[derive(Clone, Copy, Debug)]
pub struct FlusherConfig {
    /// The period of the timer.
    pub tick_interval: Duration,
    /// So many entries start a flush.
    pub max_pending_rows: usize,
    /// So many bytes of keys and values start a flush.
    pub max_pending_bytes: usize,
    /// No flush starts sooner than this after the previous one.
    pub min_flush_interval: Duration,
}

impl Default for FlusherConfig {
    fn default() -> (config: Self)
        ensures
            duration_nanos(config.tick_interval) == 100_000_000,
            config.max_pending_rows == 1000,
            config.max_pending_bytes == 8 * 1024 * 1024,
            duration_nanos(config.min_flush_interval) == 50_000_000,
    {
        FlusherConfig {
            tick_interval: millis(100),
            max_pending_rows: 1000,
            max_pending_bytes: 8 * 1024 * 1024,
            min_flush_interval: millis(50),
        }
    }
}

/// A flush is due.
pub open spec fn flush_due(
    config: FlusherConfig,
    periodic: bool,
    pending_rows: nat,
    pending_bytes: nat,
    since_last_flush: nat,
) -> bool {
    &&& since_last_flush >= duration_nanos(config.min_flush_interval)
    &&& periodic || pending_rows >= config.max_pending_rows || pending_bytes
        >= config.max_pending_bytes
}

/// Whether a flush is due: the timer fired, or a threshold is reached, and the
/// previous flush is long enough ago.
pub fn should_flush(
    config: &FlusherConfig,
    periodic: bool,
    pending_rows: usize,
    pending_bytes: usize,
    since_last_flush: Duration,
) -> (due: bool)
    ensures
        due == flush_due(
            *config,
            periodic,
            pending_rows as nat,
            pending_bytes as nat,
            duration_nanos(since_last_flush),
        ),
{
    if nanos(since_last_flush) < nanos(config.min_flush_interval) {
        return false;
    }
    periodic || pending_rows >= config.max_pending_rows || pending_bytes
        >= config.max_pending_bytes
}

/// Neither the timer nor a threshold starts a flush within the rate floor.
pub proof fn rate_floor_holds(
    config: FlusherConfig,
    periodic: bool,
    rows: nat,
    bytes: nat,
    since: nat,
)
    ensures
        flush_due(config, periodic, rows, bytes, since) ==> since >= duration_nanos(
            config.min_flush_interval,
        ),
{
}

/// Why the flusher woke up.
#[derive(Clone, Copy, Debug, PartialEq, Eq, Structural)]
pub enum Wake {
    Shutdown,
    /// The periodic timer fired.
    Tick,
    /// A commit asked for attention.
    Nudge,
}

/// What the flusher does next.
#[derive(Clone, Copy, Debug, PartialEq, Eq, Structural)]
pub enum FlushAction {
    /// Wait for the next wake-up.
    Wait,
    /// Flush everything of this generation or below.
    Flush(u64),
    /// Flush everything of this generation or below, and leave.
    FinalDrain(u64),
}

/// The bytes in the buffer as they are measured: at most the largest `usize`.
pub open spec fn measured_bytes(m: Map<Seq<u8>, EntryView>) -> nat {
    if memtable::table_bytes(m) <= usize::MAX {
        memtable::table_bytes(m)
    } else {
        usize::MAX as nat
    }
}

/// Decides what a wake-up leads to. A flush goes up to `bound`: what is newer
/// is not all in the buffer yet.
pub fn on_wake(
    config: &FlusherConfig,
    memtable: &Memtable,
    bound: u64,
    wake: Wake,
    since_last_flush: Duration,
) -> (action: FlushAction)
    ensures
        action == (match wake {
            Wake::Shutdown => FlushAction::FinalDrain(bound),
            _ => if memtable@ != memtable::no_rows() && flush_due(
                *config,
                wake is Tick,
                memtable@.len(),
                measured_bytes(memtable@),
                duration_nanos(since_last_flush),
            ) {
                FlushAction::Flush(bound)
            } else {
                FlushAction::Wait
            },
        }),
{
    let periodic: bool = match wake {
        Wake::Shutdown => {
            return FlushAction::FinalDrain(bound);
        },
        Wake::Tick => true,
        Wake::Nudge => false,
    };
    if memtable.is_empty() {
        return FlushAction::Wait;
    }
    if should_flush(
        config,
        periodic,
        memtable.len(),
        memtable.pending_bytes(),
        since_last_flush,
    ) {
        FlushAction::Flush(bound)
    } else {
        FlushAction::Wait
    }
}

/// Whether the flusher is to wake itself after a flush: the buffer is over a
/// threshold still.
pub fn nudge_after_flush(config: &FlusherConfig, memtable: &Memtable) -> (nudge: bool)
    ensures
        nudge == (memtable@.len() > config.max_pending_rows || measured_bytes(memtable@)
            > config.max_pending_bytes),
{
    memtable.len() > config.max_pending_rows || memtable.pending_bytes() > config.max_pending_bytes
}

/// The writes that a flush of these entries makes, with their numbers.
pub open spec fn flush_writes(m: Map<Seq<u8>, EntryView>) -> Map<Seq<u8>, (Seq<u8>, u64)> {
    Map::new(
        |k: Seq<u8>| m.contains_key(k) && m[k].value is Some,
        |k: Seq<u8>| (m[k].value->0, m[k].seq),
    )
}

/// The deletions that a flush of these entries makes, with their numbers.
pub open spec fn flush_deletes(m: Map<Seq<u8>, EntryView>) -> Map<Seq<u8>, u64> {
    Map::new(|k: Seq<u8>| m.contains_key(k) && m[k].value is None, |k: Seq<u8>| m[k].seq)
}

/// The generation of each entry.
pub open spec fn generations(m: Map<Seq<u8>, EntryView>) -> Map<Seq<u8>, u64> {
    Map::new(|k: Seq<u8>| m.contains_key(k), |k: Seq<u8>| m[k].generation)
}

/// Writes with the number of each.
pub open spec fn numbered_writes(writes: Seq<(Vec<u8>, Vec<u8>)>, seqs: Seq<u64>) -> Seq<
    (Seq<u8>, (Seq<u8>, u64)),
> {
    Seq::new(writes.len(), |i: int| (writes[i].0@, (writes[i].1@, seqs[i])))
}

/// Keys with a number each.
pub open spec fn numbered_keys(keys: Seq<Vec<u8>>, numbers: Seq<u64>) -> Seq<(Seq<u8>, u64)> {
    Seq::new(keys.len(), |i: int| (keys[i]@, numbers[i]))
}

/// The view of flushed keys with their generations.
pub open spec fn flushed_views(flushed: Seq<(Vec<u8>, u64)>) -> Seq<(Seq<u8>, u64)> {
    Seq::new(flushed.len(), |i: int| (flushed[i].0@, flushed[i].1))
}

/// One flush.
#[derive(Debug)]
pub struct FlushPlan {
    /// What goes into the dataset.
    pub source: MergeSource,
    /// The keys that go, with the generation of what goes of each.
    pub flushed: Vec<(Key, u64)>,
    /// The log keeps the records of this generation or above.
    pub keep_from: u64,
}

impl FlushPlan {
    /// The plan flushes exactly the entries of `m` of generation `up_to` or
    /// below, each once, with its own sequence number.
    pub open spec fn flushes(&self, m: Map<Seq<u8>, EntryView>, up_to: u64) -> bool {
        let rows = memtable::rows_up_to(m, up_to);
        &&& self.source.version == up_to
        &&& self.source.write_seqs@.len() == self.source.writes@.len()
        &&& self.source.delete_seqs@.len() == self.source.deletes@.len()
        &&& key_map::holds_each_once(
            numbered_writes(self.source.writes@, self.source.write_seqs@),
            flush_writes(rows),
        )
        &&& key_map::holds_each_once(
            numbered_keys(self.source.deletes@, self.source.delete_seqs@),
            flush_deletes(rows),
        )
        &&& key_map::holds_each_once(flushed_views(self.flushed@), generations(rows))
        &&& self.keep_from as int == (if up_to < u64::MAX {
            up_to + 1
        } else {
            u64::MAX as int
        })
    }
}

/// Plans the flush of the entries of generation `up_to` or below; none where
/// there are none. The entries stay in the table until
/// [`complete_flush`], so that readers see them all the while.
pub fn plan_flush(memtable: &Memtable, up_to: u64) -> (plan: Option<FlushPlan>)
    ensures
        match plan {
            Some(p) => {
                &&& memtable::rows_up_to(memtable@, up_to) != memtable::no_rows()
                &&& p.flushes(memtable@, up_to)
            },
            None => memtable::rows_up_to(memtable@, up_to) == memtable::no_rows(),
        },
{
    let ghost rows = memtable::rows_up_to(memtable@, up_to);
    let snapshot = memtable.snapshot_up_to(up_to);
    proof {
        key_map::lemma_each_once_len(memtable::entry_views(snapshot@), rows);
    }
    if snapshot.len() == 0 {
        proof {
            assert(rows =~= memtable::no_rows());
        }
        return None;
    }
    let mut rest = snapshot;
    let mut writes: Vec<(Key, Val)> = Vec::new();
    let mut write_seqs: Vec<u64> = Vec::new();
    let mut deletes: Vec<Key> = Vec::new();
    let mut delete_seqs: Vec<u64> = Vec::new();
    let mut flushed: Vec<(Key, u64)> = Vec::new();
    let ghost mut left: Map<Seq<u8>, EntryView> = rows;
    let ghost mut gone: Map<Seq<u8>, EntryView> = Map::empty();
    while rest.len() > 0
        invariant
            left.submap_of(rows),
            gone == rows.remove_keys(left.dom()),
            key_map::holds_each_once(memtable::entry_views(rest@), left),
            write_seqs@.len() == writes@.len(),
            delete_seqs@.len() == deletes@.len(),
            key_map::holds_each_once(numbered_writes(writes@, write_seqs@), flush_writes(gone)),
            key_map::holds_each_once(numbered_keys(deletes@, delete_seqs@), flush_deletes(gone)),
            key_map::holds_each_once(flushed_views(flushed@), generations(gone)),
        decreases rest.len(),
    {
        let ghost rest_before = memtable::entry_views(rest@);
        let ghost gone_before = gone;
        match rest.pop() {
            Some((k, e)) => {
                let ghost key = k@;
                let ghost entry = e@;
                proof {
                    assert(rest_before.last() == (key, entry));
                    key_map::lemma_each_once_pop(rest_before, left);
                    assert(memtable::entry_views(rest@) =~= rest_before.drop_last());
                    left = left.remove(key);
                    gone = gone_before.insert(key, entry);
                    assert(gone =~= rows.remove_keys(left.dom()));
                }
                let ghost flushed_before = flushed_views(flushed@);
                flushed.push((copy_bytes(&k), e.generation));
                proof {
                    key_map::lemma_each_once_push(
                        flushed_before,
                        generations(gone_before),
                        key,
                        entry.generation,
                    );
                    assert(flushed_views(flushed@) =~= flushed_before.push(
                        (key, entry.generation),
                    ));
                    assert(generations(gone) =~= generations(gone_before).insert(
                        key,
                        entry.generation,
                    ));
                }
                match e.op {
                    Op::Write(v) => {
                        let ghost before = numbered_writes(writes@, write_seqs@);
                        let ghost val = v@;
                        writes.push((k, v));
                        write_seqs.push(e.seq);
                        proof {
                            key_map::lemma_each_once_push(
                                before,
                                flush_writes(gone_before),
                                key,
                                (val, entry.seq),
                            );
                            assert(numbered_writes(writes@, write_seqs@) =~= before.push(
                                (key, (val, entry.seq)),
                            ));
                            assert(flush_writes(gone) =~= flush_writes(gone_before).insert(
                                key,
                                (val, entry.seq),
                            ));
                            assert(flush_deletes(gone) =~= flush_deletes(gone_before));
                        }
                    },
                    Op::Delete => {
                        let ghost before = numbered_keys(deletes@, delete_seqs@);
                        deletes.push(k);
                        delete_seqs.push(e.seq);
                        proof {
                            key_map::lemma_each_once_push(
                                before,
                                flush_deletes(gone_before),
                                key,
                                entry.seq,
                            );
                            assert(numbered_keys(deletes@, delete_seqs@) =~= before.push(
                                (key, entry.seq),
                            ));
                            assert(flush_deletes(gone) =~= flush_deletes(gone_before).insert(
                                key,
                                entry.seq,
                            ));
                            assert(flush_writes(gone) =~= flush_writes(gone_before));
                        }
                    },
                }
            },
            None => {},
        }
    }
    proof {
        key_map::lemma_each_once_len(memtable::entry_views(rest@), left);
        assert(left.dom() =~= Set::empty());
        assert(gone =~= rows);
    }
    Some(
        FlushPlan {
            source: MergeSource { writes, write_seqs, deletes, delete_seqs, version: up_to },
            flushed,
            keep_from: up_to.saturating_add(1),
        },
    )
}

/// Drops what a flush has made durable, and says how many entries it flushed.
/// What a newer commit has written since stays.
pub fn complete_flush(memtable: &mut Memtable, plan: &FlushPlan) -> (count: usize)
    ensures
        final(memtable)@ == memtable::rows_without(old(memtable)@, plan.flushed@),
        final(memtable).last_generation() == old(memtable).last_generation(),
        count == plan.flushed@.len(),
{
    memtable.drop_committed(plan.flushed.as_slice());
    plan.flushed.len()
}

} // verus!
