//! The datastore: opening, recovery, and the state that transactions share.

use vstd::prelude::*;

use crate::kvs::config::{LanceConfig, WritePath};
use crate::kvs::err::{Error, ErrorView};
use crate::kvs::lance::background_optimizer::{BackgroundOptimizer, OptimizerView};
use crate::kvs::lance::columns::Batch;
use crate::kvs::lance::flusher;
use crate::kvs::lance::flusher::{FlushPlan, FlusherConfig};
use crate::kvs::lance::memtable;
use crate::kvs::lance::memtable::{EntryView, Memtable, Op};
use crate::kvs::lance::rows;
use crate::kvs::lance::rows::max_seq;
use crate::kvs::lance::timeline::Timeline;
use crate::kvs::lance::transaction;
use crate::kvs::lance::transaction::Transaction;
use crate::kvs::lance::wal;
use crate::kvs::lance::wal::{RecordView, WalOp, WalRecord};
use crate::kvs::order;
use crate::kvs::order::{copy_bytes, Key, Val};
use crate::text;
use crate::text::{contains_text, joined};

verus! {

/// What an attempt to open the dataset came to.
#[derive(Debug)]
pub enum Opened {
    Found,
    NotFound,
    Failed(String),
}

/// What follows the attempt to open the dataset.
#[derive(Clone, Copy, Debug, PartialEq, Eq, Structural)]
pub enum OpenStep {
    /// Go on with the dataset that is there.
    UseExisting,
    /// Write an empty dataset with the schema of the backend.
    CreateEmpty,
}

/// Decides how a datastore comes by its dataset: it uses the one that is there,
/// and creates one only where none was found.
pub fn after_open(opened: Opened) -> (step: Result<OpenStep, Error>)
    ensures
        match step {
            Ok(OpenStep::UseExisting) => opened is Found,
            Ok(OpenStep::CreateEmpty) => opened is NotFound,
            Err(e) => opened matches Opened::Failed(m) && e@ == ErrorView::Datastore(
                "lance open: "@ + m@,
            ),
        },
{
    match opened {
        Opened::Found => Ok(OpenStep::UseExisting),
        Opened::NotFound => Ok(OpenStep::CreateEmpty),
        Opened::Failed(m) => Err(Error::Datastore(joined("lance open: ", m.as_str()))),
    }
}

/// Decides whether the key index is in place. That it exists already is no
/// failure: it is so whenever a dataset is opened again.
pub fn after_index(created: Result<(), String>) -> (ready: Result<(), Error>)
    ensures
        match ready {
            Ok(()) => created matches Err(m) ==> text::has_part(m@, "already exists"@),
            Err(e) => created matches Err(m) && !text::has_part(m@, "already exists"@) && e@
                == ErrorView::Datastore("create_index: "@ + m@),
        },
{
    match created {
        Ok(()) => Ok(()),
        Err(m) => if contains_text(m.as_str(), "already exists") {
            Ok(())
        } else {
            Err(Error::Datastore(joined("create_index: ", m.as_str())))
        },
    }
}

/// What a scan of the `seq` column came to.
#[derive(Debug)]
pub enum SeqScan {
    /// The dataset has no such column.
    NoColumn,
    Batches(Vec<Batch>),
}

/// The message for a dataset without sequence numbers.
pub open spec fn no_seq_column() -> Seq<char> {
    "Lance dataset predates the `seq` column (pre-release on-disk format change); a backfill/migration is required before writes"@
}

/// The largest sequence number in the dataset, 0 where it is empty or has no
/// such column.
pub fn max_persisted_seq(scan: &SeqScan) -> (max: u64)
    ensures
        match *scan {
            SeqScan::NoColumn => max == 0,
            SeqScan::Batches(b) => max == rows::largest_seq(b@),
        },
{
    match scan {
        SeqScan::NoColumn => 0,
        SeqScan::Batches(batches) => max_seq(batches),
    }
}

/// Refuses a dataset without sequence numbers: it cannot take new rows.
pub fn check_seq_column(scan: &SeqScan) -> (r: Result<(), Error>)
    ensures
        match r {
            Ok(()) => *scan is Batches,
            Err(e) => *scan is NoColumn && e@ == ErrorView::Datastore(no_seq_column()),
        },
{
    match scan {
        SeqScan::NoColumn => Err(
            Error::datastore(
                "Lance dataset predates the `seq` column (pre-release on-disk format change); a backfill/migration is required before writes",
            ),
        ),
        SeqScan::Batches(_) => Ok(()),
    }
}

/// The table after the operations of one commit.
pub open spec fn with_ops(
    m: Map<Seq<u8>, EntryView>,
    ops: Seq<(Seq<u8>, Option<Seq<u8>>)>,
    generation: u64,
    seq: u64,
) -> Map<Seq<u8>, EntryView>
    decreases ops.len(),
{
    if ops.len() == 0 {
        m
    } else {
        memtable::upserted(
            with_ops(m, ops.drop_last(), generation, seq),
            ops.last().0,
            EntryView { value: ops.last().1, generation, seq },
        )
    }
}

/// The number of the `n`-th commit after `floor`; after the largest comes 0.
pub open spec fn seq_after(floor: u64, n: nat) -> u64 {
    ((floor + n) % 0x1_0000_0000_0000_0000) as u64
}

/// The table after the records, in order, the first numbered after `floor`.
pub open spec fn with_records(
    m: Map<Seq<u8>, EntryView>,
    records: Seq<RecordView>,
    floor: u64,
) -> Map<Seq<u8>, EntryView>
    decreases records.len(),
{
    if records.len() == 0 {
        m
    } else {
        with_ops(
            with_records(m, records.drop_last(), floor),
            records.last().ops,
            records.last().generation,
            seq_after(floor, records.len()),
        )
    }
}

/// The largest generation of the records, 0 where there are none.
pub open spec fn max_generation(records: Seq<RecordView>) -> u64
    decreases records.len(),
{
    if records.len() == 0 {
        0
    } else if records.last().generation > max_generation(records.drop_last()) {
        records.last().generation
    } else {
        max_generation(records.drop_last())
    }
}

/// The operations of a commit: its writes, then its deletions.
pub open spec fn commit_ops(writes: Seq<(Seq<u8>, Seq<u8>)>, deletes: Seq<Seq<u8>>) -> Seq<
    (Seq<u8>, Option<Seq<u8>>),
> {
    Seq::new(writes.len(), |i: int| (writes[i].0, Some(writes[i].1))) + Seq::new(
        deletes.len(),
        |i: int| (deletes[i], None),
    )
}

/// No entry of the table is of a newer generation.
pub open spec fn all_within(table: Map<Seq<u8>, EntryView>, generation: u64) -> bool {
    forall|k: Seq<u8>| #[trigger] table.contains_key(k) ==> table[k].generation <= generation
}

/// The operations of a commit keep the table within a bound that the commit
/// keeps itself.
pub proof fn lemma_ops_within(
    table: Map<Seq<u8>, EntryView>,
    ops: Seq<(Seq<u8>, Option<Seq<u8>>)>,
    generation: u64,
    seq: u64,
    bound: u64,
)
    requires
        all_within(table, bound),
        generation <= bound,
    ensures
        all_within(with_ops(table, ops, generation, seq), bound),
    decreases ops.len(),
{
    if ops.len() > 0 {
        lemma_ops_within(table, ops.drop_last(), generation, seq, bound);
    }
}

/// A table out of records is within the largest generation of them.
pub proof fn lemma_records_within(records: Seq<RecordView>, floor: u64, bound: u64)
    requires
        max_generation(records) <= bound,
    ensures
        all_within(with_records(memtable::no_rows(), records, floor), bound),
    decreases records.len(),
{
    if records.len() > 0 {
        lemma_records_within(records.drop_last(), floor, bound);
        lemma_ops_within(
            with_records(memtable::no_rows(), records.drop_last(), floor),
            records.last().ops,
            records.last().generation,
            seq_after(floor, records.len()),
            bound,
        );
    }
}

/// The generations that are on their way after `generation` has arrived.
pub open spec fn settled(on_the_way: Seq<u64>, generation: u64) -> Seq<u64>
    decreases on_the_way.len(),
{
    if on_the_way.len() == 0 {
        Seq::empty()
    } else if on_the_way.last() == generation {
        settled(on_the_way.drop_last(), generation)
    } else {
        settled(on_the_way.drop_last(), generation).push(on_the_way.last())
    }
}

proof fn lemma_settled(on_the_way: Seq<u64>, generation: u64)
    ensures
        forall|i: int|
            0 <= i < settled(on_the_way, generation).len() ==> on_the_way.contains(
                #[trigger] settled(on_the_way, generation)[i],
            ),
    decreases on_the_way.len(),
{
    if on_the_way.len() > 0 {
        let rest = on_the_way.drop_last();
        lemma_settled(rest, generation);
        let left = settled(on_the_way, generation);
        assert forall|i: int| 0 <= i < left.len() implies on_the_way.contains(
            #[trigger] left[i],
        ) by {
            if i < settled(rest, generation).len() {
                assert(left[i] == settled(rest, generation)[i]);
                let j = choose|j: int| 0 <= j < rest.len() && rest[j] == left[i];
                assert(on_the_way[j] == left[i]);
            } else {
                assert(on_the_way[on_the_way.len() - 1] == left[i]);
            }
        }
    }
}

/// How far a flush may go: up to the latest generation, but not up to one that
/// is still on its way.
pub open spec fn flush_bound(generation: u64, on_the_way: Seq<u64>) -> u64
    decreases on_the_way.len(),
{
    if on_the_way.len() == 0 {
        generation
    } else {
        let bound = flush_bound(generation, on_the_way.drop_last());
        let g = on_the_way.last();
        if g > bound {
            bound
        } else if g > 0 {
            (g - 1) as u64
        } else {
            0
        }
    }
}

/// The state that the transactions of a datastore share.
pub struct Datastore {
    versioned: bool,
    write_path: WritePath,
    memtable: Memtable,
    commit_seq: u64,
    on_the_way: Vec<u64>,
    optimizer: Option<BackgroundOptimizer>,
    flusher: Option<FlusherConfig>,
}

/// What a [`Datastore`] holds.
pub struct DatastoreView {
    pub versioned: bool,
    pub write_path: WritePath,
    pub table: Map<Seq<u8>, EntryView>,
    /// The generation of the latest commit.
    pub generation: u64,
    /// The sequence number of the latest commit.
    pub commit_seq: u64,
    /// The generations of the commits that are on their way through the log:
    /// taken, but not yet in the table.
    pub on_the_way: Seq<u64>,
    pub optimizer: Option<OptimizerView>,
    pub flusher: Option<FlusherConfig>,
}

impl DatastoreView {
    /// The generation counter stands at or above every generation in the table
    /// and on its way.
    pub open spec fn bounded(self) -> bool {
        &&& all_within(self.table, self.generation)
        &&& forall|i: int|
            0 <= i < self.on_the_way.len() ==> (#[trigger] self.on_the_way[i]) <= self.generation
    }
}

impl View for Datastore {
    type V = DatastoreView;

    closed spec fn view(&self) -> DatastoreView {
        DatastoreView {
            versioned: self.versioned,
            write_path: self.write_path,
            table: self.memtable@,
            generation: self.memtable.last_generation(),
            commit_seq: self.commit_seq,
            on_the_way: self.on_the_way@,
            optimizer: match self.optimizer {
                Some(o) => Some(o@),
                None => None,
            },
            flusher: self.flusher,
        }
    }
}

/// A commit on its way through the log.
#[derive(Debug)]
pub struct LsmCommit {
    /// What goes into the log.
    pub record: WalRecord,
    /// The number that its rows carry.
    pub seq: u64,
}

/// What is to be woken after a commit.
#[derive(Clone, Copy, Debug, PartialEq, Eq, Structural)]
pub struct Nudges {
    pub flusher: bool,
    pub optimizer: bool,
}

/// The settings of the background flusher; none where the datastore has none.
pub fn flusher_for(config: &LanceConfig) -> (settings: Option<FlusherConfig>)
    ensures
        match settings {
            None => !config.write_path.is_lsm() || config.disable_background_flusher,
            Some(s) => {
                &&& config.write_path.is_lsm()
                &&& !config.disable_background_flusher
                &&& match config.flusher_tick_interval {
                    Some(d) => s.tick_interval == d,
                    None => flusher::duration_nanos(s.tick_interval) == 100_000_000,
                }
                &&& s.max_pending_rows == 1000
                &&& s.max_pending_bytes == 8 * 1024 * 1024
                &&& flusher::duration_nanos(s.min_flush_interval) == 50_000_000
            },
        },
{
    if !config.write_path.uses_memtable() || config.disable_background_flusher {
        return None;
    }
    let standard = FlusherConfig::default();
    match config.flusher_tick_interval {
        Some(d) => Some(FlusherConfig { tick_interval: d, ..standard }),
        None => Some(standard),
    }
}

fn apply_ops(table: &mut Memtable, ops: &Vec<WalOp>, generation: u64, seq: u64)
    ensures
        final(table)@ == with_ops(old(table)@, wal::op_views(ops@), generation, seq),
        final(table).last_generation() == old(table).last_generation(),
{
    let ghost base = table@;
    let ghost counter = table.last_generation();
    let ghost views = wal::op_views(ops@);
    let mut i: usize = 0;
    while i < ops.len()
        invariant
            i <= ops@.len(),
            views == wal::op_views(ops@),
            table@ == with_ops(base, views.take(i as int), generation, seq),
            table.last_generation() == counter,
        decreases ops@.len() - i,
    {
        proof {
            assert(views.take(i + 1).drop_last() =~= views.take(i as int));
            assert(views.take(i + 1).last() == views[i as int]);
        }
        match &ops[i] {
            WalOp::Write { key, val } => {
                table.insert_with_seq(
                    copy_bytes(key),
                    Op::Write(copy_bytes(val)),
                    generation,
                    seq,
                );
            },
            WalOp::Delete { key } => {
                table.insert_with_seq(copy_bytes(key), Op::Delete, generation, seq);
            },
        }
        i += 1;
    }
    proof {
        assert(views.take(views.len() as int) =~= views);
    }
}

fn without(on_the_way: &Vec<u64>, generation: u64) -> (left: Vec<u64>)
    ensures
        left@ == settled(on_the_way@, generation),
{
    let ghost all = on_the_way@;
    let mut left: Vec<u64> = Vec::new();
    let mut i: usize = 0;
    while i < on_the_way.len()
        invariant
            i <= all.len(),
            all == on_the_way@,
            left@ == settled(all.take(i as int), generation),
        decreases all.len() - i,
    {
        let g: u64 = on_the_way[i];
        proof {
            assert(all.take(i + 1).drop_last() =~= all.take(i as int));
        }
        if g != generation {
            left.push(g);
        }
        i += 1;
    }
    proof {
        assert(all.take(all.len() as int) =~= all);
    }
    left
}

impl Datastore {
    /// Opens the datastore over a dataset whose largest sequence number is
    /// `seq_floor` and a log that replays to `replayed`. Every replayed commit
    /// gets the next sequence number, and the counters stand at or above all
    /// that was used before. `optimize` holds the interval in nanoseconds and
    /// the commit threshold of the background optimizer, where it is to run.
    pub fn new(
        config: &LanceConfig,
        optimize: Option<(u64, u64)>,
        seq_floor: u64,
        replayed: &Vec<WalRecord>,
    ) -> (ds: Self)
        ensures
            ds@.versioned == config.versioned,
            ds@.write_path == config.write_path,
            ds@.table == with_records(
                memtable::no_rows(),
                wal::record_views(replayed@),
                seq_floor,
            ),
            ds@.generation == max_generation(wal::record_views(replayed@)),
            ds@.commit_seq == seq_after(seq_floor, replayed@.len()),
            ds@.on_the_way == Seq::<u64>::empty(),
            ds@.bounded(),
            match optimize {
                Some(o) => ds@.optimizer == Some(
                    (OptimizerView {
                        write_count: 0,
                        write_threshold: o.1,
                        interval_ns: o.0,
                        shutdown: false,
                    }),
                ),
                None => ds@.optimizer is None,
            },
            match ds@.flusher {
                None => !config.write_path.is_lsm() || config.disable_background_flusher,
                Some(s) => {
                    &&& config.write_path.is_lsm()
                    &&& !config.disable_background_flusher
                    &&& match config.flusher_tick_interval {
                        Some(d) => s.tick_interval == d,
                        None => flusher::duration_nanos(s.tick_interval) == 100_000_000,
                    }
                    &&& s.max_pending_rows == 1000
                    &&& s.max_pending_bytes == 8 * 1024 * 1024
                    &&& flusher::duration_nanos(s.min_flush_interval) == 50_000_000
                },
            },
    {
        let ghost views = wal::record_views(replayed@);
        let mut table = Memtable::new();
        let mut commit_seq: u64 = seq_floor;
        let mut top: u64 = 0;
        let mut i: usize = 0;
        while i < replayed.len()
            invariant
                i <= replayed@.len(),
                views == wal::record_views(replayed@),
                table@ == with_records(memtable::no_rows(), views.take(i as int), seq_floor),
                table.last_generation() == 0,
                top == max_generation(views.take(i as int)),
                commit_seq == seq_after(seq_floor, i as nat),
            decreases replayed@.len() - i,
        {
            proof {
                assert(views.take(i + 1).drop_last() =~= views.take(i as int));
                assert(views.take(i + 1).last() == views[i as int]);
                assert((commit_seq + 1) % 0x1_0000_0000_0000_0000 == (seq_floor + (i + 1))
                    % 0x1_0000_0000_0000_0000);
            }
            commit_seq = commit_seq.wrapping_add(1);
            if replayed[i].generation > top {
                top = replayed[i].generation;
            }
            apply_ops(&mut table, &replayed[i].ops, replayed[i].generation, commit_seq);
            i += 1;
        }
        proof {
            assert(views.take(views.len() as int) =~= views);
        }
        table.advance_generation(top);
        proof {
            lemma_records_within(views, seq_floor, top);
        }
        let optimizer = match optimize {
            Some((interval_ns, threshold)) => Some(
                BackgroundOptimizer::start(interval_ns, threshold),
            ),
            None => None,
        };
        Datastore {
            versioned: config.versioned,
            write_path: config.write_path,
            memtable: table,
            commit_seq,
            on_the_way: Vec::new(),
            optimizer,
            flusher: flusher_for(config),
        }
    }

    /// Begins a transaction that reads from `current_version`, the latest
    /// version of the dataset.
    pub fn transaction(&self, write: bool, current_version: u64) -> (tx: Transaction)
        ensures
            tx@ == transaction::fresh(
                write,
                self@.versioned,
                current_version,
                self@.write_path,
                !self@.write_path.is_lsm(),
            ),
    {
        Transaction::new(
            write,
            self.versioned,
            current_version,
            self.write_path,
            !self.write_path.uses_memtable(),
        )
    }

    /// The write buffer.
    pub fn memtable(&self) -> (table: &Memtable)
        ensures
            table@ == self@.table,
            table.last_generation() == self@.generation,
    {
        &self.memtable
    }

    /// The settings of the background flusher; none where there is none.
    pub fn flusher(&self) -> (settings: Option<FlusherConfig>)
        ensures
            settings == self@.flusher,
    {
        self.flusher
    }

    /// Whether commits go through the commit gate.
    pub fn has_gate(&self) -> (gated: bool)
        ensures
            gated == !self@.write_path.is_lsm(),
    {
        !self.write_path.uses_memtable()
    }

    /// How far a flush may go now: below every generation that is on its way,
    /// so that the log keeps what the table does not hold yet.
    pub fn flush_bound(&self) -> (bound: u64)
        ensures
            bound == flush_bound(self@.generation, self@.on_the_way),
    {
        let mut bound: u64 = self.memtable.current_generation();
        let mut i: usize = 0;
        proof {
            assert(self@.on_the_way.take(0) =~= Seq::empty());
        }
        while i < self.on_the_way.len()
            invariant
                i <= self.on_the_way@.len(),
                self@.on_the_way == self.on_the_way@,
                bound == flush_bound(self@.generation, self@.on_the_way.take(i as int)),
            decreases self.on_the_way@.len() - i,
        {
            proof {
                assert(self@.on_the_way.take(i + 1).drop_last() =~= self@.on_the_way.take(
                    i as int,
                ));
            }
            let g: u64 = self.on_the_way[i];
            if g <= bound {
                bound = g.saturating_sub(1);
            }
            i += 1;
        }
        proof {
            assert(self@.on_the_way.take(self.on_the_way@.len() as int) =~= self@.on_the_way);
        }
        bound
    }

    /// The log record of a commit, under the next generation and the next
    /// sequence number. The generation is on its way until
    /// [`Self::apply_lsm`], when the log has the record, or
    /// [`Self::abandon_lsm`], when the log could not take it.
    pub fn commit_lsm(&mut self, writes: &Vec<(Key, Val)>, deletes: &Vec<Key>) -> (commit: LsmCommit)
        ensures
            commit.record@.generation as int == (old(self)@.generation + 1)
                % 0x1_0000_0000_0000_0000,
            commit.record@.ops == commit_ops(
                order::pair_views(writes@),
                order::key_views(deletes@),
            ),
            commit.seq == seq_after(old(self)@.commit_seq, 1),
            final(self)@ == (DatastoreView {
                generation: commit.record@.generation,
                commit_seq: commit.seq,
                on_the_way: old(self)@.on_the_way.push(commit.record@.generation),
                ..old(self)@
            }),
            old(self)@.bounded() && old(self)@.generation < u64::MAX ==> final(self)@.bounded(),
    {
        let generation: u64 = self.memtable.next_generation();
        self.on_the_way.push(generation);
        self.commit_seq = self.commit_seq.wrapping_add(1);
        let seq: u64 = self.commit_seq;
        let mut ops: Vec<WalOp> = Vec::new();
        let mut i: usize = 0;
        let ghost ws = order::pair_views(writes@);
        let ghost ds = order::key_views(deletes@);
        let ghost first = Seq::new(ws.len(), |j: int| (ws[j].0, Some(ws[j].1)));
        let ghost second = Seq::new(ds.len(), |j: int| (ds[j], None::<Seq<u8>>));
        while i < writes.len()
            invariant
                i <= writes@.len(),
                ws == order::pair_views(writes@),
                first == Seq::new(ws.len(), |j: int| (ws[j].0, Some(ws[j].1))),
                wal::op_views(ops@) == first.take(i as int),
            decreases writes@.len() - i,
        {
            let ghost before = wal::op_views(ops@);
            ops.push(WalOp::Write { key: copy_bytes(&writes[i].0), val: copy_bytes(&writes[i].1) });
            proof {
                assert(wal::op_views(ops@) =~= before.push(first[i as int]));
                assert(first.take(i + 1) =~= first.take(i as int).push(first[i as int]));
            }
            i += 1;
        }
        proof {
            assert(first.take(first.len() as int) =~= first);
            assert(first + second.take(0) =~= first);
        }
        let mut j: usize = 0;
        while j < deletes.len()
            invariant
                j <= deletes@.len(),
                ds == order::key_views(deletes@),
                second == Seq::new(ds.len(), |j: int| (ds[j], None::<Seq<u8>>)),
                wal::op_views(ops@) == first + second.take(j as int),
            decreases deletes@.len() - j,
        {
            let ghost before = wal::op_views(ops@);
            ops.push(WalOp::Delete { key: copy_bytes(&deletes[j]) });
            proof {
                assert(wal::op_views(ops@) =~= before.push(second[j as int]));
                assert(first + second.take(j + 1) =~= (first + second.take(j as int)).push(
                    second[j as int],
                ));
            }
            j += 1;
        }
        proof {
            assert(second.take(second.len() as int) =~= second);
        }
        LsmCommit { record: WalRecord { generation, ops }, seq }
    }

    /// Applies a commit that the log has to the write buffer.
    pub fn apply_lsm(&mut self, commit: &LsmCommit)
        ensures
            final(self)@ == (DatastoreView {
                table: with_ops(
                    old(self)@.table,
                    commit.record@.ops,
                    commit.record@.generation,
                    commit.seq,
                ),
                on_the_way: settled(old(self)@.on_the_way, commit.record@.generation),
                ..old(self)@
            }),
            old(self)@.bounded() && commit.record@.generation <= old(self)@.generation
                ==> final(self)@.bounded(),
    {
        proof {
            if self@.bounded() && commit.record@.generation <= self@.generation {
                lemma_ops_within(
                    self@.table,
                    commit.record@.ops,
                    commit.record@.generation,
                    commit.seq,
                    self@.generation,
                );
                lemma_settled(self@.on_the_way, commit.record@.generation);
            }
        }
        apply_ops(&mut self.memtable, &commit.record.ops, commit.record.generation, commit.seq);
        self.on_the_way = without(&self.on_the_way, commit.record.generation);
    }

    /// Gives up a commit that the log could not take.
    pub fn abandon_lsm(&mut self, commit: &LsmCommit)
        ensures
            final(self)@ == (DatastoreView {
                on_the_way: settled(old(self)@.on_the_way, commit.record@.generation),
                ..old(self)@
            }),
            old(self)@.bounded() ==> final(self)@.bounded(),
    {
        proof {
            lemma_settled(self@.on_the_way, commit.record@.generation);
        }
        self.on_the_way = without(&self.on_the_way, commit.record.generation);
    }

    /// Counts a landed commit, and says what it wakes.
    pub fn after_commit(&mut self) -> (nudges: Nudges)
        ensures
            nudges.flusher == (old(self)@.flusher is Some),
            match old(self)@.optimizer {
                None => !nudges.optimizer && final(self)@ == old(self)@,
                Some(o) => {
                    &&& nudges.optimizer == (o.write_count + 1 >= o.write_threshold)
                    &&& final(self)@ == (DatastoreView {
                        optimizer: Some(
                            (OptimizerView {
                                write_count: if nudges.optimizer {
                                    0
                                } else {
                                    (o.write_count + 1) as u64
                                },
                                ..o
                            }),
                        ),
                        ..old(self)@
                    })
                },
            },
    {
        let flusher: bool = self.flusher.is_some();
        let mut taken: Option<BackgroundOptimizer> = None;
        std::mem::swap(&mut taken, &mut self.optimizer);
        let optimizer: bool = match taken {
            Some(o) => {
                let mut o = o;
                let wake: bool = o.notify_commit();
                self.optimizer = Some(o);
                wake
            },
            None => {
                self.optimizer = None;
                false
            },
        };
        Nudges { flusher, optimizer }
    }

    /// Plans a flush of the write buffer.
    pub fn plan_flush(&self, up_to: u64) -> (plan: Option<FlushPlan>)
        ensures
            match plan {
                Some(p) => {
                    &&& memtable::rows_up_to(self@.table, up_to) != memtable::no_rows()
                    &&& p.flushes(self@.table, up_to)
                },
                None => memtable::rows_up_to(self@.table, up_to) == memtable::no_rows(),
            },
    {
        flusher::plan_flush(&self.memtable, up_to)
    }

    /// Drops what a flush has made durable.
    pub fn complete_flush(&mut self, plan: &FlushPlan) -> (count: usize)
        ensures
            final(self)@ == (DatastoreView {
                table: memtable::rows_without(old(self)@.table, plan.flushed@),
                ..old(self)@
            }),
            count == plan.flushed@.len(),
            old(self)@.bounded() ==> final(self)@.bounded(),
    {
        flusher::complete_flush(&mut self.memtable, plan)
    }

    /// Asks the optimizer to leave, where there is one.
    pub fn shutdown_optimizer(&mut self) -> (running: bool)
        ensures
            running == (old(self)@.optimizer is Some),
            final(self)@ == (DatastoreView {
                optimizer: match old(self)@.optimizer {
                    Some(o) => Some((OptimizerView { shutdown: true, ..o })),
                    None => None,
                },
                ..old(self)@
            }),
    {
        let mut taken: Option<BackgroundOptimizer> = None;
        std::mem::swap(&mut taken, &mut self.optimizer);
        match taken {
            Some(o) => {
                let mut o = o;
                o.shutdown();
                self.optimizer = Some(o);
                true
            },
            None => {
                self.optimizer = None;
                false
            },
        }
    }

    /// The background optimizer; none where none is to run.
    pub fn optimizer(&self) -> (optimizer: Option<&BackgroundOptimizer>)
        ensures
            match optimizer {
                Some(o) => self@.optimizer == Some(o@),
                None => self@.optimizer is None,
            },
    {
        match &self.optimizer {
            Some(o) => Some(o),
            None => None,
        }
    }

    /// The read-only view of the dataset's versions.
    pub fn timeline(&self, current_version: u64) -> (timeline: Timeline)
        ensures
            timeline.latest() == current_version,
    {
        Timeline::new(current_version)
    }
}

} // verus!
