//! Transactions.
//!
//! A transaction gathers its writes in a buffer and reads through it: first
//! what it has pending itself, then, on the log-structured write path, the
//! write buffer, then the dataset. What the dataset holds comes in from
//! outside: a `*_plan` method says which scan is needed, and the method of the
//! plain name takes what that scan yielded.

use std::ops::Range;

use vstd::prelude::*;

use crate::kvs::api::{Direction, ScanLimit};
use crate::kvs::config::WritePath;
use crate::kvs::err::{Error, ErrorView};
use crate::kvs::key_map;
use crate::kvs::lance::columns::Batch;
use crate::kvs::lance::memtable::{EntryView, Memtable, MemtableEntry, Op};
use crate::kvs::lance::rows;
use crate::kvs::lance::rows::{first_value, scan_pairs};
use crate::kvs::lance::scan;
use crate::kvs::lance::scan::merge_layers;
use crate::kvs::lance::schema;
use crate::kvs::lance::schema::KvSchema;
use crate::kvs::lance::tx_buffer;
use crate::kvs::lance::tx_buffer::{PendingBuffer, PendingEntry};
use crate::kvs::order;
use crate::kvs::order::{copy_bytes, same_bytes, Key, Val};

verus! {

/// The state of the dataset that a scan reads.
#[derive(Clone, Copy, Debug, PartialEq, Eq, Structural)]
pub enum Snapshot {
    /// The latest version.
    Latest,
    /// The version of this number.
    Version(u64),
    /// The version that was current at this instant, in milliseconds since
    /// the Unix epoch.
    AsOf(u64),
}

/// A scan of the dataset.
#[derive(Debug)]
pub struct ScanPlan {
    pub snapshot: Snapshot,
    /// The filter expression, where not every row is wanted.
    pub filter: Option<String>,
    /// The columns to read.
    pub columns: Vec<&'static str>,
    /// How many rows are wanted, where not all are.
    pub limit: Option<u64>,
    /// The order by key, where one is wanted.
    pub direction: Option<Direction>,
}

/// What a scan of the dataset came to.
#[derive(Debug)]
pub enum Scanned {
    /// The snapshot does not exist.
    NoSnapshot,
    /// The batches in the order in which they came.
    Batches(Vec<Batch>),
    /// The scan failed.
    Failed(Error),
}

/// What a [`Scanned`] says.
pub enum ScannedView {
    NoSnapshot,
    Batches(Seq<Batch>),
    Failed(ErrorView),
}

impl View for Scanned {
    type V = ScannedView;

    open spec fn view(&self) -> ScannedView {
        match *self {
            Scanned::NoSnapshot => ScannedView::NoSnapshot,
            Scanned::Batches(b) => ScannedView::Batches(b@),
            Scanned::Failed(e) => ScannedView::Failed(e@),
        }
    }
}

/// The next step of a commit.
#[derive(Debug)]
pub enum CommitPlan {
    /// Nothing was pending, and the transaction is finished.
    Finished,
    /// Append to the log, then apply to the write buffer.
    Lsm { writes: Vec<(Key, Val)>, deletes: Vec<Key> },
    /// Hand to the commit gate, to be stamped with `version`.
    Gate { writes: Vec<(Key, Val)>, deletes: Vec<Key>, version: u64 },
}

/// The state of a transaction.
pub struct TxView {
    pub done: bool,
    pub write: bool,
    pub versioned: bool,
    /// The pending value of each key, none where the key is to be deleted.
    pub pending: Map<Seq<u8>, Option<Seq<u8>>>,
    /// The pending entries at each open save point, the oldest first.
    pub save_points: Seq<Map<Seq<u8>, Option<Seq<u8>>>>,
    pub read_version: u64,
    pub write_path: WritePath,
    /// Whether the datastore has a commit gate.
    pub gated: bool,
}

/// A transaction.
#[derive(Debug)]
pub struct Transaction {
    done: bool,
    write: bool,
    versioned: bool,
    pending: PendingBuffer,
    save_points: Vec<PendingBuffer>,
    read_version: u64,
    write_path: WritePath,
    gated: bool,
}

/// The contents of each saved buffer.
pub open spec fn buffer_views(buffers: Seq<PendingBuffer>) -> Seq<
    Map<Seq<u8>, Option<Seq<u8>>>,
> {
    Seq::new(buffers.len(), |i: int| buffers[i]@)
}

impl View for Transaction {
    type V = TxView;

    closed spec fn view(&self) -> TxView {
        TxView {
            done: self.done,
            write: self.write,
            versioned: self.versioned,
            pending: self.pending@,
            save_points: buffer_views(self.save_points@),
            read_version: self.read_version,
            write_path: self.write_path,
            gated: self.gated,
        }
    }
}

/// A new transaction.
pub open spec fn fresh(
    write: bool,
    versioned: bool,
    read_version: u64,
    write_path: WritePath,
    gated: bool,
) -> TxView {
    TxView {
        done: false,
        write,
        versioned,
        pending: Map::empty(),
        save_points: Seq::empty(),
        read_version,
        write_path,
        gated,
    }
}

/// Why the transaction refuses a write, if it does.
pub open spec fn write_fault(tx: TxView) -> Option<ErrorView> {
    if tx.done {
        Some(ErrorView::TransactionFinished)
    } else if !tx.write {
        Some(ErrorView::TransactionReadonly)
    } else {
        None
    }
}

/// Why the transaction refuses a read, if it does.
pub open spec fn read_fault(tx: TxView, version: Option<u64>) -> Option<ErrorView> {
    if !tx.versioned && version is Some {
        Some(ErrorView::UnsupportedVersionedQueries)
    } else if tx.done {
        Some(ErrorView::TransactionFinished)
    } else {
        None
    }
}

/// The layer of the write buffer: a read of the present on the log-structured
/// path sees it, any other read does not.
pub open spec fn table_layer(
    tx: TxView,
    table: Map<Seq<u8>, EntryView>,
    version: Option<u64>,
) -> Map<Seq<u8>, Option<Seq<u8>>> {
    if version is None && tx.write_path.is_lsm() {
        scan::table_values(table)
    } else {
        Map::empty()
    }
}

/// The state of the dataset that a read sees: the one at the given instant;
/// without one, the latest on the log-structured path, and the one that the
/// transaction started from on the other.
pub open spec fn snapshot_for(tx: TxView, version: Option<u64>) -> Snapshot {
    match version {
        Some(instant) => Snapshot::AsOf(instant),
        None => if tx.write_path.is_lsm() {
            Snapshot::Latest
        } else {
            Snapshot::Version(tx.read_version)
        },
    }
}

/// What a point read returns.
pub open spec fn get_outcome(
    tx: TxView,
    table: Map<Seq<u8>, EntryView>,
    scanned: ScannedView,
    key: Seq<u8>,
    version: Option<u64>,
) -> Result<Option<Seq<u8>>, ErrorView> {
    if read_fault(tx, version) is Some {
        Err(read_fault(tx, version)->0)
    } else if tx.pending.contains_key(key) {
        Ok(tx.pending[key])
    } else if table_layer(tx, table, version).contains_key(key) {
        Ok(table_layer(tx, table, version)[key])
    } else {
        match scanned {
            ScannedView::NoSnapshot => Ok(None),
            ScannedView::Failed(e) => Err(e),
            ScannedView::Batches(batches) => match rows::first_val(batches) {
                Ok(v) => Ok(v),
                Err(m) => Err(ErrorView::Datastore(m)),
            },
        }
    }
}

/// What a range scan returns.
pub open spec fn scan_outcome(
    tx: TxView,
    table: Map<Seq<u8>, EntryView>,
    scanned: ScannedView,
    start: Seq<u8>,
    end: Seq<u8>,
    limit: ScanLimit,
    skip: u32,
    version: Option<u64>,
    direction: Direction,
) -> Result<Seq<(Seq<u8>, Seq<u8>)>, ErrorView> {
    if read_fault(tx, version) is Some {
        Err(read_fault(tx, version)->0)
    } else {
        let rows = match scanned {
            ScannedView::NoSnapshot => Ok(Seq::empty()),
            ScannedView::Failed(e) => Err(e),
            ScannedView::Batches(batches) => match rows::scanned_pairs(batches) {
                Ok(pairs) => Ok(pairs),
                Err(m) => Err(ErrorView::Datastore(m)),
            },
        };
        match rows {
            Err(e) => Err(e),
            Ok(pairs) => Ok(
                scan::scan_result(
                    pairs,
                    table_layer(tx, table, version),
                    tx.pending,
                    start,
                    end,
                    limit,
                    skip,
                    direction,
                ),
            ),
        }
    }
}

/// The buffers that a read looks through hold finitely many keys.
pub open spec fn finite_layers(
    tx: TxView,
    table: Map<Seq<u8>, EntryView>,
    version: Option<u64>,
) -> bool {
    tx.pending.dom().finite() && table_layer(tx, table, version).dom().finite()
}

/// An optional value by its bytes.
pub open spec fn val_view(v: Option<Val>) -> Option<Seq<u8>> {
    match v {
        Some(v) => Some(v@),
        None => None,
    }
}

/// A read's result by its bytes.
pub open spec fn read_view(r: Result<Option<Val>, Error>) -> Result<
    Option<Seq<u8>>,
    ErrorView,
> {
    match r {
        Ok(v) => Ok(val_view(v)),
        Err(e) => Err(e@),
    }
}

/// A scan's result by its bytes.
pub open spec fn pairs_view(r: Result<Vec<(Key, Val)>, Error>) -> Result<
    Seq<(Seq<u8>, Seq<u8>)>,
    ErrorView,
> {
    match r {
        Ok(v) => Ok(order::pair_views(v@)),
        Err(e) => Err(e@),
    }
}

/// A key scan's result by its bytes.
pub open spec fn keys_view(r: Result<Vec<Key>, Error>) -> Result<Seq<Seq<u8>>, ErrorView> {
    match r {
        Ok(v) => Ok(order::key_views(v@)),
        Err(e) => Err(e@),
    }
}

/// An outcome without its value.
pub open spec fn unit_view(r: Result<(), Error>) -> Result<(), ErrorView> {
    match r {
        Ok(()) => Ok(()),
        Err(e) => Err(e@),
    }
}

/// The keys of a scan's rows.
pub open spec fn keys_outcome(
    r: Result<Seq<(Seq<u8>, Seq<u8>)>, ErrorView>,
) -> Result<Seq<Seq<u8>>, ErrorView> {
    match r {
        Ok(rows) => Ok(Seq::new(rows.len(), |i: int| rows[i].0)),
        Err(e) => Err(e),
    }
}

/// The outcome of a plain write: refused, or the entry of `key` becomes
/// `entry`.
pub open spec fn wrote(
    before: TxView,
    after: TxView,
    r: Result<(), ErrorView>,
    key: Seq<u8>,
    entry: Option<Seq<u8>>,
) -> bool {
    if write_fault(before) is Some {
        r == Err::<(), ErrorView>(write_fault(before)->0) && after == before
    } else {
        r == Ok::<(), ErrorView>(()) && after == (TxView {
            pending: before.pending.insert(key, entry),
            ..before
        })
    }
}

/// The transaction with one more save point.
pub open spec fn saved(tx: TxView) -> TxView {
    TxView { save_points: tx.save_points.push(tx.pending), ..tx }
}

/// The transaction back at its latest save point.
pub open spec fn rolled_back(tx: TxView) -> TxView {
    TxView { pending: tx.save_points.last(), save_points: tx.save_points.drop_last(), ..tx }
}

/// The transaction without its latest save point.
pub open spec fn released(tx: TxView) -> TxView {
    TxView { save_points: tx.save_points.drop_last(), ..tx }
}

/// The transaction after it was cancelled.
pub open spec fn cancelled(tx: TxView) -> TxView {
    TxView { done: true, pending: Map::empty(), save_points: Seq::empty(), ..tx }
}

fn only_keys(pairs: Vec<(Key, Val)>) -> (keys: Vec<Key>)
    ensures
        order::key_views(keys@) == Seq::new(
            pairs@.len(),
            |i: int| order::pair_views(pairs@)[i].0,
        ),
{
    let mut keys: Vec<Key> = Vec::new();
    let mut i: usize = 0;
    while i < pairs.len()
        invariant
            i <= pairs@.len(),
            keys@.len() == i,
            forall|j: int| 0 <= j < i ==> (#[trigger] keys@[j])@ == pairs@[j].0@,
        decreases pairs@.len() - i,
    {
        keys.push(copy_bytes(&pairs[i].0));
        i += 1;
    }
    proof {
        assert(order::key_views(keys@) =~= Seq::new(
            pairs@.len(),
            |j: int| order::pair_views(pairs@)[j].0,
        ));
    }
    keys
}

impl Transaction {
    /// A transaction that reads from `read_version`.
    pub fn new(
        write: bool,
        versioned: bool,
        read_version: u64,
        write_path: WritePath,
        gated: bool,
    ) -> (tx: Self)
        ensures
            tx@ == fresh(write, versioned, read_version, write_path, gated),
    {
        let tx = Transaction {
            done: false,
            write,
            versioned,
            pending: PendingBuffer::new(),
            save_points: Vec::new(),
            read_version,
            write_path,
            gated,
        };
        proof {
            assert(tx@.save_points =~= Seq::empty());
        }
        tx
    }

    /// The name of the backend.
    pub fn kind(&self) -> (name: &'static str)
        ensures
            name@ == "lance"@,
    {
        "lance"
    }

    /// Whether the transaction was committed or cancelled.
    pub fn closed(&self) -> (done: bool)
        ensures
            done == self@.done,
    {
        self.done
    }

    /// Whether the transaction may write.
    pub fn writeable(&self) -> (write: bool)
        ensures
            write == self@.write,
    {
        self.write
    }

    fn check_write(&self) -> (r: Result<(), Error>)
        ensures
            match r {
                Ok(()) => write_fault(self@) is None,
                Err(e) => write_fault(self@) == Some(e@),
            },
    {
        if self.done {
            Err(Error::TransactionFinished)
        } else if !self.write {
            Err(Error::TransactionReadonly)
        } else {
            Ok(())
        }
    }

    fn check_read(&self, version: Option<u64>) -> (r: Result<(), Error>)
        ensures
            match r {
                Ok(()) => read_fault(self@, version) is None,
                Err(e) => read_fault(self@, version) == Some(e@),
            },
    {
        if !self.versioned && version.is_some() {
            Err(Error::UnsupportedVersionedQueries)
        } else if self.done {
            Err(Error::TransactionFinished)
        } else {
            Ok(())
        }
    }

    fn snapshot(&self, version: Option<u64>) -> (snapshot: Snapshot)
        ensures
            snapshot == snapshot_for(self@, version),
    {
        match version {
            Some(instant) => Snapshot::AsOf(instant),
            None => if self.write_path.uses_memtable() {
                Snapshot::Latest
            } else {
                Snapshot::Version(self.read_version)
            },
        }
    }

    /// Starts the commit of what is pending. The caller performs the plan and
    /// then calls [`Self::commit_landed`]; where the plan fails, the
    /// transaction stays open with everything still pending.
    pub fn commit(&mut self) -> (plan: Result<CommitPlan, Error>)
        ensures
            match plan {
                Err(e) => {
                    &&& *final(self) == *old(self)
                    &&& if write_fault(old(self)@) is Some {
                        e@ == write_fault(old(self)@)->0
                    } else {
                        &&& old(self)@.pending != Map::<Seq<u8>, Option<Seq<u8>>>::empty()
                        &&& !old(self)@.write_path.is_lsm()
                        &&& !old(self)@.gated
                        &&& e@ == ErrorView::Datastore(
                            "LegacyCommitGate write-path selected but no gate was spawned on this Datastore — internal invariant violated"@,
                        )
                    }
                },
                Ok(CommitPlan::Finished) => {
                    &&& write_fault(old(self)@) is None
                    &&& old(self)@.pending == Map::<Seq<u8>, Option<Seq<u8>>>::empty()
                    &&& final(self)@ == (TxView { done: true, ..old(self)@ })
                },
                Ok(CommitPlan::Lsm { writes, deletes }) => {
                    &&& write_fault(old(self)@) is None
                    &&& old(self)@.pending != Map::<Seq<u8>, Option<Seq<u8>>>::empty()
                    &&& old(self)@.write_path.is_lsm()
                    &&& key_map::lists(
                        order::pair_views(writes@),
                        tx_buffer::live(old(self)@.pending),
                    )
                    &&& key_map::lists_keys(
                        order::key_views(deletes@),
                        tx_buffer::dead(old(self)@.pending),
                    )
                    &&& *final(self) == *old(self)
                },
                Ok(CommitPlan::Gate { writes, deletes, version }) => {
                    &&& write_fault(old(self)@) is None
                    &&& old(self)@.pending != Map::<Seq<u8>, Option<Seq<u8>>>::empty()
                    &&& !old(self)@.write_path.is_lsm()
                    &&& old(self)@.gated
                    &&& key_map::lists(
                        order::pair_views(writes@),
                        tx_buffer::live(old(self)@.pending),
                    )
                    &&& key_map::lists_keys(
                        order::key_views(deletes@),
                        tx_buffer::dead(old(self)@.pending),
                    )
                    &&& version as int == (if old(self)@.read_version < u64::MAX {
                        old(self)@.read_version + 1
                    } else {
                        u64::MAX as int
                    })
                    &&& *final(self) == *old(self)
                },
            },
    {
        match self.check_write() {
            Ok(()) => {},
            Err(e) => {
                return Err(e);
            },
        }
        if self.pending.is_empty() {
            self.done = true;
            return Ok(CommitPlan::Finished);
        }
        let (writes, deletes) = self.pending.partition();
        if self.write_path.uses_memtable() {
            Ok(CommitPlan::Lsm { writes, deletes })
        } else if self.gated {
            let version: u64 = self.read_version.saturating_add(1);
            Ok(CommitPlan::Gate { writes, deletes, version })
        } else {
            Err(
                Error::datastore(
                    "LegacyCommitGate write-path selected but no gate was spawned on this Datastore — internal invariant violated",
                ),
            )
        }
    }

    /// Finishes the transaction after its commit has landed.
    pub fn commit_landed(&mut self)
        ensures
            final(self)@ == (TxView { done: true, ..old(self)@ }),
    {
        self.done = true;
    }

    /// Drops what is pending and finishes the transaction.
    pub fn cancel(&mut self) -> (r: Result<(), Error>)
        ensures
            match r {
                Ok(()) => {
                    &&& !old(self)@.done
                    &&& final(self)@ == cancelled(old(self)@)
                },
                Err(e) => {
                    &&& old(self)@.done
                    &&& e@ == ErrorView::TransactionFinished
                    &&& *final(self) == *old(self)
                },
            },
    {
        if self.done {
            return Err(Error::TransactionFinished);
        }
        self.pending.clear();
        self.save_points.clear();
        self.done = true;
        proof {
            assert(self@.save_points =~= Seq::empty());
        }
        Ok(())
    }

    /// The value of `key` that the buffers hold, where one of them does.
    fn buffered(&self, memtable: &Memtable, key: &Key, version: Option<u64>) -> (found: Option<
        Option<Val>,
    >)
        ensures
            match found {
                Some(v) => if self@.pending.contains_key(key@) {
                    val_view(v) == self@.pending[key@]
                } else {
                    table_layer(self@, memtable@, version).contains_key(key@) && val_view(v)
                        == table_layer(self@, memtable@, version)[key@]
                },
                None => !self@.pending.contains_key(key@) && !table_layer(
                    self@,
                    memtable@,
                    version,
                ).contains_key(key@),
            },
    {
        match self.pending.get(key) {
            Some(PendingEntry::Write(v)) => {
                return Some(Some(copy_bytes(v)));
            },
            Some(PendingEntry::Delete) => {
                return Some(None);
            },
            None => {},
        }
        if version.is_none() && self.write_path.uses_memtable() {
            match memtable.get(key.as_slice()) {
                Some(entry) => match entry.op {
                    Op::Write(v) => {
                        return Some(Some(v));
                    },
                    Op::Delete => {
                        return Some(None);
                    },
                },
                None => {},
            }
        }
        None
    }

    /// The scan that a read of `key` needs; none where a buffer has the
    /// answer.
    pub fn get_plan(&self, memtable: &Memtable, key: &Key, version: Option<u64>) -> (plan: Result<
        Option<ScanPlan>,
        Error,
    >)
        ensures
            match plan {
                Err(e) => read_fault(self@, version) == Some(e@),
                Ok(None) => {
                    &&& read_fault(self@, version) is None
                    &&& self@.pending.contains_key(key@) || table_layer(
                        self@,
                        memtable@,
                        version,
                    ).contains_key(key@)
                },
                Ok(Some(p)) => {
                    &&& read_fault(self@, version) is None
                    &&& !self@.pending.contains_key(key@)
                    &&& !table_layer(self@, memtable@, version).contains_key(key@)
                    &&& p.snapshot == snapshot_for(self@, version)
                    &&& p.filter matches Some(f) && f@ == schema::get_predicate(key@)
                    &&& p.columns@ == seq!["val", "version"]
                    &&& p.limit == Some(1u64)
                    &&& p.direction is None
                },
            },
    {
        match self.check_read(version) {
            Ok(()) => {},
            Err(e) => {
                return Err(e);
            },
        }
        if self.buffered(memtable, key, version).is_some() {
            return Ok(None);
        }
        let mut columns: Vec<&'static str> = Vec::new();
        columns.push("val");
        columns.push("version");
        proof {
            assert(columns@ =~= seq!["val", "version"]);
        }
        Ok(
            Some(
                ScanPlan {
                    snapshot: self.snapshot(version),
                    filter: Some(KvSchema::build_get_predicate(key)),
                    columns,
                    limit: Some(1),
                    direction: None,
                },
            ),
        )
    }

    /// The value of `key`: what the transaction has pending, else what the
    /// write buffer has, else what the scan of [`Self::get_plan`] yielded.
    pub fn get(
        &self,
        memtable: &Memtable,
        key: &Key,
        version: Option<u64>,
        scanned: Scanned,
    ) -> (value: Result<Option<Val>, Error>)
        ensures
            read_view(value) == get_outcome(self@, memtable@, scanned@, key@, version),
    {
        match self.check_read(version) {
            Ok(()) => {},
            Err(e) => {
                return Err(e);
            },
        }
        match self.buffered(memtable, key, version) {
            Some(v) => {
                return Ok(v);
            },
            None => {},
        }
        match scanned {
            Scanned::NoSnapshot => Ok(None),
            Scanned::Failed(e) => Err(e),
            Scanned::Batches(batches) => first_value(&batches),
        }
    }

    /// Whether `key` has a value, by the same scan as [`Self::get`].
    pub fn key_exists(
        &self,
        memtable: &Memtable,
        key: &Key,
        version: Option<u64>,
        scanned: Scanned,
    ) -> (found: Result<bool, Error>)
        ensures
            match found {
                Ok(b) => get_outcome(self@, memtable@, scanned@, key@, version) is Ok && b == (
                get_outcome(self@, memtable@, scanned@, key@, version)->Ok_0 is Some),
                Err(e) => get_outcome(self@, memtable@, scanned@, key@, version) == Err::<
                    Option<Seq<u8>>,
                    ErrorView,
                >(e@),
            },
    {
        match self.get(memtable, key, version, scanned) {
            Ok(v) => Ok(v.is_some()),
            Err(e) => Err(e),
        }
    }

    /// Sets `key` to `val`.
    pub fn set(&mut self, key: Key, val: Val) -> (r: Result<(), Error>)
        ensures
            wrote(old(self)@, final(self)@, unit_view(r), key@, Some(val@)),
    {
        match self.check_write() {
            Ok(()) => {},
            Err(e) => {
                return Err(e);
            },
        }
        self.pending.set(key, val);
        Ok(())
    }

    /// Sets `key` to `val` if it has no value. `taken` is what
    /// [`Self::key_exists`] says of the key.
    pub fn put(&mut self, key: Key, val: Val, taken: Result<bool, Error>) -> (r: Result<
        (),
        Error,
    >)
        ensures
            if write_fault(old(self)@) is Some || taken == Ok::<bool, Error>(false) {
                wrote(old(self)@, final(self)@, unit_view(r), key@, Some(val@))
            } else {
                &&& final(self)@ == old(self)@
                &&& unit_view(r) == Err::<(), ErrorView>(
                    match taken {
                        Ok(_) => ErrorView::TransactionKeyAlreadyExists,
                        Err(e) => e@,
                    },
                )
            },
    {
        match self.check_write() {
            Ok(()) => {},
            Err(e) => {
                return Err(e);
            },
        }
        match taken {
            Ok(true) => Err(Error::TransactionKeyAlreadyExists),
            Ok(false) => {
                self.pending.set(key, val);
                Ok(())
            },
            Err(e) => Err(e),
        }
    }

    /// Sets `key` to `val` if its current value is `chk`. `current` is what
    /// [`Self::get`] says of the key.
    pub fn putc(
        &mut self,
        key: Key,
        val: Val,
        chk: Option<Val>,
        current: Result<Option<Val>, Error>,
    ) -> (r: Result<(), Error>)
        ensures
            if write_fault(old(self)@) is Some || read_view(current) == Ok::<
                Option<Seq<u8>>,
                ErrorView,
            >(val_view(chk)) {
                wrote(old(self)@, final(self)@, unit_view(r), key@, Some(val@))
            } else {
                &&& final(self)@ == old(self)@
                &&& unit_view(r) == Err::<(), ErrorView>(
                    match current {
                        Ok(_) => ErrorView::TransactionConditionNotMet,
                        Err(e) => e@,
                    },
                )
            },
    {
        match self.check_write() {
            Ok(()) => {},
            Err(e) => {
                return Err(e);
            },
        }
        match (current, chk) {
            (Err(e), _) => Err(e),
            (Ok(Some(v)), Some(w)) => if same_bytes(&v, &w) {
                self.pending.set(key, val);
                Ok(())
            } else {
                Err(Error::TransactionConditionNotMet)
            },
            (Ok(None), None) => {
                self.pending.set(key, val);
                Ok(())
            },
            (Ok(Some(_)), None) => Err(Error::TransactionConditionNotMet),
            (Ok(None), Some(_)) => Err(Error::TransactionConditionNotMet),
        }
    }

    /// Deletes `key`.
    pub fn del(&mut self, key: Key) -> (r: Result<(), Error>)
        ensures
            wrote(old(self)@, final(self)@, unit_view(r), key@, None),
    {
        match self.check_write() {
            Ok(()) => {},
            Err(e) => {
                return Err(e);
            },
        }
        self.pending.delete(key);
        Ok(())
    }

    /// Deletes `key` if its current value is `chk`. Where neither is there,
    /// nothing is to be deleted, and nothing becomes pending. `current` is
    /// what [`Self::get`] says of the key.
    pub fn delc(
        &mut self,
        key: Key,
        chk: Option<Val>,
        current: Result<Option<Val>, Error>,
    ) -> (r: Result<(), Error>)
        ensures
            if write_fault(old(self)@) is Some || (chk is Some && read_view(current) == Ok::<
                Option<Seq<u8>>,
                ErrorView,
            >(val_view(chk))) {
                wrote(old(self)@, final(self)@, unit_view(r), key@, None)
            } else {
                &&& final(self)@ == old(self)@
                &&& unit_view(r) == (match current {
                    Ok(None) if chk is None => Ok::<(), ErrorView>(()),
                    Ok(_) => Err(ErrorView::TransactionConditionNotMet),
                    Err(e) => Err(e@),
                })
            },
    {
        match self.check_write() {
            Ok(()) => {},
            Err(e) => {
                return Err(e);
            },
        }
        match (current, chk) {
            (Err(e), _) => Err(e),
            (Ok(Some(v)), Some(w)) => if same_bytes(&v, &w) {
                self.pending.delete(key);
                Ok(())
            } else {
                Err(Error::TransactionConditionNotMet)
            },
            (Ok(None), None) => Ok(()),
            (Ok(Some(_)), None) => Err(Error::TransactionConditionNotMet),
            (Ok(None), Some(_)) => Err(Error::TransactionConditionNotMet),
        }
    }

    /// The scan that a range scan needs.
    pub fn scan_plan(&self, rng: &Range<Key>, version: Option<u64>, direction: Direction) -> (plan: Result<
        ScanPlan,
        Error,
    >)
        ensures
            match plan {
                Err(e) => read_fault(self@, version) == Some(e@),
                Ok(p) => {
                    &&& read_fault(self@, version) is None
                    &&& p.snapshot == snapshot_for(self@, version)
                    &&& p.filter matches Some(f) && f@ == schema::range_predicate(rng.start@, rng.end@)
                    &&& p.columns@ == seq!["key", "val"]
                    &&& p.limit is None
                    &&& p.direction == Some(direction)
                },
            },
    {
        match self.check_read(version) {
            Ok(()) => {},
            Err(e) => {
                return Err(e);
            },
        }
        let mut columns: Vec<&'static str> = Vec::new();
        columns.push("key");
        columns.push("val");
        proof {
            assert(columns@ =~= seq!["key", "val"]);
        }
        Ok(
            ScanPlan {
                snapshot: self.snapshot(version),
                filter: Some(KvSchema::build_range_predicate(&rng.start, &rng.end)),
                columns,
                limit: None,
                direction: Some(direction),
            },
        )
    }

    /// The live rows of the range in the given order: the rows of the scan of
    /// [`Self::scan_plan`], over them the write buffer, over both what is
    /// pending, cut to the requested page.
    pub fn scan_impl(
        &self,
        memtable: &Memtable,
        rng: &Range<Key>,
        limit: ScanLimit,
        skip: u32,
        version: Option<u64>,
        direction: Direction,
        scanned: Scanned,
    ) -> (out: Result<Vec<(Key, Val)>, Error>)
        ensures
            pairs_view(out) == scan_outcome(
                self@,
                memtable@,
                scanned@,
                rng.start@,
                rng.end@,
                limit,
                skip,
                version,
                direction,
            ),
            out is Ok ==> finite_layers(self@, memtable@, version),
    {
        match self.check_read(version) {
            Ok(()) => {},
            Err(e) => {
                return Err(e);
            },
        }
        let stored: Vec<(Key, Val)> = match scanned {
            Scanned::NoSnapshot => {
                let none: Vec<(Key, Val)> = Vec::new();
                proof {
                    assert(order::pair_views(none@) =~= Seq::empty());
                }
                none
            },
            Scanned::Failed(e) => {
                return Err(e);
            },
            Scanned::Batches(batches) => match scan_pairs(&batches) {
                Ok(v) => v,
                Err(e) => {
                    return Err(e);
                },
            },
        };
        if version.is_none() && self.write_path.uses_memtable() {
            let entries = memtable.scan_range(rng);
            proof {
                assert(scan::table_values(memtable@).dom() =~= memtable@.dom());
            }
            Ok(
                merge_layers(
                    stored,
                    entries,
                    Ghost(memtable@),
                    &self.pending,
                    rng,
                    limit,
                    skip,
                    direction,
                ),
            )
        } else {
            let entries: Vec<(Key, MemtableEntry)> = Vec::new();
            let ghost none = Map::<Seq<u8>, EntryView>::empty();
            proof {
                assert(scan::table_values(none) =~= Map::empty());
            }
            Ok(
                merge_layers(
                    stored,
                    entries,
                    Ghost(none),
                    &self.pending,
                    rng,
                    limit,
                    skip,
                    direction,
                ),
            )
        }
    }

    /// The live rows of the range by ascending key.
    pub fn scan(
        &self,
        memtable: &Memtable,
        rng: &Range<Key>,
        limit: ScanLimit,
        skip: u32,
        version: Option<u64>,
        scanned: Scanned,
    ) -> (out: Result<Vec<(Key, Val)>, Error>)
        ensures
            pairs_view(out) == scan_outcome(
                self@,
                memtable@,
                scanned@,
                rng.start@,
                rng.end@,
                limit,
                skip,
                version,
                Direction::Forward,
            ),
            out is Ok ==> finite_layers(self@, memtable@, version),
    {
        self.scan_impl(memtable, rng, limit, skip, version, Direction::Forward, scanned)
    }

    /// The live rows of the range by descending key.
    pub fn scanr(
        &self,
        memtable: &Memtable,
        rng: &Range<Key>,
        limit: ScanLimit,
        skip: u32,
        version: Option<u64>,
        scanned: Scanned,
    ) -> (out: Result<Vec<(Key, Val)>, Error>)
        ensures
            pairs_view(out) == scan_outcome(
                self@,
                memtable@,
                scanned@,
                rng.start@,
                rng.end@,
                limit,
                skip,
                version,
                Direction::Backward,
            ),
            out is Ok ==> finite_layers(self@, memtable@, version),
    {
        self.scan_impl(memtable, rng, limit, skip, version, Direction::Backward, scanned)
    }

    /// The live keys of the range in ascending order.
    pub fn keys(
        &self,
        memtable: &Memtable,
        rng: &Range<Key>,
        limit: ScanLimit,
        skip: u32,
        version: Option<u64>,
        scanned: Scanned,
    ) -> (out: Result<Vec<Key>, Error>)
        ensures
            keys_view(out) == keys_outcome(
                scan_outcome(
                    self@,
                    memtable@,
                    scanned@,
                    rng.start@,
                    rng.end@,
                    limit,
                    skip,
                    version,
                    Direction::Forward,
                ),
            ),
            out is Ok ==> finite_layers(self@, memtable@, version),
    {
        match self.scan(memtable, rng, limit, skip, version, scanned) {
            Ok(pairs) => Ok(only_keys(pairs)),
            Err(e) => Err(e),
        }
    }

    /// The live keys of the range in descending order.
    pub fn keysr(
        &self,
        memtable: &Memtable,
        rng: &Range<Key>,
        limit: ScanLimit,
        skip: u32,
        version: Option<u64>,
        scanned: Scanned,
    ) -> (out: Result<Vec<Key>, Error>)
        ensures
            keys_view(out) == keys_outcome(
                scan_outcome(
                    self@,
                    memtable@,
                    scanned@,
                    rng.start@,
                    rng.end@,
                    limit,
                    skip,
                    version,
                    Direction::Backward,
                ),
            ),
            out is Ok ==> finite_layers(self@, memtable@, version),
    {
        match self.scanr(memtable, rng, limit, skip, version, scanned) {
            Ok(pairs) => Ok(only_keys(pairs)),
            Err(e) => Err(e),
        }
    }

    /// Remembers what is pending.
    pub fn new_save_point(&mut self) -> (r: Result<(), Error>)
        ensures
            match r {
                Ok(()) => {
                    &&& !old(self)@.done
                    &&& final(self)@ == saved(old(self)@)
                },
                Err(e) => {
                    &&& old(self)@.done
                    &&& e@ == ErrorView::TransactionFinished
                    &&& *final(self) == *old(self)
                },
            },
    {
        if self.done {
            return Err(Error::TransactionFinished);
        }
        let ghost before = self@;
        let snapshot = self.pending.clone();
        self.save_points.push(snapshot);
        proof {
            assert(self@.save_points =~= before.save_points.push(before.pending));
        }
        Ok(())
    }

    /// Makes pending again what was pending at the latest save point, and
    /// forgets that save point.
    pub fn rollback_to_save_point(&mut self) -> (r: Result<(), Error>)
        ensures
            match r {
                Ok(()) => {
                    &&& !old(self)@.done
                    &&& old(self)@.save_points.len() > 0
                    &&& final(self)@ == rolled_back(old(self)@)
                },
                Err(e) => {
                    &&& *final(self) == *old(self)
                    &&& if old(self)@.done {
                        e@ == ErrorView::TransactionFinished
                    } else {
                        old(self)@.save_points.len() == 0 && e@ == ErrorView::NoSavePointPresent
                    }
                },
            },
    {
        if self.done {
            return Err(Error::TransactionFinished);
        }
        let ghost before = self@;
        if self.save_points.len() == 0 {
            return Err(Error::NoSavePointPresent);
        }
        match self.save_points.pop() {
            Some(snapshot) => {
                self.pending = snapshot;
                proof {
                    assert(self@.save_points =~= before.save_points.drop_last());
                }
                Ok(())
            },
            None => Err(Error::NoSavePointPresent),
        }
    }

    /// Forgets the latest save point; what is pending stays.
    pub fn release_last_save_point(&mut self) -> (r: Result<(), Error>)
        ensures
            match r {
                Ok(()) => {
                    &&& !old(self)@.done
                    &&& old(self)@.save_points.len() > 0
                    &&& final(self)@ == released(old(self)@)
                },
                Err(e) => {
                    &&& *final(self) == *old(self)
                    &&& if old(self)@.done {
                        e@ == ErrorView::TransactionFinished
                    } else {
                        old(self)@.save_points.len() == 0 && e@ == ErrorView::NoSavePointPresent
                    }
                },
            },
    {
        if self.done {
            return Err(Error::TransactionFinished);
        }
        let ghost before = self@;
        if self.save_points.len() == 0 {
            return Err(Error::NoSavePointPresent);
        }
        let _ = self.save_points.pop();
        proof {
            assert(self@.save_points =~= before.save_points.drop_last());
        }
        Ok(())
    }
}

} // verus!
