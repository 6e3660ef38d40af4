//! Transactions end to end, over a versioned dataset held in memory. The
//! dataset knows the filters that the library writes, keeps one row for each
//! key, and makes one version of every merge.

use std::collections::{BTreeMap, HashMap};
use std::ops::Range;
use std::sync::Arc;
use std::time::Duration;

use arrow_array::{Array, ArrayRef, BinaryArray, BooleanArray, RecordBatch, UInt64Array};
use arrow_schema::{Field, Schema};
use surreal_lance::kvs::api::{Direction, ScanLimit};
use surreal_lance::kvs::config::{LanceConfig, WritePath};
use surreal_lance::kvs::err::Error;
use surreal_lance::kvs::lance::background_optimizer::{BackgroundOptimizer, OptimizeStep};
use surreal_lance::kvs::lance::columns::Batch;
use surreal_lance::kvs::lance::commit_gate::{
    execute_batch, settle, single_lance_commit, BatchOutcome, Coordinator, GateAction, GateEvent,
    GateReply, Submission,
};
use surreal_lance::kvs::lance::datastore::{
    after_index, after_open, check_seq_column, max_persisted_seq, Datastore, OpenStep, Opened,
    SeqScan,
};
use surreal_lance::kvs::lance::flusher::{on_wake, FlushAction, Wake};
use surreal_lance::kvs::lance::rows::{scan_seqs, scan_versions};
use surreal_lance::kvs::lance::timeline::{lance_version_as_of, TimelineView, VersionInfo};
use surreal_lance::kvs::lance::transaction::{CommitPlan, ScanPlan, Scanned, Snapshot, Transaction};
use surreal_lance::kvs::lance::wal::{WalOp, WalRecord};

type Key = Vec<u8>;
type Val = Vec<u8>;

#[derive(Clone)]
struct Row {
    val: Val,
    version: u64,
    tombstone: bool,
    seq: u64,
}

#[derive(Clone)]
struct Version {
    number: u64,
    at_ms: u64,
    rows: BTreeMap<Key, Row>,
}

/// A dataset, with the clock that stamps its versions.
#[derive(Clone)]
struct Lance {
    versions: Vec<Version>,
    now_ms: u64,
}

fn unhex(s: &str) -> Vec<u8> {
    let s = s.strip_prefix("X'").unwrap().strip_suffix('\'').unwrap();
    (0..s.len() / 2).map(|i| u8::from_str_radix(&s[2 * i..2 * i + 2], 16).unwrap()).collect()
}

fn selected(filter: &Option<String>, key: &Key, row: &Row) -> bool {
    let Some(filter) = filter else {
        return true;
    };
    filter.split(" AND ").all(|term| {
        if term == "tombstone = false" {
            !row.tombstone
        } else if let Some(k) = term.strip_prefix("key = ") {
            *key == unhex(k)
        } else if let Some(k) = term.strip_prefix("key >= ") {
            *key >= unhex(k)
        } else if let Some(k) = term.strip_prefix("key < ") {
            *key < unhex(k)
        } else {
            panic!("unknown term {term}")
        }
    })
}

fn binary(batch: &RecordBatch, name: &str, i: usize) -> Vec<u8> {
    let column = batch.column_by_name(name).unwrap();
    column.as_any().downcast_ref::<BinaryArray>().unwrap().value(i).to_vec()
}

fn number(batch: &RecordBatch, name: &str, i: usize) -> u64 {
    let column = batch.column_by_name(name).unwrap();
    column.as_any().downcast_ref::<UInt64Array>().unwrap().value(i)
}

fn flag(batch: &RecordBatch, name: &str, i: usize) -> bool {
    let column = batch.column_by_name(name).unwrap();
    column.as_any().downcast_ref::<BooleanArray>().unwrap().value(i)
}

impl Lance {
    fn empty() -> Self {
        let first = Version { number: 1, at_ms: 1000, rows: BTreeMap::new() };
        Lance { versions: vec![first], now_ms: 1000 }
    }

    fn latest(&self) -> &Version {
        self.versions.last().unwrap()
    }

    fn pass(&mut self, ms: u64) {
        self.now_ms += ms;
    }

    /// Updates the rows whose keys are there and inserts the others, as one
    /// version.
    fn merge(&mut self, batches: &[Batch]) {
        let mut rows = self.latest().rows.clone();
        for Batch(b) in batches {
            for i in 0..b.num_rows() {
                let row = Row {
                    val: binary(b, "val", i),
                    version: number(b, "version", i),
                    tombstone: flag(b, "tombstone", i),
                    seq: number(b, "seq", i),
                };
                rows.insert(binary(b, "key", i), row);
            }
        }
        let number = self.latest().number + 1;
        self.versions.push(Version { number, at_ms: self.now_ms, rows });
    }

    fn history(&self) -> Vec<(u64, i64)> {
        self.versions.iter().map(|v| (v.number, v.at_ms as i64 * 1000)).collect()
    }

    fn at(&self, snapshot: &Snapshot) -> Option<&Version> {
        match snapshot {
            Snapshot::Latest => Some(self.latest()),
            Snapshot::Version(n) => self.versions.iter().find(|v| v.number == *n),
            Snapshot::AsOf(ms) => {
                let history: Vec<VersionInfo> = self
                    .history()
                    .into_iter()
                    .map(|(version, us)| VersionInfo { version, timestamp_us: Some(us) })
                    .collect();
                let n = lance_version_as_of(&history, *ms)?;
                self.versions.iter().find(|v| v.number == n)
            }
        }
    }

    fn scan(&self, plan: &ScanPlan) -> Scanned {
        let Some(version) = self.at(&plan.snapshot) else {
            return Scanned::NoSnapshot;
        };
        let mut rows: Vec<(&Key, &Row)> =
            version.rows.iter().filter(|(k, r)| selected(&plan.filter, k, r)).collect();
        if plan.direction == Some(Direction::Backward) {
            rows.reverse();
        }
        if let Some(n) = plan.limit {
            rows.truncate(n as usize);
        }
        // Two batches, so that a reader has to join them.
        let (head, tail) = rows.split_at(rows.len() / 2);
        Scanned::Batches(vec![project(head, &plan.columns), project(tail, &plan.columns)])
    }
}

fn project(rows: &[(&Key, &Row)], columns: &[&'static str]) -> Batch {
    let mut fields = Vec::new();
    let mut arrays: Vec<ArrayRef> = Vec::new();
    for name in columns {
        let array: ArrayRef = match *name {
            "key" => Arc::new(BinaryArray::from_iter_values(rows.iter().map(|(k, _)| k))),
            "val" => Arc::new(BinaryArray::from_iter_values(rows.iter().map(|(_, r)| &r.val))),
            "version" => {
                Arc::new(UInt64Array::from(rows.iter().map(|(_, r)| r.version).collect::<Vec<_>>()))
            }
            "seq" => {
                Arc::new(UInt64Array::from(rows.iter().map(|(_, r)| r.seq).collect::<Vec<_>>()))
            }
            "tombstone" => Arc::new(BooleanArray::from(
                rows.iter().map(|(_, r)| r.tombstone).collect::<Vec<_>>(),
            )),
            other => panic!("unknown column {other}"),
        };
        fields.push(Field::new(*name, array.data_type().clone(), true));
        arrays.push(array);
    }
    Batch(RecordBatch::try_new(Arc::new(Schema::new(fields)), arrays).unwrap())
}

/// A datastore over a dataset and a log.
struct Store {
    ds: Datastore,
    lance: Lance,
    log: Vec<WalRecord>,
}

fn copy_record(r: &WalRecord) -> WalRecord {
    let ops = r
        .ops
        .iter()
        .map(|op| match op {
            WalOp::Write { key, val } => WalOp::Write { key: key.clone(), val: val.clone() },
            WalOp::Delete { key } => WalOp::Delete { key: key.clone() },
        })
        .collect();
    WalRecord { generation: r.generation, ops }
}

impl Store {
    fn open(disk: Option<Lance>, log: Vec<WalRecord>, config: LanceConfig) -> Result<Self, Error> {
        let opened = if disk.is_some() { Opened::Found } else { Opened::NotFound };
        let lance = match after_open(opened)? {
            OpenStep::UseExisting => disk.unwrap(),
            OpenStep::CreateEmpty => Lance::empty(),
        };
        after_index(Ok(()))?;
        let rows: Vec<(&Key, &Row)> = lance.latest().rows.iter().collect();
        let seqs = SeqScan::Batches(vec![project(&rows, &["seq"])]);
        check_seq_column(&seqs)?;
        let floor = max_persisted_seq(&seqs);
        let ds = Datastore::new(&config, Some((1_000_000_000, 3)), floor, &log);
        Ok(Store { ds, lance, log })
    }

    fn new(config: LanceConfig) -> Self {
        Store::open(None, Vec::new(), config).expect("create")
    }

    fn current_version(&self) -> u64 {
        self.lance.latest().number
    }

    fn transaction(&self, write: bool) -> Transaction {
        self.ds.transaction(write, self.current_version())
    }

    fn get(&self, tx: &Transaction, key: &[u8], version: Option<u64>) -> Result<Option<Val>, Error> {
        let key = key.to_vec();
        let scanned = match tx.get_plan(self.ds.memtable(), &key, version)? {
            Some(plan) => self.lance.scan(&plan),
            None => Scanned::NoSnapshot,
        };
        tx.get(self.ds.memtable(), &key, version, scanned)
    }

    fn found(&self, tx: &Transaction, key: &[u8], version: Option<u64>) -> Result<bool, Error> {
        let key = key.to_vec();
        let scanned = match tx.get_plan(self.ds.memtable(), &key, version)? {
            Some(plan) => self.lance.scan(&plan),
            None => Scanned::NoSnapshot,
        };
        tx.key_exists(self.ds.memtable(), &key, version, scanned)
    }

    fn put(&self, tx: &mut Transaction, key: &[u8], val: &[u8]) -> Result<(), Error> {
        let taken = self.found(tx, key, None);
        tx.put(key.to_vec(), val.to_vec(), taken)
    }

    fn putc(
        &self,
        tx: &mut Transaction,
        key: &[u8],
        val: &[u8],
        chk: Option<&[u8]>,
    ) -> Result<(), Error> {
        let current = self.get(tx, key, None);
        tx.putc(key.to_vec(), val.to_vec(), chk.map(|c| c.to_vec()), current)
    }

    fn delc(&self, tx: &mut Transaction, key: &[u8], chk: Option<&[u8]>) -> Result<(), Error> {
        let current = self.get(tx, key, None);
        tx.delc(key.to_vec(), chk.map(|c| c.to_vec()), current)
    }

    fn scanned(&self, tx: &Transaction, rng: &Range<Key>, direction: Direction) -> Scanned {
        match tx.scan_plan(rng, None, direction) {
            Ok(plan) => self.lance.scan(&plan),
            Err(_) => Scanned::NoSnapshot,
        }
    }

    fn scan(
        &self,
        tx: &Transaction,
        rng: Range<Key>,
        limit: ScanLimit,
        skip: u32,
    ) -> Result<Vec<(Key, Val)>, Error> {
        let scanned = self.scanned(tx, &rng, Direction::Forward);
        tx.scan(self.ds.memtable(), &rng, limit, skip, None, scanned)
    }

    fn scanr(
        &self,
        tx: &Transaction,
        rng: Range<Key>,
        limit: ScanLimit,
        skip: u32,
    ) -> Result<Vec<(Key, Val)>, Error> {
        let scanned = self.scanned(tx, &rng, Direction::Backward);
        tx.scanr(self.ds.memtable(), &rng, limit, skip, None, scanned)
    }

    /// Merges a batch of the commit gate.
    fn merge(&mut self, batch: Vec<Submission>) -> Result<(), Error> {
        let batches = single_lance_commit(&execute_batch(batch))?;
        self.lance.merge(&batches);
        Ok(())
    }

    fn commit(&mut self, tx: &mut Transaction) -> Result<(), Error> {
        match tx.commit()? {
            CommitPlan::Finished => return Ok(()),
            CommitPlan::Lsm { writes, deletes } => {
                let commit = self.ds.commit_lsm(&writes, &deletes);
                self.log.push(copy_record(&commit.record));
                self.ds.apply_lsm(&commit);
            }
            CommitPlan::Gate { writes, deletes, version } => {
                let mut gate = Coordinator::new();
                let submission = Submission { writes, deletes, version };
                let mut action = gate.step(GateEvent::Submitted(submission));
                while matches!(action, GateAction::AwaitMore) {
                    action = gate.step(GateEvent::WindowExpired);
                }
                let GateAction::Execute(batch) = action else {
                    panic!("the window has passed");
                };
                let merged = self.merge(batch);
                settle(GateReply::Answered(BatchOutcome::of_merge(&merged)))?;
            }
        }
        tx.commit_landed();
        self.ds.after_commit();
        Ok(())
    }

    fn flush(&mut self) -> usize {
        let Some(settings) = self.ds.flusher() else {
            return 0;
        };
        let bound = self.ds.flush_bound();
        let late = Duration::from_secs(1);
        let wake = on_wake(&settings, self.ds.memtable(), bound, Wake::Tick, late);
        let FlushAction::Flush(up_to) = wake else {
            return 0;
        };
        let Some(plan) = self.ds.plan_flush(up_to) else {
            return 0;
        };
        let batches = single_lance_commit(&plan.source).unwrap();
        self.lance.merge(&batches);
        let count = self.ds.complete_flush(&plan);
        self.log.retain(|r| r.generation >= plan.keep_from);
        count
    }

    fn view(&self, version: u64) -> Result<TimelineView, Error> {
        let timeline = self.ds.timeline(self.current_version());
        let checkout = match self.lance.at(&Snapshot::Version(version)) {
            Some(_) => Ok(()),
            None => Err("no such version".to_string()),
        };
        timeline.view_at(version, checkout)
    }

    fn view_get(&self, view: &TimelineView, key: &[u8]) -> Option<Val> {
        let Scanned::Batches(batches) = self.lance.scan(&view.get_plan(&key.to_vec())) else {
            panic!("the version is there");
        };
        view.get(&batches).expect("read")
    }
}

fn default_store() -> Store {
    Store::new(LanceConfig::default())
}

fn seed_a_to_e(store: &mut Store) {
    let mut tx = store.transaction(true);
    for (k, v) in [("a", "1"), ("b", "2"), ("c", "3"), ("d", "4"), ("e", "5")] {
        tx.set(k.as_bytes().to_vec(), v.as_bytes().to_vec()).expect("set");
    }
    store.commit(&mut tx).expect("commit");
}

fn key_list(pairs: &[(Key, Val)]) -> Vec<&[u8]> {
    pairs.iter().map(|(k, _)| k.as_slice()).collect()
}

fn a_to_z() -> Range<Key> {
    b"a".to_vec()..b"z".to_vec()
}

// --- opening ---------------------------------------------------------------

#[test]
fn test_open_creates_new_dataset() {
    let store = default_store();
    let _v = store.current_version();
    assert!(store.lance.latest().rows.is_empty());
}

#[test]
fn test_open_existing_dataset_succeeds() {
    let mut store = default_store();
    seed_a_to_e(&mut store);
    let again = Store::open(Some(store.lance), Vec::new(), LanceConfig::default()).expect("open");
    let tx = again.transaction(false);
    assert_eq!(again.get(&tx, b"a", None).expect("get").as_deref(), Some(b"1".as_ref()));
}

#[test]
fn test_current_version_is_queryable() {
    let store = default_store();
    let v = store.current_version();
    assert!(v < u64::MAX, "current_version should be a small u64, got {}", v);
}

#[test]
fn open_failures_are_reported() {
    let e = after_open(Opened::Failed("disk".to_string())).unwrap_err();
    assert_eq!(e.message(), "There was a problem with the datastore: lance open: disk");
    assert!(after_index(Err("index already exists here".to_string())).is_ok());
    let e = after_index(Err("no space".to_string())).unwrap_err();
    assert!(matches!(e, Error::Datastore(m) if m == "create_index: no space"));
    let Err(Error::Datastore(message)) = check_seq_column(&SeqScan::NoColumn) else {
        panic!("the column is needed");
    };
    assert_eq!(
        message,
        "Lance dataset predates the `seq` column (pre-release on-disk format change); \
         a backfill/migration is required before writes"
    );
    assert!(check_seq_column(&SeqScan::Batches(vec![])).is_ok());
    assert_eq!(max_persisted_seq(&SeqScan::NoColumn), 0);
    assert_eq!(max_persisted_seq(&SeqScan::Batches(vec![])), 0);
}

// --- lifecycle ---------------------------------------------------------------

#[test]
fn test_kind_is_lance() {
    let store = default_store();
    let mut tx = store.transaction(false);
    assert_eq!(tx.kind(), "lance", "kind() must be the stable 'lance' id");
    tx.cancel().expect("cancel");
}

#[test]
fn test_writeable_reflects_open_flag() {
    let store = default_store();
    let rw = store.transaction(true);
    assert!(rw.writeable(), "tx opened with write=true must be writeable");
    let ro = store.transaction(false);
    assert!(!ro.writeable(), "tx opened with write=false must not be writeable");
}

#[test]
fn test_closed_is_sticky_after_commit() {
    let mut store = default_store();
    let mut tx = store.transaction(true);
    assert!(!tx.closed(), "fresh tx must not be closed");
    tx.set(b"k".to_vec(), b"v".to_vec()).expect("set");
    store.commit(&mut tx).expect("commit");
    assert!(tx.closed(), "tx must be closed after commit");

    let err = store.get(&tx, b"k", None).expect_err("get after commit must fail");
    assert!(
        matches!(err, Error::TransactionFinished),
        "expected TransactionFinished after commit, got {:?}",
        err
    );
    let err = tx.set(b"k2".to_vec(), b"v2".to_vec()).expect_err("set after commit must fail");
    assert!(
        matches!(err, Error::TransactionFinished),
        "expected TransactionFinished after commit, got {:?}",
        err
    );
}

#[test]
fn test_closed_is_sticky_after_cancel() {
    let store = default_store();
    let mut tx = store.transaction(true);
    assert!(!tx.closed(), "fresh tx must not be closed");
    tx.cancel().expect("cancel");
    assert!(tx.closed(), "tx must be closed after cancel");

    let err = store.get(&tx, b"k", None).expect_err("get after cancel must fail");
    assert!(
        matches!(err, Error::TransactionFinished),
        "expected TransactionFinished after cancel, got {:?}",
        err
    );
}

#[test]
fn test_write_on_readonly_tx_errors() {
    let store = default_store();
    let mut tx = store.transaction(false);
    let err = tx.set(b"k".to_vec(), b"v".to_vec()).expect_err("set on ro tx must fail");
    assert!(
        matches!(err, Error::TransactionReadonly),
        "expected TransactionReadonly, got {:?}",
        err
    );
}

#[test]
fn finished_transactions_refuse_everything() {
    let mut store = default_store();
    let mut tx = store.transaction(true);
    tx.cancel().unwrap();
    assert!(matches!(tx.cancel(), Err(Error::TransactionFinished)));
    assert!(matches!(store.commit(&mut tx), Err(Error::TransactionFinished)));
    assert!(matches!(tx.del(b"k".to_vec()), Err(Error::TransactionFinished)));
    assert!(matches!(store.put(&mut tx, b"k", b"v"), Err(Error::TransactionFinished)));
    assert!(matches!(
        store.putc(&mut tx, b"k", b"v", None),
        Err(Error::TransactionFinished)
    ));
    assert!(matches!(store.delc(&mut tx, b"k", None), Err(Error::TransactionFinished)));
    assert!(matches!(
        store.scan(&tx, a_to_z(), ScanLimit::Count(1), 0),
        Err(Error::TransactionFinished)
    ));
    assert!(matches!(tx.new_save_point(), Err(Error::TransactionFinished)));
    assert!(matches!(tx.rollback_to_save_point(), Err(Error::TransactionFinished)));
    assert!(matches!(tx.release_last_save_point(), Err(Error::TransactionFinished)));
}

#[test]
fn a_failed_scan_fails_the_read() {
    let store = default_store();
    let tx = store.transaction(false);
    let failed = Scanned::Failed(Error::Datastore("disk".to_string()));
    let r = tx.get(store.ds.memtable(), &b"k".to_vec(), None, failed);
    assert!(matches!(r, Err(Error::Datastore(_))));
}

// --- reads --------------------------------------------------------------------

#[test]
fn test_get_missing_key_returns_none() {
    let store = default_store();
    let tx = store.transaction(true);
    let result = store.get(&tx, b"absent-key", None).expect("get");
    assert!(result.is_none(), "expected None for missing key, got {:?}", result);
}

#[test]
fn test_get_after_set_returns_pending_value() {
    let store = default_store();
    let mut tx = store.transaction(true);
    tx.set(b"k1".to_vec(), b"v1".to_vec()).expect("set");
    let result = store.get(&tx, b"k1", None).expect("get");
    assert_eq!(
        result.as_deref(),
        Some(b"v1".as_ref()),
        "RYW failed: expected Some(v1), got {:?}",
        result
    );
}

#[test]
fn test_get_after_set_then_del_in_pending_returns_none() {
    let store = default_store();
    let mut tx = store.transaction(true);
    tx.set(b"k1".to_vec(), b"v1".to_vec()).expect("set");
    tx.del(b"k1".to_vec()).expect("del");
    let result = store.get(&tx, b"k1", None).expect("get");
    assert!(
        result.is_none(),
        "pending delete should hide pending set, got {:?}",
        result
    );
}

#[test]
fn test_exists_mirrors_get() {
    let store = default_store();
    let mut tx = store.transaction(true);
    assert!(!store.found(&tx, b"k1", None).expect("exists 1"));
    tx.set(b"k1".to_vec(), b"v1".to_vec()).expect("set");
    assert!(store.found(&tx, b"k1", None).expect("exists 2"));
}

#[test]
fn test_exists_sees_committed_row() {
    let mut store = default_store();
    let mut tx = store.transaction(true);
    tx.set(b"k1".to_vec(), b"v1".to_vec()).expect("set");
    store.commit(&mut tx).expect("commit");

    let tx = store.transaction(false);
    assert!(store.found(&tx, b"k1", None).expect("exists committed"));
    assert!(!store.found(&tx, b"absent", None).expect("exists absent"));
}

// --- commits --------------------------------------------------------------------

#[test]
fn test_set_commit_get_roundtrip() {
    let mut store = default_store();
    let mut tx = store.transaction(true);
    tx.set(b"k1".to_vec(), b"v1".to_vec()).expect("set");
    store.commit(&mut tx).expect("commit");

    let tx = store.transaction(false);
    let result = store.get(&tx, b"k1", None).expect("get");
    assert_eq!(
        result.as_deref(),
        Some(b"v1".as_ref()),
        "set+commit+get failed: expected Some(v1), got {:?}",
        result
    );
}

#[test]
fn test_cancel_discards_pending_writes() {
    let store = default_store();
    let mut tx = store.transaction(true);
    tx.set(b"k1".to_vec(), b"v1".to_vec()).expect("set");
    tx.cancel().expect("cancel");

    let tx = store.transaction(false);
    let result = store.get(&tx, b"k1", None).expect("get");
    assert!(result.is_none(), "cancel should discard pending writes; got {:?}", result);
}

#[test]
fn test_multiple_sets_commit_atomically() {
    let mut store = default_store();
    let mut tx = store.transaction(true);
    tx.set(b"a".to_vec(), b"1".to_vec()).expect("set a");
    tx.set(b"b".to_vec(), b"2".to_vec()).expect("set b");
    tx.set(b"c".to_vec(), b"3".to_vec()).expect("set c");
    store.commit(&mut tx).expect("commit");

    let tx = store.transaction(false);
    for (k, v) in [(b"a".as_ref(), b"1".as_ref()), (b"b", b"2"), (b"c", b"3")] {
        let result = store.get(&tx, k, None).expect("get");
        assert_eq!(
            result.as_deref(),
            Some(v),
            "multi-set commit missing key {:?}: got {:?}",
            k,
            result
        );
    }
}

#[test]
fn test_del_after_commit_hides_value() {
    let mut store = default_store();
    let mut tx = store.transaction(true);
    tx.set(b"k1".to_vec(), b"v1".to_vec()).expect("set");
    store.commit(&mut tx).expect("commit set");

    let tx = store.transaction(false);
    let result = store.get(&tx, b"k1", None).expect("get pre-del");
    assert_eq!(
        result.as_deref(),
        Some(b"v1".as_ref()),
        "pre-delete sanity failed; got {:?}",
        result
    );

    let mut tx = store.transaction(true);
    tx.del(b"k1".to_vec()).expect("del");
    store.commit(&mut tx).expect("commit del");

    let tx = store.transaction(false);
    let result = store.get(&tx, b"k1", None).expect("get post-del");
    assert!(result.is_none(), "del+commit should hide value; got {:?}", result);
}

#[test]
fn an_empty_commit_makes_no_version() {
    let mut store = default_store();
    let before = store.current_version();
    let mut tx = store.transaction(true);
    store.commit(&mut tx).expect("commit");
    assert!(tx.closed());
    assert_eq!(store.current_version(), before);
}

#[test]
fn a_transaction_reads_the_version_it_was_opened_at() {
    let mut store = default_store();
    seed_a_to_e(&mut store);
    let early = store.transaction(false);
    let mut tx = store.transaction(true);
    tx.set(b"a".to_vec(), b"new".to_vec()).unwrap();
    store.commit(&mut tx).unwrap();
    assert_eq!(store.get(&early, b"a", None).unwrap().as_deref(), Some(b"1".as_ref()));
    let late = store.transaction(false);
    assert_eq!(store.get(&late, b"a", None).unwrap().as_deref(), Some(b"new".as_ref()));
}

// --- conditional writes -----------------------------------------------------------

#[test]
fn test_put_succeeds_on_missing() {
    let mut store = default_store();
    let mut tx = store.transaction(true);
    store.put(&mut tx, b"k1", b"v1").expect("put missing");
    store.commit(&mut tx).expect("commit");

    let tx2 = store.transaction(false);
    assert_eq!(store.get(&tx2, b"k1", None).expect("get").as_deref(), Some(b"v1".as_ref()));
}

#[test]
fn test_put_fails_on_existing() {
    let mut store = default_store();
    let mut tx = store.transaction(true);
    tx.set(b"k1".to_vec(), b"v1".to_vec()).expect("set");
    store.commit(&mut tx).expect("commit");

    let mut tx = store.transaction(true);
    let err = store.put(&mut tx, b"k1", b"v2").expect_err("put should fail");
    assert!(
        matches!(err, Error::TransactionKeyAlreadyExists),
        "expected TransactionKeyAlreadyExists, got {:?}",
        err
    );
}

#[test]
fn test_putc_matching_value_succeeds() {
    let mut store = default_store();
    let mut tx = store.transaction(true);
    tx.set(b"k1".to_vec(), b"v1".to_vec()).expect("set");
    store.commit(&mut tx).expect("commit");

    let mut tx = store.transaction(true);
    store.putc(&mut tx, b"k1", b"v2", Some(b"v1")).expect("putc match");
    store.commit(&mut tx).expect("commit");

    let tx = store.transaction(false);
    assert_eq!(store.get(&tx, b"k1", None).expect("get").as_deref(), Some(b"v2".as_ref()));
}

#[test]
fn test_putc_mismatched_value_fails() {
    let mut store = default_store();
    let mut tx = store.transaction(true);
    tx.set(b"k1".to_vec(), b"v1".to_vec()).expect("set");
    store.commit(&mut tx).expect("commit");

    let mut tx = store.transaction(true);
    let err = store.putc(&mut tx, b"k1", b"v2", Some(b"wrong")).expect_err("putc should fail");
    assert!(
        matches!(err, Error::TransactionConditionNotMet),
        "expected TransactionConditionNotMet, got {:?}",
        err
    );
}

#[test]
fn test_putc_none_chk_on_missing_succeeds() {
    let mut store = default_store();
    let mut tx = store.transaction(true);
    store.putc(&mut tx, b"k1", b"v1", None).expect("putc None on missing");
    store.commit(&mut tx).expect("commit");

    let tx2 = store.transaction(false);
    assert_eq!(store.get(&tx2, b"k1", None).expect("get").as_deref(), Some(b"v1".as_ref()));
}

#[test]
fn test_putc_none_chk_on_existing_fails() {
    let mut store = default_store();
    let mut tx = store.transaction(true);
    tx.set(b"k1".to_vec(), b"v1".to_vec()).expect("set");
    store.commit(&mut tx).expect("commit");

    let mut tx = store.transaction(true);
    let err =
        store.putc(&mut tx, b"k1", b"v2", None).expect_err("putc None on existing must fail");
    assert!(
        matches!(err, Error::TransactionConditionNotMet),
        "expected TransactionConditionNotMet, got {:?}",
        err
    );
}

#[test]
fn test_delc_matching_value_succeeds() {
    let mut store = default_store();
    let mut tx = store.transaction(true);
    tx.set(b"k1".to_vec(), b"v1".to_vec()).expect("set");
    store.commit(&mut tx).expect("commit");

    let mut tx = store.transaction(true);
    store.delc(&mut tx, b"k1", Some(b"v1")).expect("delc match");
    store.commit(&mut tx).expect("commit");

    let tx = store.transaction(false);
    assert!(store.get(&tx, b"k1", None).expect("get").is_none());
}

#[test]
fn test_delc_mismatched_value_fails() {
    let mut store = default_store();
    let mut tx = store.transaction(true);
    tx.set(b"k1".to_vec(), b"v1".to_vec()).expect("set");
    store.commit(&mut tx).expect("commit");

    let mut tx = store.transaction(true);
    let err = store.delc(&mut tx, b"k1", Some(b"wrong")).expect_err("delc should fail");
    assert!(
        matches!(err, Error::TransactionConditionNotMet),
        "expected TransactionConditionNotMet, got {:?}",
        err
    );
    tx.cancel().expect("cancel");

    let tx = store.transaction(false);
    assert_eq!(
        store.get(&tx, b"k1", None).expect("get").as_deref(),
        Some(b"v1".as_ref()),
        "delc with wrong chk should NOT delete the value"
    );
}

#[test]
fn test_delc_none_chk_on_missing_is_noop() {
    let mut store = default_store();
    let mut tx = store.transaction(true);
    store.delc(&mut tx, b"absent", None).expect("delc None on missing is no-op");
    store.commit(&mut tx).expect("commit");
}

#[test]
fn test_set_then_set_returns_latest_value() {
    let mut store = default_store();
    let mut tx = store.transaction(true);
    tx.set(b"k".to_vec(), b"v1".to_vec()).expect("set v1");
    store.commit(&mut tx).expect("commit v1");

    let mut tx = store.transaction(true);
    tx.set(b"k".to_vec(), b"v2".to_vec()).expect("set v2");
    store.commit(&mut tx).expect("commit v2");

    let tx = store.transaction(false);
    let result = store.get(&tx, b"k", None).expect("get");
    assert_eq!(
        result.as_deref(),
        Some(b"v2".as_ref()),
        "set-after-set must return latest value; got {:?}",
        result
    );
}

// --- scans ------------------------------------------------------------------------

#[test]
fn test_scan_forward_returns_all_in_order() {
    let mut store = default_store();
    seed_a_to_e(&mut store);
    let tx = store.transaction(false);
    let result = store.scan(&tx, a_to_z(), ScanLimit::Count(100), 0).expect("scan");
    assert_eq!(
        key_list(&result),
        vec![b"a".as_ref(), b"b", b"c", b"d", b"e"],
        "scan forward should return ascending"
    );
    let vals: Vec<&[u8]> = result.iter().map(|(_, v)| v.as_slice()).collect();
    assert_eq!(vals, vec![b"1".as_ref(), b"2", b"3", b"4", b"5"]);
}

#[test]
fn test_scanr_reverse_returns_all_in_descending_order() {
    let mut store = default_store();
    seed_a_to_e(&mut store);
    let tx = store.transaction(false);
    let result = store.scanr(&tx, a_to_z(), ScanLimit::Count(100), 0).expect("scanr");
    assert_eq!(
        key_list(&result),
        vec![b"e".as_ref(), b"d", b"c", b"b", b"a"],
        "scanr should return descending"
    );
}

#[test]
fn test_scan_skip_and_limit() {
    let mut store = default_store();
    seed_a_to_e(&mut store);
    let tx = store.transaction(false);
    let result = store.scan(&tx, a_to_z(), ScanLimit::Count(2), 2).expect("scan");
    assert_eq!(
        key_list(&result),
        vec![b"c".as_ref(), b"d"],
        "skip 2 take 2 should yield c,d"
    );
}

#[test]
fn test_scan_half_open_range_excludes_end() {
    let mut store = default_store();
    seed_a_to_e(&mut store);
    let tx = store.transaction(false);
    let result = store
        .scan(&tx, b"b".to_vec()..b"d".to_vec(), ScanLimit::Count(100), 0)
        .expect("scan");
    assert_eq!(
        key_list(&result),
        vec![b"b".as_ref(), b"c"],
        "range [b, d) should yield b,c only"
    );
}

#[test]
fn test_scan_pending_set_appears_in_results() {
    let mut store = default_store();
    seed_a_to_e(&mut store);
    let mut tx = store.transaction(true);
    tx.set(b"bb".to_vec(), b"22".to_vec()).expect("set pending");
    let result = store.scan(&tx, a_to_z(), ScanLimit::Count(100), 0).expect("scan");
    assert_eq!(
        key_list(&result),
        vec![b"a".as_ref(), b"b", b"bb", b"c", b"d", b"e"],
        "pending Set 'bb' should appear in order"
    );
}

#[test]
fn test_scan_pending_set_overrides_stored_value() {
    let mut store = default_store();
    seed_a_to_e(&mut store);
    let mut tx = store.transaction(true);
    tx.set(b"c".to_vec(), b"33".to_vec()).expect("override c");
    let result = store.scan(&tx, a_to_z(), ScanLimit::Count(100), 0).expect("scan");
    let pair_c = result.iter().find(|(k, _)| k.as_slice() == b"c").expect("c present");
    assert_eq!(
        pair_c.1.as_slice(),
        b"33",
        "pending override of stored 'c' must win; got {:?}",
        pair_c.1
    );
    let count_c = result.iter().filter(|(k, _)| k.as_slice() == b"c").count();
    assert_eq!(count_c, 1, "merged scan must dedupe 'c' to a single row, got {}", count_c);
}

#[test]
fn test_scan_pending_delete_hides_stored_row() {
    let mut store = default_store();
    seed_a_to_e(&mut store);
    let mut tx = store.transaction(true);
    tx.del(b"c".to_vec()).expect("del pending");
    let result = store.scan(&tx, a_to_z(), ScanLimit::Count(100), 0).expect("scan");
    assert_eq!(
        key_list(&result),
        vec![b"a".as_ref(), b"b", b"d", b"e"],
        "pending Delete of 'c' should hide it"
    );
}

#[test]
fn test_keys_returns_keys_only() {
    let mut store = default_store();
    seed_a_to_e(&mut store);
    let tx = store.transaction(false);
    let rng = a_to_z();
    let scanned = store.scanned(&tx, &rng, Direction::Forward);
    let result = tx
        .keys(store.ds.memtable(), &rng, ScanLimit::Count(100), 0, None, scanned)
        .expect("keys");
    let keys: Vec<&[u8]> = result.iter().map(|k| k.as_slice()).collect();
    assert_eq!(keys, vec![b"a".as_ref(), b"b", b"c", b"d", b"e"]);
}

#[test]
fn test_keysr_returns_keys_in_reverse() {
    let mut store = default_store();
    seed_a_to_e(&mut store);
    let tx = store.transaction(false);
    let rng = a_to_z();
    let scanned = store.scanned(&tx, &rng, Direction::Backward);
    let result = tx
        .keysr(store.ds.memtable(), &rng, ScanLimit::Count(100), 0, None, scanned)
        .expect("keysr");
    let keys: Vec<&[u8]> = result.iter().map(|k| k.as_slice()).collect();
    assert_eq!(keys, vec![b"e".as_ref(), b"d", b"c", b"b", b"a"]);
}

#[test]
fn pages_of_a_scan_join_to_the_whole() {
    let mut store = default_store();
    seed_a_to_e(&mut store);
    let tx = store.transaction(false);
    let whole = store.scan(&tx, a_to_z(), ScanLimit::Count(100), 0).unwrap();
    let mut joined = store.scan(&tx, a_to_z(), ScanLimit::Count(2), 0).unwrap();
    joined.extend(store.scan(&tx, a_to_z(), ScanLimit::Count(100), 2).unwrap());
    assert_eq!(joined, whole);
    assert!(store.scan(&tx, a_to_z(), ScanLimit::Count(0), 0).unwrap().is_empty());
    assert!(store.scan(&tx, a_to_z(), ScanLimit::Count(9), 9).unwrap().is_empty());
}

#[test]
fn test_scan_limit_bytes_stops_at_budget() {
    let mut store = default_store();
    seed_a_to_e(&mut store);
    let tx = store.transaction(false);
    let result = store.scan(&tx, a_to_z(), ScanLimit::Bytes(5), 0).expect("scan");
    assert_eq!(
        result.len(),
        3,
        "Bytes(5) over 2-byte rows should yield 3, got {}",
        result.len()
    );
}

#[test]
fn test_scan_limit_bytes_large_budget_returns_all() {
    let mut store = default_store();
    seed_a_to_e(&mut store);
    let tx = store.transaction(false);
    let result = store.scan(&tx, a_to_z(), ScanLimit::Bytes(1_000_000), 0).expect("scan");
    assert_eq!(result.len(), 5, "large budget should yield all 5 seeded keys");
}

#[test]
fn test_scan_limit_bytes_or_count_count_wins() {
    let mut store = default_store();
    seed_a_to_e(&mut store);
    let tx = store.transaction(false);
    let result =
        store.scan(&tx, a_to_z(), ScanLimit::BytesOrCount(1_000_000, 2), 0).expect("scan");
    assert_eq!(
        result.len(),
        2,
        "BytesOrCount(huge, 2) should be capped at count=2, got {}",
        result.len()
    );
}

#[test]
fn test_scan_limit_bytes_or_count_bytes_wins() {
    let mut store = default_store();
    seed_a_to_e(&mut store);
    let tx = store.transaction(false);
    let result = store.scan(&tx, a_to_z(), ScanLimit::BytesOrCount(3, 100), 0).expect("scan");
    assert_eq!(
        result.len(),
        2,
        "BytesOrCount(3, 100) should hit bytes after 2 rows, got {}",
        result.len()
    );
}

// --- save points --------------------------------------------------------------------

#[test]
fn test_savepoint_rollback_reverts_pending() {
    let store = default_store();
    let mut tx = store.transaction(true);
    tx.set(b"k1".to_vec(), b"v1".to_vec()).expect("set v1");
    tx.new_save_point().expect("save_point");
    tx.set(b"k1".to_vec(), b"v2".to_vec()).expect("set v2");
    tx.set(b"k2".to_vec(), b"x".to_vec()).expect("set k2");
    tx.rollback_to_save_point().expect("rollback");

    assert_eq!(
        store.get(&tx, b"k1", None).expect("get k1").as_deref(),
        Some(b"v1".as_ref()),
        "rollback should restore k1=v1"
    );
    assert!(
        store.get(&tx, b"k2", None).expect("get k2").is_none(),
        "rollback should remove k2"
    );
}

#[test]
fn test_savepoint_rollback_restores_deleted_key() {
    let store = default_store();
    let mut tx = store.transaction(true);
    tx.set(b"k1".to_vec(), b"v1".to_vec()).expect("set v1");
    tx.new_save_point().expect("save_point");
    tx.del(b"k1".to_vec()).expect("del inside sp");
    assert!(
        store.get(&tx, b"k1", None).expect("get pre-rollback").is_none(),
        "delete must be visible before rollback"
    );
    tx.rollback_to_save_point().expect("rollback");

    assert_eq!(
        store.get(&tx, b"k1", None).expect("get post-rollback").as_deref(),
        Some(b"v1".as_ref()),
        "rollback must undo the staged delete and restore k1=v1"
    );
}

#[test]
fn test_savepoint_release_keeps_pending() {
    let store = default_store();
    let mut tx = store.transaction(true);
    tx.set(b"k1".to_vec(), b"v1".to_vec()).expect("set v1");
    tx.new_save_point().expect("save_point");
    tx.set(b"k1".to_vec(), b"v2".to_vec()).expect("set v2");
    tx.release_last_save_point().expect("release");

    assert_eq!(
        store.get(&tx, b"k1", None).expect("get k1").as_deref(),
        Some(b"v2".as_ref()),
        "release should NOT revert k1"
    );
}

#[test]
fn test_nested_savepoints() {
    let store = default_store();
    let mut tx = store.transaction(true);
    tx.set(b"a".to_vec(), b"A".to_vec()).expect("set a");
    tx.new_save_point().expect("sp1");
    tx.set(b"b".to_vec(), b"B".to_vec()).expect("set b");
    tx.new_save_point().expect("sp2");
    tx.set(b"c".to_vec(), b"C".to_vec()).expect("set c");

    tx.rollback_to_save_point().expect("rollback to sp2");
    assert_eq!(store.get(&tx, b"a", None).expect("get a").as_deref(), Some(b"A".as_ref()));
    assert_eq!(store.get(&tx, b"b", None).expect("get b").as_deref(), Some(b"B".as_ref()));
    assert!(store.get(&tx, b"c", None).expect("get c").is_none());

    tx.rollback_to_save_point().expect("rollback to sp1");
    assert_eq!(store.get(&tx, b"a", None).expect("get a").as_deref(), Some(b"A".as_ref()));
    assert!(store.get(&tx, b"b", None).expect("get b").is_none());
}

#[test]
fn test_savepoint_rollback_with_no_savepoint_errors() {
    let store = default_store();
    let mut tx = store.transaction(true);
    let err = tx.rollback_to_save_point().expect_err("should error");
    assert!(
        matches!(err, Error::NoSavePointPresent),
        "expected NoSavePointPresent, got {:?}",
        err
    );
}

#[test]
fn test_savepoint_release_with_no_savepoint_errors() {
    let store = default_store();
    let mut tx = store.transaction(true);
    let err = tx.release_last_save_point().expect_err("should error");
    assert!(
        matches!(err, Error::NoSavePointPresent),
        "expected NoSavePointPresent, got {:?}",
        err
    );
}

// --- reads of the past -----------------------------------------------------------------

#[test]
fn test_get_at_specific_version() {
    let mut store = default_store();
    let t_before = store.lance.now_ms;
    store.lance.pass(50);

    let mut tx = store.transaction(true);
    tx.set(b"k".to_vec(), b"v1".to_vec()).expect("set v1");
    store.commit(&mut tx).expect("commit v1");

    store.lance.pass(50);
    let t_between = store.lance.now_ms;
    store.lance.pass(50);

    let mut tx = store.transaction(true);
    tx.set(b"k".to_vec(), b"v2".to_vec()).expect("set v2");
    store.commit(&mut tx).expect("commit v2");

    let tx = store.transaction(false);
    assert_eq!(
        store.get(&tx, b"k", None).expect("get now").as_deref(),
        Some(b"v2".as_ref()),
        "latest read should be v2",
    );
    assert_eq!(
        store.get(&tx, b"k", Some(t_between)).expect("get as-of-between").as_deref(),
        Some(b"v1".as_ref()),
        "AS OF an instant between v1 and v2 must read v1",
    );
    assert!(
        store.get(&tx, b"k", Some(t_before)).expect("get as-of-before").is_none(),
        "AS OF a pre-write instant must return None",
    );
    assert!(store.get(&tx, b"k", Some(0)).expect("before the dataset").is_none());
}

#[test]
fn test_versioned_query_with_versioned_false_errors() {
    let store = Store::new(LanceConfig { versioned: false, ..LanceConfig::default() });
    let tx = store.transaction(false);
    let err = store.get(&tx, b"k", Some(0)).expect_err("should error");
    assert!(
        matches!(err, Error::UnsupportedVersionedQueries),
        "expected UnsupportedVersionedQueries, got {:?}",
        err
    );
}

#[test]
fn test_exists_versioned_with_versioned_false_errors() {
    let store = Store::new(LanceConfig { versioned: false, ..LanceConfig::default() });
    let tx = store.transaction(false);
    let err = store.found(&tx, b"k", Some(0)).expect_err("should error");
    assert!(
        matches!(err, Error::UnsupportedVersionedQueries),
        "expected UnsupportedVersionedQueries, got {:?}",
        err
    );
}

#[test]
fn version_as_of_takes_the_latest_that_existed() {
    let v = |version, us| VersionInfo { version, timestamp_us: us };
    let history = [v(1, Some(1_000_000)), v(2, Some(2_000_000)), v(3, None), v(4, Some(2_000_500))];
    assert_eq!(lance_version_as_of(&history, 999), None);
    assert_eq!(lance_version_as_of(&history, 1000), Some(1));
    assert_eq!(lance_version_as_of(&history, 2000), Some(2));
    assert_eq!(lance_version_as_of(&history, 2001), Some(4));
    assert_eq!(lance_version_as_of(&[], u64::MAX), None);
}

// --- the background optimizer --------------------------------------------------------------

#[test]
fn test_background_optimizer_does_not_panic_on_concurrent_commits() {
    let mut store = default_store();
    for i in 0..10 {
        let mut tx = store.transaction(true);
        let key = format!("k{}", i).into_bytes();
        let val = format!("v{}", i).into_bytes();
        tx.set(key, val).expect("set");
        store.commit(&mut tx).expect("commit");
    }
    let tx = store.transaction(false);
    let v = store.get(&tx, b"k5", None).expect("get");
    assert_eq!(v.as_deref(), Some(b"v5".as_ref()));
}

#[test]
fn test_optimizer_shutdown_completes_within_timeout() {
    let mut store = default_store();
    let mut tx = store.transaction(true);
    tx.set(b"k1".to_vec(), b"v1".to_vec()).expect("set");
    store.commit(&mut tx).expect("commit");
    assert!(store.ds.shutdown_optimizer());
    let step = store.ds.optimizer().expect("optimizer").on_wake(0, 60);
    assert_eq!(step, OptimizeStep::Exit);
}

#[test]
fn optimizer_wakes_at_its_threshold() {
    let mut optimizer = BackgroundOptimizer::start(7, 3);
    assert_eq!(optimizer.interval_ns(), 7);
    let woken: Vec<bool> = (0..6).map(|_| optimizer.notify_commit()).collect();
    assert_eq!(woken, vec![false, false, true, false, false, true]);
    assert_eq!(
        optimizer.on_wake(5_000_000, 3),
        OptimizeStep::Cycle { prune_before_us: Some(2_000_000) }
    );
    assert_eq!(
        optimizer.on_wake(5_000_000, 0),
        OptimizeStep::Cycle { prune_before_us: None }
    );
    assert_eq!(
        optimizer.on_wake(5_000_000, u64::MAX),
        OptimizeStep::Cycle { prune_before_us: None }
    );
    assert_eq!(
        optimizer.on_wake(i64::MIN + 1_000_000, 1),
        OptimizeStep::Cycle { prune_before_us: Some(i64::MIN) }
    );
    assert_eq!(
        optimizer.on_wake(i64::MIN + 999_999, 1),
        OptimizeStep::Cycle { prune_before_us: None }
    );
    optimizer.shutdown();
    assert_eq!(optimizer.on_wake(5_000_000, 3), OptimizeStep::Exit);
}

// --- against a map ---------------------------------------------------------------------------

fn lcg(state: &mut u64) -> u64 {
    *state = state.wrapping_mul(1664525).wrapping_add(1013904223);
    *state
}

fn matches_reference(mut store: Store, flush: bool) {
    const SEED: u64 = 0xC0FFEE;
    const OPS_PER_TXN: usize = 8;
    const NUM_TXNS: usize = 25;
    const KEY_SPACE: u8 = 16;

    let mut reference: HashMap<Vec<u8>, Vec<u8>> = HashMap::new();
    let mut rng_state: u64 = SEED;

    for txn_i in 0..NUM_TXNS {
        let mut tx = store.transaction(true);
        let mut staged: Vec<(Vec<u8>, Option<Vec<u8>>)> = Vec::new();

        for _ in 0..OPS_PER_TXN {
            let r = lcg(&mut rng_state);
            let op_kind = r % 3;
            let key_n = (r / 3) as u8 % KEY_SPACE;
            let key = format!("k{}", key_n).into_bytes();

            match op_kind {
                0 => {
                    let val_n = lcg(&mut rng_state) % 100;
                    let val = format!("v{}", val_n).into_bytes();
                    tx.set(key.clone(), val.clone()).expect("set");
                    staged.push((key, Some(val)));
                }
                1 => {
                    tx.del(key.clone()).expect("del");
                    staged.push((key, None));
                }
                2 => {
                    let mut expected: Option<Vec<u8>> = reference.get(&key).cloned();
                    for (k, v) in staged.iter() {
                        if k == &key {
                            expected = v.clone();
                        }
                    }
                    let actual = store.get(&tx, &key, None).expect("get");
                    assert_eq!(
                        actual, expected,
                        "txn {}: get({:?}) mismatch: expected {:?}, got {:?}",
                        txn_i, key, expected, actual
                    );
                }
                _ => unreachable!(),
            }
        }

        if lcg(&mut rng_state) % 4 != 0 {
            store.commit(&mut tx).expect("commit");
            for (k, v) in staged {
                match v {
                    Some(val) => {
                        reference.insert(k, val);
                    }
                    None => {
                        reference.remove(&k);
                    }
                }
            }
        } else {
            tx.cancel().expect("cancel");
        }
        if flush && txn_i % 5 == 4 {
            store.flush();
        }

        let verify_tx = store.transaction(false);
        for n in 0..KEY_SPACE {
            let key = format!("k{}", n).into_bytes();
            let actual = store.get(&verify_tx, &key, None).expect("verify get");
            let expected = reference.get(&key).cloned();
            assert_eq!(
                actual, expected,
                "txn {} post-commit: key {:?} datastore={:?} reference={:?}",
                txn_i, key, actual, expected
            );
        }
        let mut rows: Vec<(Key, Val)> = reference.clone().into_iter().collect();
        rows.sort();
        let whole = store
            .scan(&verify_tx, b"k".to_vec()..b"l".to_vec(), ScanLimit::Count(100), 0)
            .expect("verify scan");
        assert_eq!(whole, rows);
    }
}

#[test]
fn test_property_matches_hashmap_reference() {
    matches_reference(default_store(), false);
}

fn lsm_config(write_path: WritePath) -> LanceConfig {
    LanceConfig { write_path, ..LanceConfig::default() }
}

#[test]
fn buffered_paths_match_the_reference_across_flushes() {
    for path in [WritePath::LsmWithWal, WritePath::LsmColumnar] {
        matches_reference(Store::new(lsm_config(path)), true);
        matches_reference(Store::new(lsm_config(path)), false);
    }
}

// --- the write buffer ------------------------------------------------------------------------

#[test]
fn recovery_replays_the_log_over_the_dataset() {
    let config = lsm_config(WritePath::LsmWithWal);
    let mut store = Store::new(config);
    for (k, v) in [("a", "1"), ("b", "2")] {
        let mut tx = store.transaction(true);
        tx.set(k.as_bytes().to_vec(), v.as_bytes().to_vec()).unwrap();
        store.commit(&mut tx).unwrap();
    }
    assert_eq!(store.flush(), 2);
    assert!(store.log.is_empty());
    let mut tx = store.transaction(true);
    tx.set(b"a".to_vec(), b"3".to_vec()).unwrap();
    tx.del(b"b".to_vec()).unwrap();
    store.commit(&mut tx).unwrap();
    assert_eq!(store.log.len(), 1);

    // The process goes down with one commit in the log alone.
    let again = Store::open(Some(store.lance), store.log, config).expect("reopen");
    let tx = again.transaction(false);
    assert_eq!(again.get(&tx, b"a", None).unwrap().as_deref(), Some(b"3".as_ref()));
    assert_eq!(again.get(&tx, b"b", None).unwrap(), None);
    // Its rows are numbered above everything in the dataset.
    assert_eq!(again.ds.memtable().get(b"a").unwrap().seq, 3);
}

#[test]
fn a_flush_does_not_change_what_is_read() {
    let mut store = Store::new(lsm_config(WritePath::LsmWithWal));
    seed_a_to_e(&mut store);
    let mut tx = store.transaction(true);
    tx.del(b"c".to_vec()).unwrap();
    store.commit(&mut tx).unwrap();
    let tx = store.transaction(false);
    let before = store.scan(&tx, a_to_z(), ScanLimit::Count(100), 0).unwrap();
    assert_eq!(store.flush(), 5);
    assert!(store.ds.memtable().is_empty());
    let after = store.scan(&tx, a_to_z(), ScanLimit::Count(100), 0).unwrap();
    assert_eq!(before, after);
    assert_eq!(key_list(&after), vec![b"a".as_ref(), b"b", b"d", b"e"]);
}

#[test]
fn flushed_rows_keep_their_commit_numbers() {
    let mut store = Store::new(lsm_config(WritePath::LsmWithWal));
    for k in ["a", "b"] {
        let mut tx = store.transaction(true);
        tx.set(k.as_bytes().to_vec(), b"v".to_vec()).unwrap();
        store.commit(&mut tx).unwrap();
    }
    store.flush();
    let rows: Vec<(&Key, &Row)> = store.lance.latest().rows.iter().collect();
    let batches = vec![project(&rows, &["key", "seq", "tombstone"])];
    assert_eq!(
        scan_seqs(&batches).unwrap(),
        vec![(b"a".to_vec(), 1, false), (b"b".to_vec(), 2, false)]
    );
    let batches = vec![project(&rows, &["key", "version"])];
    assert_eq!(scan_versions(&batches).unwrap().len(), 2);
    assert!(matches!(scan_seqs(&batches), Err(Error::Datastore(_))));
}

/// One committed key through the log.
fn set_one(store: &mut Store, key: &[u8], val: &[u8]) {
    let mut tx = store.transaction(true);
    tx.set(key.to_vec(), val.to_vec()).expect("set");
    store.commit(&mut tx).expect("commit");
}

#[test]
fn a_flush_leaves_commits_on_their_way_in_the_log() {
    let config = lsm_config(WritePath::LsmWithWal);
    let mut store = Store::new(config);
    set_one(&mut store, b"a", b"1");
    assert_eq!(store.ds.flush_bound(), 1);

    // Logged, and not applied yet.
    let slow = store.ds.commit_lsm(&vec![(b"b".to_vec(), b"2".to_vec())], &Vec::new());
    store.log.push(copy_record(&slow.record));
    set_one(&mut store, b"c", b"3");
    assert_eq!(store.ds.flush_bound(), 1);
    assert_eq!(store.flush(), 1);
    let left: Vec<u64> = store.log.iter().map(|r| r.generation).collect();
    assert_eq!(left, vec![2, 3]);

    // A crash here loses none of them.
    let log = store.log.iter().map(copy_record).collect();
    let again = Store::open(Some(store.lance), log, config).expect("reopen");
    let tx = again.transaction(false);
    assert_eq!(again.get(&tx, b"a", None).unwrap(), Some(b"1".to_vec()));
    assert_eq!(again.get(&tx, b"b", None).unwrap(), Some(b"2".to_vec()));
    assert_eq!(again.get(&tx, b"c", None).unwrap(), Some(b"3".to_vec()));

    store.ds.apply_lsm(&slow);
    assert_eq!(store.ds.flush_bound(), 3);
}

#[test]
fn a_commit_that_was_given_up_holds_no_flush_back() {
    let mut store = Store::new(lsm_config(WritePath::LsmWithWal));
    let lost = store.ds.commit_lsm(&vec![(b"a".to_vec(), b"1".to_vec())], &Vec::new());
    assert_eq!(store.ds.flush_bound(), 0);
    store.ds.abandon_lsm(&lost);
    assert_eq!(store.ds.flush_bound(), 1);
    assert_eq!(store.ds.memtable().len(), 0);
}

#[test]
fn commits_may_be_applied_in_either_order() {
    for turned in [false, true] {
        let mut store = Store::new(lsm_config(WritePath::LsmWithWal));
        let first = store.ds.commit_lsm(&vec![(b"k".to_vec(), b"1".to_vec())], &Vec::new());
        let second = store.ds.commit_lsm(&Vec::new(), &vec![b"k".to_vec()]);
        let (a, b) = if turned { (&second, &first) } else { (&first, &second) };
        store.ds.apply_lsm(a);
        store.ds.apply_lsm(b);
        let tx = store.transaction(false);
        assert_eq!(store.get(&tx, b"k", None).unwrap(), None);
    }
}

#[test]
fn a_restart_after_flushes_finds_every_commit() {
    let config = lsm_config(WritePath::LsmWithWal);
    let mut store = Store::new(config);
    set_one(&mut store, b"a", b"1");
    set_one(&mut store, b"b", b"1");
    store.flush();
    set_one(&mut store, b"a", b"2");
    let mut tx = store.transaction(true);
    tx.del(b"b".to_vec()).expect("del");
    store.commit(&mut tx).expect("commit");
    let again = Store::open(Some(store.lance), store.log, config).expect("reopen");
    let tx = again.transaction(false);
    assert_eq!(again.get(&tx, b"a", None).unwrap(), Some(b"2".to_vec()));
    assert_eq!(again.get(&tx, b"b", None).unwrap(), None);
}

#[test]
fn a_datastore_without_a_flusher_keeps_its_buffer() {
    let config =
        LanceConfig { disable_background_flusher: true, ..lsm_config(WritePath::LsmWithWal) };
    let mut store = Store::new(config);
    seed_a_to_e(&mut store);
    assert!(store.ds.flusher().is_none());
    assert_eq!(store.flush(), 0);
    assert_eq!(store.ds.memtable().len(), 5);
    let interval = Duration::from_millis(7);
    let config = LanceConfig {
        flusher_tick_interval: Some(interval),
        ..lsm_config(WritePath::LsmWithWal)
    };
    assert_eq!(Store::new(config).ds.flusher().unwrap().tick_interval, interval);
    assert!(default_store().ds.flusher().is_none());
    assert!(default_store().ds.has_gate());
}

// --- several transactions at once ----------------------------------------------------------------

#[test]
fn test_concurrent_disjoint_writes() {
    const N_TASKS: usize = 8;
    const KEYS_PER_TASK: usize = 4;

    let mut store = default_store();
    let mut open: Vec<Transaction> = (0..N_TASKS).map(|_| store.transaction(true)).collect();
    for i in 0..KEYS_PER_TASK {
        for (task_id, tx) in open.iter_mut().enumerate() {
            let key = format!("t{:02}_k{:02}", task_id, i).into_bytes();
            let val = format!("v_{:02}_{:02}", task_id, i).into_bytes();
            tx.set(key, val).expect("set");
        }
    }
    for tx in open.iter_mut() {
        store.commit(tx).expect("commit");
    }

    let tx = store.transaction(false);
    for task_id in 0..N_TASKS {
        for i in 0..KEYS_PER_TASK {
            let key = format!("t{:02}_k{:02}", task_id, i).into_bytes();
            let expected = format!("v_{:02}_{:02}", task_id, i).into_bytes();
            let got = store.get(&tx, &key, None).expect("get");
            assert_eq!(
                got.as_deref(),
                Some(expected.as_slice()),
                "task {} key {:?} mismatch: got {:?}",
                task_id,
                key,
                got
            );
        }
    }
}

#[test]
fn test_concurrent_same_key_yields_one_winner() {
    const N_TASKS: usize = 6;

    let mut store = default_store();
    let mut gate = Coordinator::new();
    let mut open: Vec<Transaction> = (0..N_TASKS).map(|_| store.transaction(true)).collect();
    for (task_id, tx) in open.iter_mut().enumerate() {
        let val = format!("v{}", task_id).into_bytes();
        tx.set(b"shared".to_vec(), val).expect("set");
        let CommitPlan::Gate { writes, deletes, version } = tx.commit().expect("commit") else {
            panic!("commits are gated");
        };
        let submitted = GateEvent::Submitted(Submission { writes, deletes, version });
        assert!(matches!(gate.step(submitted), GateAction::AwaitMore));
    }
    let GateAction::Execute(batch) = gate.step(GateEvent::WindowExpired) else {
        panic!("the window has passed");
    };
    let merged = store.merge(batch);
    let outcome = BatchOutcome::of_merge(&merged);
    let mut success = 0;
    for tx in open.iter_mut() {
        if settle(GateReply::Answered(outcome.clone())).is_ok() {
            tx.commit_landed();
            success += 1;
        }
    }
    assert!(success >= 1, "at least one task must commit successfully; got 0");

    let tx = store.transaction(false);
    let got = store.get(&tx, b"shared", None).expect("get");
    let got = got.expect("expected Some(val), got None");
    let got_str = String::from_utf8_lossy(&got);
    assert!(
        got_str.starts_with('v') && got_str[1..].parse::<usize>().is_ok_and(|n| n < N_TASKS),
        "final value must be one of v0..v{}; got {:?}",
        N_TASKS - 1,
        got_str
    );
    assert_eq!(got_str, "v5", "the last of a batch wins");
}

// --- the timeline ----------------------------------------------------------------------------------

#[test]
fn test_timeline_versions_grow_with_commits() {
    let mut store = default_store();
    let history = |store: &Store| {
        let timeline = store.ds.timeline(store.current_version());
        (timeline.versions(Ok(store.lance.history())).expect("versions"), timeline)
    };
    let v_start = history(&store).0.len();

    for (k, v) in [(b"a".as_ref(), b"1".as_ref()), (b"b".as_ref(), b"2".as_ref())] {
        let mut tx = store.transaction(true);
        tx.set(k.to_vec(), v.to_vec()).expect("set");
        store.commit(&mut tx).expect("commit");
    }

    let (versions, timeline) = history(&store);
    assert!(
        versions.len() >= v_start + 2,
        "expected >={} versions after 2 commits, got {}",
        v_start + 2,
        versions.len()
    );
    for w in versions.windows(2) {
        assert!(w[0].version <= w[1].version, "timeline not monotone: {:?}", versions);
    }
    let latest = timeline.latest_version();
    assert_eq!(
        versions.last().map(|vi| vi.version),
        Some(latest),
        "timeline tail must equal current_version"
    );
    let e = timeline.versions(Err("io".to_string())).unwrap_err();
    assert!(matches!(e, Error::Datastore(m) if m == "lance timeline versions: io"));
}

#[test]
fn test_timeline_view_reads_historical_state() {
    let mut store = default_store();
    let v_before = store.ds.timeline(store.current_version()).latest_version();

    let mut tx = store.transaction(true);
    tx.set(b"hist".to_vec(), b"present".to_vec()).expect("set");
    store.commit(&mut tx).expect("commit");
    let v_after = store.ds.timeline(store.current_version()).latest_version();

    assert!(v_after > v_before, "commit did not advance the dataset version");

    let view_after = store.view(v_after).expect("view @ after");
    assert_eq!(view_after.version(), v_after);
    assert_eq!(
        store.view_get(&view_after, b"hist").as_deref(),
        Some(b"present".as_ref()),
        "view at the write version must see the key"
    );

    let view_before = store.view(v_before).expect("view @ before");
    assert!(
        store.view_get(&view_before, b"hist").is_none(),
        "view before the write must not see the key (time-travel violated)"
    );

    let Scanned::Batches(batches) = store.lance.scan(&view_after.scan_plan()) else {
        panic!("the version is there");
    };
    let rows = view_after.scan(&batches).expect("scan @ after");
    assert!(
        rows.iter().any(|(k, v)| k == b"hist" && v == b"present"),
        "timeline scan must surface the committed row; got {rows:?}"
    );
    let e = store.view(99).unwrap_err();
    assert!(
        matches!(e, Error::Datastore(m) if m == "lance timeline checkout 99: no such version")
    );
}

#[test]
fn test_timeline_write_delete_commit_is_single_atomic_version() {
    let mut store = default_store();
    let mut tx = store.transaction(true);
    tx.set(b"keep".to_vec(), b"old".to_vec()).expect("set keep");
    tx.set(b"victim".to_vec(), b"doomed".to_vec()).expect("set victim");
    store.commit(&mut tx).expect("commit seed");

    let versions_before = store.lance.history().len();

    let mut tx = store.transaction(true);
    tx.set(b"fresh".to_vec(), b"new".to_vec()).expect("set fresh");
    tx.set(b"keep".to_vec(), b"new".to_vec()).expect("overwrite keep");
    tx.del(b"victim".to_vec()).expect("del victim");
    store.commit(&mut tx).expect("commit mixed");

    let versions_after = store.lance.history().len();
    assert_eq!(
        versions_after,
        versions_before + 1,
        "a write+delete commit must add EXACTLY ONE Lance version (atomic); \
         got {} new, a torn write-before-delete intermediate leaked",
        versions_after - versions_before
    );

    let timeline = store.ds.timeline(store.current_version());
    let view = timeline.view_latest(Ok(())).expect("view latest");
    assert_eq!(
        store.view_get(&view, b"fresh").as_deref(),
        Some(b"new".as_ref()),
        "atomic snapshot must include the new write"
    );
    assert_eq!(
        store.view_get(&view, b"keep").as_deref(),
        Some(b"new".as_ref()),
        "atomic snapshot must reflect the overwrite"
    );
    assert!(
        store.view_get(&view, b"victim").is_none(),
        "atomic snapshot must reflect the delete (tombstone hides the row)"
    );
}

#[test]
fn timeline_scans_are_sorted_and_live() {
    let store = default_store();
    let view = store.view(1).unwrap();
    let rows: Vec<(Key, Row)> = ["c", "a", "b"]
        .iter()
        .map(|k| {
            let row = Row {
                val: b"v".to_vec(),
                version: 1,
                tombstone: *k == "b",
                seq: 1,
            };
            (k.as_bytes().to_vec(), row)
        })
        .collect();
    let refs: Vec<(&Key, &Row)> = rows.iter().map(|(k, r)| (k, r)).collect();
    let batches = vec![project(&refs, &["key", "val", "tombstone"])];
    let out = view.scan(&batches).unwrap();
    assert_eq!(key_list(&out), vec![b"a".as_ref(), b"c"]);
    let broken = vec![project(&refs, &["key", "tombstone"])];
    assert!(matches!(view.scan(&broken), Err(Error::Datastore(_))));
}

#[test]
fn a_view_scans_what_it_gets() {
    let mut store = default_store();
    let mut tx = store.transaction(true);
    for k in ["c", "a", "b"] {
        tx.set(k.as_bytes().to_vec(), format!("v{k}").into_bytes()).expect("set");
    }
    store.commit(&mut tx).expect("commit");
    let mut tx = store.transaction(true);
    tx.del(b"b".to_vec()).expect("del");
    store.commit(&mut tx).expect("commit");
    let view = store.view(store.current_version()).unwrap();
    let Scanned::Batches(batches) = store.lance.scan(&view.scan_plan()) else {
        panic!("the version is there");
    };
    let listed = view.scan(&batches).unwrap();
    assert_eq!(key_list(&listed), vec![b"a".as_ref(), b"c"]);
    for k in [b"a", b"b", b"c", b"d"] {
        let row = listed.iter().find(|(key, _)| key == k).map(|(_, val)| val.clone());
        assert_eq!(store.view_get(&view, k), row);
    }
}

#[test]
fn recovery_takes_the_newest_record_of_each_key() {
    let write = |generation: u64, val: &[u8]| WalRecord {
        generation,
        ops: vec![WalOp::Write { key: b"k".to_vec(), val: val.to_vec() }],
    };
    let log = vec![write(2, b"two"), write(5, b"five"), write(3, b"three"), write(5, b"again")];
    let store = Store::open(None, log, lsm_config(WritePath::LsmWithWal)).expect("open");
    let entry = store.ds.memtable().get(b"k").expect("entry");
    assert_eq!((entry.generation, entry.seq), (5, 2));
    let tx = store.transaction(false);
    assert_eq!(store.get(&tx, b"k", None).unwrap(), Some(b"five".to_vec()));
    assert_eq!(store.get(&tx, b"other", None).unwrap(), None);
}
