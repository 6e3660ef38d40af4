//! Versions, change streams, the commit gate and the write-ahead log.

use std::collections::VecDeque;

use surreal_lance::cf::stream::{CfStream, ChangeSet, DatabaseMutation};
use surreal_lance::kvs::err::Error;
use surreal_lance::kvs::lance::commit_gate::{
    execute_batch, needs_gate, settle, single_lance_commit, BatchOutcome, Coordinator, GateAction,
    GateEvent, GateReply, Submission, BATCH_WINDOW_MICROS, CHANNEL_CAPACITY, MAX_BATCH_SIZE,
};
use surreal_lance::kvs::lance::wal::{
    build_image, collect_records, complete_frames, frame_record, replay_bodies, retain_from, WalOp, WalRecord,
};
use surreal_lance::kvs::mvcc_source::{LocalGeneratedMvcc, MvccSource};

// --- versions ---------------------------------------------------------------

#[test]
fn local_mvcc_is_monotonically_increasing() {
    let mut src = LocalGeneratedMvcc::new();
    let mut prev = src.next_version().expect("next_version must not fail");
    for _ in 0..1_000 {
        let next = src.next_version().expect("next_version must not fail");
        assert!(
            next > prev,
            "expected version {next} > {prev} but it was not strictly greater"
        );
        prev = next;
    }
}

#[test]
fn local_mvcc_instances_are_independent() {
    let mut a = LocalGeneratedMvcc::new();
    let mut b = LocalGeneratedMvcc::new();
    let va = a.next_version().unwrap();
    let vb = b.next_version().unwrap();
    assert_eq!(va, vb, "independent instances must start from the same seed");
}

#[test]
fn default_starts_at_one() {
    let mut src = LocalGeneratedMvcc::default();
    let v = src.next_version().unwrap();
    assert_eq!(v, 1, "first version from a fresh counter must be 1");
}

// --- change streams -----------------------------------------------------------

fn make_changeset(version: u128) -> ChangeSet {
    ChangeSet(version, DatabaseMutation::new())
}

struct StubStream {
    items: VecDeque<ChangeSet>,
}

impl StubStream {
    fn new(items: Vec<ChangeSet>) -> Self {
        Self { items: items.into() }
    }
}

impl CfStream for StubStream {
    fn next_delta(&mut self) -> Option<Result<ChangeSet, Error>> {
        self.items.pop_front().map(Ok)
    }
}

#[test]
fn stub_stream_yields_in_order() {
    let mut stream =
        StubStream::new(vec![make_changeset(1), make_changeset(2), make_changeset(3)]);

    let a = stream.next_delta().expect("first item").expect("no error");
    assert_eq!(a.0, 1, "first versionstamp should be 1");

    let b = stream.next_delta().expect("second item").expect("no error");
    assert_eq!(b.0, 2, "second versionstamp should be 2");

    let c = stream.next_delta().expect("third item").expect("no error");
    assert_eq!(c.0, 3, "third versionstamp should be 3");

    let done = stream.next_delta();
    assert!(done.is_none(), "stream should be exhausted after 3 items");
}

#[test]
fn vecdeque_blanket_impl_works() {
    let mut stream: VecDeque<ChangeSet> = vec![make_changeset(10), make_changeset(20)].into();

    let first = stream.next_delta().expect("item").expect("ok");
    assert_eq!(first.0, 10);

    let second = stream.next_delta().expect("item").expect("ok");
    assert_eq!(second.0, 20);

    assert!(stream.next_delta().is_none());
}

fn count_deltas<S: CfStream>(stream: &mut S) -> usize {
    let mut n = 0usize;
    while let Some(result) = stream.next_delta() {
        result.expect("no error during count");
        n += 1;
    }
    n
}

#[test]
fn generic_consumer_counts_correctly() {
    let mut stream = StubStream::new(vec![
        make_changeset(100),
        make_changeset(200),
        make_changeset(300),
        make_changeset(400),
    ]);
    let count = count_deltas(&mut stream);
    assert_eq!(count, 4);
}

// --- the commit gate ------------------------------------------------------------

#[test]
fn batch_outcome_round_trips() {
    assert!(matches!(BatchOutcome::Landed.into_result(), Ok(())));
    assert!(matches!(
        BatchOutcome::Conflict("x".into()).into_result(),
        Err(Error::TransactionConflict(_))
    ));
    assert!(matches!(
        BatchOutcome::Datastore("y".into()).into_result(),
        Err(Error::Datastore(_))
    ));
}

#[test]
fn batch_outcome_from_err_preserves_conflict() {
    let e = Error::TransactionConflict("oops".into());
    let outcome = BatchOutcome::from_err(&e);
    assert!(matches!(outcome, BatchOutcome::Conflict(_)));
    assert!(outcome.into_result().is_err_and(|e| e.is_retryable()));
}

#[test]
fn batch_outcome_from_err_collapses_to_datastore() {
    let e = Error::Internal("anything".into());
    let outcome = BatchOutcome::from_err(&e);
    assert!(matches!(outcome, BatchOutcome::Datastore(_)));
}

fn submission(version: u64, writes: &[(&str, &str)], deletes: &[&str]) -> Submission {
    Submission {
        writes: writes
            .iter()
            .map(|(k, v)| (k.as_bytes().to_vec(), v.as_bytes().to_vec()))
            .collect(),
        deletes: deletes.iter().map(|k| k.as_bytes().to_vec()).collect(),
        version,
    }
}

#[test]
fn every_error_variant_becomes_an_outcome() {
    for (e, retry) in [
        (Error::Datastore("d".into()), false),
        (Error::Internal("i".into()), false),
        (Error::TransactionFinished, false),
        (Error::TransactionConflict("c".into()), true),
    ] {
        let r = BatchOutcome::from_err(&e).into_result();
        assert_eq!(r.is_err_and(|e| e.is_retryable()), retry);
    }
    assert!(matches!(BatchOutcome::of_merge(&Ok(())), BatchOutcome::Landed));
    assert!(settle(GateReply::Answered(BatchOutcome::Landed)).is_ok());
    assert!(matches!(settle(GateReply::Closed), Err(Error::Datastore(_))));
    assert!(matches!(settle(GateReply::Dropped), Err(Error::Datastore(_))));
}

#[test]
fn later_submissions_of_a_batch_win() {
    let source = execute_batch(vec![
        submission(5, &[("a", "1"), ("b", "1")], &["c"]),
        submission(9, &[("c", "2")], &["a"]),
        submission(7, &[("b", "3")], &[]),
    ]);
    assert_eq!(
        source.writes,
        vec![(b"b".to_vec(), b"3".to_vec()), (b"c".to_vec(), b"2".to_vec())]
    );
    assert_eq!(source.deletes, vec![b"a".to_vec()]);
    assert_eq!(source.version, 9);
    assert_eq!(source.write_seqs.len(), 2);
    assert_eq!(source.delete_seqs.len(), 1);
    assert!(source.fits());
    let batches = single_lance_commit(&source).unwrap();
    assert_eq!(batches.len(), 2);
    assert_eq!(batches[0].0.num_rows(), 2);
    assert_eq!(batches[1].0.num_rows(), 1);
}

#[test]
fn an_empty_commit_needs_no_gate() {
    assert!(!needs_gate(&vec![], &vec![]));
    assert!(needs_gate(&vec![(vec![1], vec![2])], &vec![]));
    assert!(needs_gate(&vec![], &vec![vec![1]]));
}

#[test]
fn coordinator_coalesces_until_the_window_closes() {
    assert_eq!((BATCH_WINDOW_MICROS, MAX_BATCH_SIZE, CHANNEL_CAPACITY), (500, 64, 256));
    let mut c = Coordinator::new();
    assert!(matches!(
        c.step(GateEvent::Submitted(submission(1, &[("a", "1")], &[]))),
        GateAction::AwaitMore
    ));
    assert!(matches!(
        c.step(GateEvent::Submitted(submission(2, &[("b", "1")], &[]))),
        GateAction::AwaitMore
    ));
    match c.step(GateEvent::WindowExpired) {
        GateAction::Execute(batch) => {
            assert_eq!(batch.iter().map(|s| s.version).collect::<Vec<_>>(), vec![1, 2]);
        }
        other => panic!("expected the batch, got {other:?}"),
    }
}

#[test]
fn coordinator_closes_a_full_batch_at_once() {
    let mut c = Coordinator::new();
    for i in 1..MAX_BATCH_SIZE as u64 {
        assert!(matches!(
            c.step(GateEvent::Submitted(submission(i, &[("k", "v")], &[]))),
            GateAction::AwaitMore
        ));
    }
    let last = submission(MAX_BATCH_SIZE as u64, &[("k", "v")], &[]);
    match c.step(GateEvent::Submitted(last)) {
        GateAction::Execute(batch) => assert_eq!(batch.len(), MAX_BATCH_SIZE),
        other => panic!("expected the batch, got {other:?}"),
    }
}

#[test]
fn coordinator_drains_before_it_leaves() {
    let mut c = Coordinator::new();
    assert!(matches!(c.between_batches(), GateAction::AwaitFirst { watch_shutdown: true }));
    assert!(matches!(c.step(GateEvent::Shutdown), GateAction::CloseSubmissions));
    assert!(matches!(c.between_batches(), GateAction::AwaitFirst { watch_shutdown: false }));
    assert!(matches!(
        c.step(GateEvent::Submitted(submission(1, &[("a", "1")], &[]))),
        GateAction::AwaitMore
    ));
    match c.step(GateEvent::Closed) {
        GateAction::Execute(batch) => assert_eq!(batch.len(), 1),
        other => panic!("expected the batch, got {other:?}"),
    }
    assert!(matches!(c.step(GateEvent::Closed), GateAction::Exit));
}

// --- the write-ahead log -----------------------------------------------------------

/// A log in memory. A record is written as its generation, then each operation
/// as a mark, the key's length and bytes, and a value's length and bytes.
struct Log {
    bytes: Vec<u8>,
}

fn encode(record: &WalRecord) -> Vec<u8> {
    let mut out = record.generation.to_le_bytes().to_vec();
    let put = |b: &[u8]| {
        let mut v = vec![b.len() as u8];
        v.extend_from_slice(b);
        v
    };
    for op in &record.ops {
        match op {
            WalOp::Write { key, val } => {
                out.push(1);
                out.extend(put(key));
                out.extend(put(val));
            }
            WalOp::Delete { key } => {
                out.push(0);
                out.extend(put(key));
            }
        }
    }
    out
}

fn decode(body: &[u8]) -> Result<WalRecord, String> {
    if body.len() < 8 {
        return Err("short".to_string());
    }
    let generation = u64::from_le_bytes(body[..8].try_into().unwrap());
    let mut i = 8;
    let mut ops = Vec::new();
    while i < body.len() {
        let mark = body[i];
        let n = body[i + 1] as usize;
        let key = body[i + 2..i + 2 + n].to_vec();
        i += 2 + n;
        if mark == 1 {
            let n = body[i] as usize;
            ops.push(WalOp::Write { key, val: body[i + 1..i + 1 + n].to_vec() });
            i += 1 + n;
        } else {
            ops.push(WalOp::Delete { key });
        }
    }
    Ok(WalRecord { generation, ops })
}

impl Log {
    fn open(bytes: Vec<u8>) -> Self {
        Log { bytes }
    }

    fn append(&mut self, record: &WalRecord) -> Result<(), Error> {
        let framed = frame_record(&encode(record))?;
        self.bytes.truncate(complete_frames(&self.bytes));
        self.bytes.extend(framed);
        Ok(())
    }

    fn replay(&self) -> Result<Vec<WalRecord>, Error> {
        let bodies = replay_bodies(&self.bytes);
        collect_records(bodies.iter().map(|b| decode(b)).collect())
    }

    fn truncate_to(&mut self, min_generation: u64) -> Result<(), Error> {
        let kept = retain_from(self.replay()?, min_generation);
        self.bytes = build_image(&kept.iter().map(encode).collect())?;
        Ok(())
    }
}

fn write(generation: u64, key: &[u8], val: &[u8]) -> WalRecord {
    WalRecord {
        generation,
        ops: vec![WalOp::Write { key: key.to_vec(), val: val.to_vec() }],
    }
}

#[test]
fn append_then_replay_roundtrips() {
    let mut wal = Log::open(Vec::new());
    let r1 = write(1, b"k1", b"v1");
    let r2 = WalRecord {
        generation: 2,
        ops: vec![
            WalOp::Write { key: b"k2".to_vec(), val: b"v2".to_vec() },
            WalOp::Delete { key: b"k1".to_vec() },
        ],
    };
    wal.append(&r1).expect("append 1");
    wal.append(&r2).expect("append 2");

    let replayed = wal.replay().expect("replay");
    assert_eq!(replayed.len(), 2);
    assert_eq!(replayed[0].generation, 1);
    assert_eq!(replayed[1].generation, 2);
    assert!(matches!(replayed[1].ops[1], WalOp::Delete { .. }));
}

#[test]
fn truncate_drops_records_below_threshold() {
    let mut wal = Log::open(Vec::new());
    for g in 1..=5 {
        wal.append(&write(g, format!("k{g}").as_bytes(), b"v")).expect("append");
    }
    wal.truncate_to(4).expect("truncate");
    let remaining = wal.replay().expect("replay");
    assert_eq!(remaining.len(), 2, "only g=4,5 should remain");
    assert_eq!(remaining[0].generation, 4);
    assert_eq!(remaining[1].generation, 5);
}

#[test]
fn replay_survives_reopen() {
    let mut wal = Log::open(Vec::new());
    wal.append(&write(1, b"k", b"v")).expect("append");
    let wal = Log::open(wal.bytes);
    let replayed = wal.replay().expect("replay");
    assert_eq!(replayed.len(), 1);
    assert_eq!(replayed[0].generation, 1);
}

#[test]
fn append_after_truncate_continues_correctly() {
    let mut wal = Log::open(Vec::new());
    wal.append(&write(1, b"a", b"1")).expect("append 1");
    wal.append(&write(2, b"b", b"2")).expect("append 2");
    wal.truncate_to(2).expect("truncate");
    wal.append(&write(3, b"c", b"3")).expect("append 3 after truncate");
    let replayed = wal.replay().expect("replay");
    assert_eq!(replayed.len(), 2);
    assert_eq!(replayed[0].generation, 2);
    assert_eq!(replayed[1].generation, 3);
}

#[test]
fn frames_are_a_length_and_the_body() {
    let framed = frame_record(&b"abc".to_vec()).unwrap();
    assert_eq!(framed, vec![3, 0, 0, 0, b'a', b'b', b'c']);
}

#[test]
fn torn_tails_are_dropped() {
    let mut wal = Log::open(Vec::new());
    wal.append(&write(1, b"a", b"1")).unwrap();
    let whole = wal.bytes.len();
    wal.append(&write(2, b"b", b"2")).unwrap();
    for cut in whole..wal.bytes.len() {
        let torn = Log::open(wal.bytes[..cut].to_vec());
        let replayed = torn.replay().unwrap();
        assert_eq!(replayed.len(), 1, "cut at {cut}");
    }
}

#[test]
fn the_complete_frames_end_where_a_torn_one_begins() {
    let whole = vec![1, 0, 0, 0, 7];
    assert_eq!(complete_frames(&Vec::new()), 0);
    assert_eq!(complete_frames(&whole), 5);
    let mut torn = whole.clone();
    torn.extend([9, 0, 0, 0]);
    assert_eq!(complete_frames(&torn), 5);
    assert_eq!(complete_frames(&vec![9, 0, 0]), 0);
}

#[test]
fn an_append_behind_a_torn_tail_is_replayed() {
    let mut wal = Log::open(Vec::new());
    wal.append(&write(1, b"a", b"1")).unwrap();
    let whole = wal.bytes.len();
    wal.append(&write(2, b"b", b"2")).unwrap();
    for cut in whole..wal.bytes.len() {
        let mut torn = Log::open(wal.bytes[..cut].to_vec());
        torn.append(&write(3, b"c", b"3")).unwrap();
        let replayed = torn.replay().unwrap();
        let generations: Vec<u64> = replayed.iter().map(|r| r.generation).collect();
        assert_eq!(generations, vec![1, 3], "cut at {cut}");
    }
    let mut log = vec![1, 0, 0, 0, 7, 9, 0, 0, 0];
    log.truncate(complete_frames(&log));
    log.extend(frame_record(&vec![8]).unwrap());
    assert_eq!(replay_bodies(&log), vec![vec![7], vec![8]]);
}

#[test]
fn appends_around_a_truncation_stay() {
    let mut wal = Log::open(Vec::new());
    wal.append(&write(1, b"a", b"1")).unwrap();
    wal.append(&write(4, b"d", b"4")).unwrap();
    let kept = retain_from(wal.replay().unwrap(), 2);
    let mut image = build_image(&kept.iter().map(encode).collect()).unwrap();
    image.extend(frame_record(&encode(&write(3, b"c", b"3"))).unwrap());
    let replayed = Log::open(image).replay().unwrap();
    let generations: Vec<u64> = replayed.iter().map(|r| r.generation).collect();
    assert_eq!(generations, vec![4, 3]);
}

#[test]
fn an_undecodable_record_fails_the_replay() {
    let decoded = vec![Ok(write(1, b"a", b"1")), Err("bad".to_string())];
    assert!(matches!(collect_records(decoded), Err(Error::Datastore(_))));
}
