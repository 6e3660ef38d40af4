//! The write buffer and its flusher.

use std::time::Duration;

use surreal_lance::kvs::lance::flusher::{
    complete_flush, nudge_after_flush, on_wake, plan_flush, should_flush, FlushAction,
    FlusherConfig, Wake,
};
use surreal_lance::kvs::lance::memtable::{Memtable, Op};

#[test]
fn generations_are_monotonic() {
    let mut m = Memtable::new();
    let g1 = m.next_generation();
    let g2 = m.next_generation();
    let g3 = m.next_generation();
    assert!(g2 > g1);
    assert!(g3 > g2);
}

#[test]
fn insert_then_get_returns_set() {
    let mut m = Memtable::new();
    let g = m.next_generation();
    m.insert(b"k".to_vec(), Op::Write(b"v".to_vec()), g);
    let e = m.get(b"k").expect("present");
    match e.op {
        Op::Write(v) => assert_eq!(v, b"v"),
        Op::Delete => panic!("expected Set"),
    }
    assert_eq!(e.generation, g);
}

#[test]
fn newer_generation_wins() {
    let mut m = Memtable::new();
    let g1 = m.next_generation();
    let g2 = m.next_generation();
    m.insert(b"k".to_vec(), Op::Write(b"old".to_vec()), g1);
    m.insert(b"k".to_vec(), Op::Write(b"new".to_vec()), g2);
    match m.get(b"k").expect("present").op {
        Op::Write(v) => assert_eq!(v, b"new"),
        Op::Delete => panic!("expected Set"),
    }
}

#[test]
fn older_generation_does_not_overwrite() {
    let mut m = Memtable::new();
    let g1 = m.next_generation();
    let g2 = m.next_generation();
    m.insert(b"k".to_vec(), Op::Write(b"new".to_vec()), g2);
    m.insert(b"k".to_vec(), Op::Write(b"older".to_vec()), g1);
    match m.get(b"k").expect("present").op {
        Op::Write(v) => assert_eq!(v, b"new"),
        Op::Delete => panic!("expected Set"),
    }
}

#[test]
fn delete_is_tombstone() {
    let mut m = Memtable::new();
    let g1 = m.next_generation();
    let g2 = m.next_generation();
    m.insert(b"k".to_vec(), Op::Write(b"v".to_vec()), g1);
    m.insert(b"k".to_vec(), Op::Delete, g2);
    assert!(matches!(m.get(b"k").expect("present").op, Op::Delete));
}

#[test]
fn scan_range_returns_only_matching_keys() {
    let mut m = Memtable::new();
    let g = m.next_generation();
    m.insert(b"aaa".to_vec(), Op::Write(b"v".to_vec()), g);
    m.insert(b"bbb".to_vec(), Op::Write(b"v".to_vec()), g);
    m.insert(b"ccc".to_vec(), Op::Write(b"v".to_vec()), g);
    let range = b"aaa".to_vec()..b"ccc".to_vec();
    let mut keys: Vec<_> = m.scan_range(&range).into_iter().map(|(k, _)| k).collect();
    keys.sort();
    assert_eq!(keys, vec![b"aaa".to_vec(), b"bbb".to_vec()]);
}

#[test]
fn snapshot_then_drop_committed_removes_only_flushed() {
    let mut m = Memtable::new();
    let g1 = m.next_generation();
    let g2 = m.next_generation();
    let g3 = m.next_generation();
    m.insert(b"a".to_vec(), Op::Write(b"1".to_vec()), g1);
    m.insert(b"b".to_vec(), Op::Write(b"2".to_vec()), g2);
    m.insert(b"c".to_vec(), Op::Write(b"3".to_vec()), g3);

    let snap = m.snapshot_up_to(g2);
    assert_eq!(snap.len(), 2);

    let flushed: Vec<_> = snap.into_iter().map(|(k, e)| (k, e.generation)).collect();
    m.drop_committed(&flushed);

    assert_eq!(m.len(), 1, "only g=3 should remain");
    assert!(m.get(b"c").is_some());
    assert!(m.get(b"a").is_none());
    assert!(m.get(b"b").is_none());
}

#[test]
fn insert_default_seq_equals_generation() {
    let mut m = Memtable::new();
    let g = m.next_generation();
    m.insert(b"k".to_vec(), Op::Write(b"v".to_vec()), g);
    assert_eq!(m.get(b"k").expect("present").seq, g);
}

#[test]
fn insert_with_seq_carries_seq_and_race_winner_brings_its_seq() {
    let mut m = Memtable::new();
    let g1 = m.next_generation();
    let g2 = m.next_generation();
    m.insert_with_seq(b"k".to_vec(), Op::Write(b"old".to_vec()), g1, 100);
    assert_eq!(m.get(b"k").expect("present").seq, 100);
    m.insert_with_seq(b"k".to_vec(), Op::Write(b"new".to_vec()), g2, 200);
    let e = m.get(b"k").expect("present");
    assert_eq!(e.seq, 200);
    assert_eq!(e.generation, g2);
}

#[test]
fn pending_bytes_sums_key_and_val() {
    let mut m = Memtable::new();
    assert_eq!(m.pending_bytes(), 0);
    let g1 = m.next_generation();
    let g2 = m.next_generation();
    m.insert(b"aaa".to_vec(), Op::Write(b"vvvv".to_vec()), g1);
    m.insert(b"bb".to_vec(), Op::Write(b"vvvvvv".to_vec()), g2);
    assert_eq!(m.pending_bytes(), 3 + 4 + 2 + 6);
}

#[test]
fn pending_bytes_counts_tombstone_key_only() {
    let mut m = Memtable::new();
    let g = m.next_generation();
    m.insert(b"key".to_vec(), Op::Delete, g);
    assert_eq!(m.pending_bytes(), 3);
}

#[test]
fn drop_committed_keeps_race_winners() {
    let mut m = Memtable::new();
    let g_flushed = m.next_generation();
    let _g_intermediate = m.next_generation();
    let g_raced = m.next_generation();

    m.insert(b"a".to_vec(), Op::Write(b"racy".to_vec()), g_raced);
    m.drop_committed(&[(b"a".to_vec(), g_flushed)]);

    let still = m.get(b"a").expect("racy winner survived");
    assert_eq!(still.generation, g_raced);
}

#[test]
fn equal_generations_leave_the_first_insert() {
    let mut m = Memtable::new();
    let g = m.next_generation();
    m.insert_with_seq(b"k".to_vec(), Op::Write(b"1".to_vec()), g, 5);
    m.insert_with_seq(b"k".to_vec(), Op::Delete, g, 6);
    let e = m.get(b"k").unwrap();
    assert!(matches!(e.op, Op::Write(_)));
    assert_eq!(e.seq, 5);
    assert_eq!(m.len(), 1);
}

#[test]
fn generation_counter_only_moves_up() {
    let mut m = Memtable::new();
    assert_eq!(m.next_generation(), 1);
    m.advance_generation(10);
    assert_eq!(m.current_generation(), 10);
    m.advance_generation(3);
    assert_eq!(m.current_generation(), 10);
    assert_eq!(m.next_generation(), 11);
}

// --- the flusher ----------------------------------------------------------

#[test]
fn flusher_config_defaults_are_sensible() {
    let c = FlusherConfig::default();
    assert!(c.tick_interval >= Duration::from_millis(10));
    assert!(c.max_pending_rows >= 1);
    assert!(c.max_pending_bytes >= 64 * 1024);
    assert!(c.min_flush_interval >= Duration::from_millis(1));
    assert!(
        c.min_flush_interval <= c.tick_interval,
        "a periodic tick must never be blocked by the rate floor"
    );
}

#[test]
fn should_flush_triggers_on_rows() {
    let c = FlusherConfig::default();
    let past = c.min_flush_interval;
    assert!(!should_flush(&c, false, c.max_pending_rows - 1, 0, past));
    assert!(should_flush(&c, false, c.max_pending_rows, 0, past));
}

#[test]
fn should_flush_triggers_on_bytes() {
    let c = FlusherConfig::default();
    let past = c.min_flush_interval;
    assert!(should_flush(&c, false, 1, c.max_pending_bytes, past));
    assert!(!should_flush(&c, false, 1, c.max_pending_bytes - 1, past));
}

#[test]
fn should_flush_periodic_tick_flushes_nonempty() {
    let c = FlusherConfig::default();
    let past = c.min_flush_interval;
    assert!(should_flush(&c, true, 1, 1, past));
}

#[test]
fn should_flush_respects_rate_floor() {
    let c = FlusherConfig::default();
    let too_soon = c.min_flush_interval / 2;
    assert!(!should_flush(&c, true, c.max_pending_rows, c.max_pending_bytes, too_soon));
    assert!(!should_flush(&c, false, c.max_pending_rows, c.max_pending_bytes, too_soon));
    assert!(should_flush(&c, false, c.max_pending_rows, 0, c.min_flush_interval));
}

#[test]
fn flusher_defaults_are_these() {
    let c = FlusherConfig::default();
    assert_eq!(c.tick_interval, Duration::from_millis(100));
    assert_eq!(c.max_pending_rows, 1000);
    assert_eq!(c.max_pending_bytes, 8 * 1024 * 1024);
    assert_eq!(c.min_flush_interval, Duration::from_millis(50));
}

#[test]
fn rate_floor_is_exact_to_the_nanosecond() {
    let c = FlusherConfig::default();
    let one = Duration::from_nanos(1);
    assert!(!should_flush(&c, true, 1, 1, c.min_flush_interval - one));
    assert!(should_flush(&c, true, 1, 1, c.min_flush_interval));
}

#[test]
fn wake_ups_lead_to_the_right_action() {
    let c = FlusherConfig { max_pending_rows: 2, ..FlusherConfig::default() };
    let late = Duration::from_secs(1);
    let mut m = Memtable::new();
    assert_eq!(on_wake(&c, &m, m.current_generation(), Wake::Tick, late), FlushAction::Wait);
    assert_eq!(on_wake(&c, &m, m.current_generation(), Wake::Shutdown, Duration::ZERO), FlushAction::FinalDrain(0));
    let g = m.next_generation();
    m.insert(b"a".to_vec(), Op::Write(b"1".to_vec()), g);
    assert_eq!(on_wake(&c, &m, m.current_generation(), Wake::Nudge, late), FlushAction::Wait);
    assert_eq!(on_wake(&c, &m, m.current_generation(), Wake::Tick, late), FlushAction::Flush(1));
    assert_eq!(on_wake(&c, &m, m.current_generation(), Wake::Tick, Duration::ZERO), FlushAction::Wait);
    let g = m.next_generation();
    m.insert(b"b".to_vec(), Op::Delete, g);
    assert_eq!(on_wake(&c, &m, m.current_generation(), Wake::Nudge, late), FlushAction::Flush(2));
    assert!(!nudge_after_flush(&c, &m));
    m.insert(b"c".to_vec(), Op::Delete, g);
    assert!(nudge_after_flush(&c, &m));
    assert_eq!(on_wake(&c, &m, 1, Wake::Tick, late), FlushAction::Flush(1));
    assert_eq!(on_wake(&c, &m, 1, Wake::Shutdown, late), FlushAction::FinalDrain(1));
}

#[test]
fn flush_takes_old_entries_with_their_numbers_and_keeps_newer_ones() {
    let mut m = Memtable::new();
    for _ in 0..3 {
        m.next_generation();
    }
    m.insert_with_seq(b"a".to_vec(), Op::Write(b"1".to_vec()), 1, 11);
    m.insert_with_seq(b"b".to_vec(), Op::Delete, 2, 12);
    m.insert_with_seq(b"c".to_vec(), Op::Write(b"3".to_vec()), 3, 13);
    assert!(plan_flush(&m, 0).is_none());
    let plan = plan_flush(&m, 2).expect("two entries are due");
    assert_eq!(plan.source.writes, vec![(b"a".to_vec(), b"1".to_vec())]);
    assert_eq!(plan.source.write_seqs, vec![11]);
    assert_eq!(plan.source.deletes, vec![b"b".to_vec()]);
    assert_eq!(plan.source.delete_seqs, vec![12]);
    assert_eq!(plan.keep_from, 3);
    // A newer write lands while the flush is on its way.
    m.insert_with_seq(b"a".to_vec(), Op::Write(b"new".to_vec()), 4, 14);
    assert_eq!(complete_flush(&mut m, &plan), 2);
    assert_eq!(m.len(), 2);
    assert_eq!(m.get(b"a").unwrap().seq, 14);
    assert!(m.get(b"b").is_none());
}
