//! What commits, flushes and the log do, said of keys, records and rows.

use vstd::prelude::*;

use crate::kvs::err;
use crate::kvs::err::ErrorView;
use crate::kvs::lance::columns;
use crate::kvs::lance::columns::{ColumnKind, ColumnView};
use crate::kvs::lance::commit_gate;
use crate::kvs::lance::commit_gate::{ActionView, CoordinatorView, EventView, OutcomeView};
use crate::kvs::lance::commit_gate::{MergeSource, Submission, SubmissionView};
use crate::kvs::lance::commit_gate::MAX_BATCH_SIZE;
use crate::kvs::lance::datastore;
use crate::kvs::lance::flusher;
use crate::kvs::lance::flusher::{FlushPlan, FlusherConfig};
use crate::kvs::lance::laws;
use crate::kvs::lance::memtable;
use crate::kvs::lance::memtable::{EntryView, MemtableEntry, Op};
use crate::kvs::lance::scan;
use crate::kvs::lance::schema;
use crate::kvs::lance::tx_buffer;
use crate::kvs::lance::tx_buffer::PendingEntry;
use crate::kvs::lance::wal;
use crate::kvs::lance::wal::{RecordView, WalOp, WalRecord};
use crate::kvs::order;

verus! {

// Pending entries.

/// What is pending is a value or a deletion of each key, never both: the live
/// part holds the values, the dead part the deletions.
pub proof fn pending_is_live_or_dead(m: Map<Seq<u8>, Option<Seq<u8>>>, k: Seq<u8>, v: Seq<u8>)
    ensures
        m.contains_key(k) && m[k] == Some(v) <==> tx_buffer::live(m).contains_key(k)
            && tx_buffer::live(m)[k] == v,
        m.contains_key(k) && m[k] is None <==> tx_buffer::dead(m).contains(k),
        !(tx_buffer::live(m).contains_key(k) && tx_buffer::dead(m).contains(k)),
{
}

// The write buffer.

/// An insert touches its own key alone. There the new entry stands where there
/// was none or one of an older generation; else the old one stays, whole.
pub proof fn an_insert_touches_one_key(
    m: Map<Seq<u8>, EntryView>,
    k: Seq<u8>,
    new: EntryView,
    other: Seq<u8>,
)
    ensures
        ({
            let after = memtable::upserted(m, k, new);
            &&& after.contains_key(k)
            &&& !m.contains_key(k) || m[k].generation < new.generation ==> after[k] == new
            &&& m.contains_key(k) && m[k].generation >= new.generation ==> after[k] == m[k]
            &&& other != k ==> after.contains_key(other) == m.contains_key(other) && (
            m.contains_key(other) ==> after[other] == m[other])
        }),
{
}

/// Which entries a scan of the write buffer, a flush snapshot and the end of a
/// flush leave in: those with a key in the range, those of the generation or
/// below, and those that no flushed pair of their key covers. The others are
/// left out, and none is changed.
pub proof fn parts_of_the_write_buffer(
    m: Map<Seq<u8>, EntryView>,
    k: Seq<u8>,
    start: Seq<u8>,
    end: Seq<u8>,
    generation: u64,
    flushed: Seq<(Vec<u8>, u64)>,
)
    ensures
        memtable::rows_between(m, start, end).contains_key(k) <==> m.contains_key(k)
            && order::in_range(k, start, end),
        m.contains_key(k) && order::in_range(k, start, end) ==> memtable::rows_between(
            m,
            start,
            end,
        )[k] == m[k],
        memtable::rows_up_to(m, generation).contains_key(k) <==> m.contains_key(k)
            && m[k].generation <= generation,
        m.contains_key(k) && m[k].generation <= generation ==> memtable::rows_up_to(
            m,
            generation,
        )[k] == m[k],
        memtable::rows_without(m, flushed).contains_key(k) ==> m.contains_key(k)
            && memtable::rows_without(m, flushed)[k] == m[k],
        m.contains_key(k) ==> (memtable::rows_without(m, flushed).contains_key(k) <==> !exists|
            i: int,
        |
            0 <= i < flushed.len() && (#[trigger] flushed[i]).0@ == k && m[k].generation
                <= flushed[i].1),
{
    if m.contains_key(k) {
        if exists|i: int| memtable::covered_by(flushed, k, m[k], i) {
            let i = choose|i: int| memtable::covered_by(flushed, k, m[k], i);
            assert(flushed[i].0@ == k);
        }
        if exists|i: int|
            0 <= i < flushed.len() && (#[trigger] flushed[i]).0@ == k && m[k].generation
                <= flushed[i].1 {
            let i = choose|i: int|
                0 <= i < flushed.len() && (#[trigger] flushed[i]).0@ == k && m[k].generation
                    <= flushed[i].1;
            assert(memtable::covered_by(flushed, k, m[k], i));
        }
    }
}

/// The bytes of the write buffer: none without entries, and a new entry adds
/// the length of its key and, where it has a value, of the value.
pub proof fn the_write_buffer_weighs_its_entries(
    m: Map<Seq<u8>, EntryView>,
    k: Seq<u8>,
    e: EntryView,
    v: Seq<u8>,
)
    requires
        m.dom().finite(),
        !m.contains_key(k),
    ensures
        memtable::table_bytes(Map::empty()) == 0,
        e.value is None ==> memtable::table_bytes(m.insert(k, e)) == memtable::table_bytes(m)
            + k.len(),
        e.value == Some(v) ==> memtable::table_bytes(m.insert(k, e)) == memtable::table_bytes(m)
            + k.len() + v.len(),
        memtable::table_bytes(m) <= usize::MAX ==> flusher::measured_bytes(m)
            == memtable::table_bytes(m),
        memtable::table_bytes(m) > usize::MAX ==> flusher::measured_bytes(m) == usize::MAX,
{
    memtable::table_bytes_split(m.insert(k, e), k);
    assert(m.insert(k, e).remove(k) =~= m);
    assert(Map::<Seq<u8>, EntryView>::empty().len() == 0);
}

// Flushes.

/// A flush is due exactly if the rate floor has passed since the previous one
/// and the timer fired or the buffer has reached one of its two thresholds.
pub proof fn when_a_flush_is_due(
    config: FlusherConfig,
    periodic: bool,
    rows: nat,
    bytes: nat,
    since: nat,
)
    ensures
        since < flusher::duration_nanos(config.min_flush_interval) ==> !flusher::flush_due(
            config,
            periodic,
            rows,
            bytes,
            since,
        ),
        since >= flusher::duration_nanos(config.min_flush_interval) ==> (flusher::flush_due(
            config,
            periodic,
            rows,
            bytes,
            since,
        ) <==> periodic || rows >= config.max_pending_rows || bytes >= config.max_pending_bytes),
{
}

/// Every row of a flush carries the flush's generation as its version, and the
/// sequence number, the value or the deletion of the entry of its key; the
/// log keeps what is newer, and every flushed key is noted with the generation
/// of its entry.
pub proof fn a_flush_writes_its_entries(
    plan: FlushPlan,
    table: Map<Seq<u8>, EntryView>,
    up_to: u64,
    i: int,
    j: int,
)
    requires
        plan.flushes(table, up_to),
        0 <= i < laws::source_rows(plan.source).len(),
        0 <= j < plan.flushed@.len(),
    ensures
        ({
            let (k, row) = laws::source_rows(plan.source)[i];
            &&& table.contains_key(k)
            &&& table[k].generation <= up_to
            &&& row.version == up_to
            &&& row.seq == table[k].seq
            &&& row.tombstone <==> table[k].value is None
            &&& !row.tombstone ==> table[k].value == Some(row.val)
        }),
        table.contains_key(plan.flushed@[j].0@),
        table[plan.flushed@[j].0@].generation == plan.flushed@[j].1,
        plan.flushed@[j].1 <= up_to,
        up_to < u64::MAX ==> plan.keep_from == up_to + 1,
{
    laws::flush_represents_entries(plan, table, up_to);
    let f = flusher::flushed_views(plan.flushed@);
    assert(flusher::generations(memtable::rows_up_to(table, up_to)).contains_key(f[j].0));
    let s = laws::source_rows(plan.source);
    let layer = scan::table_values(memtable::rows_up_to(table, up_to));
    assert(layer.contains_key(s[i].0));
}

// The log.

/// A frame is four bytes, which give the length of the body with the lowest
/// byte first, and the body.
pub proof fn a_frame_is_a_length_and_the_body(body: Seq<u8>, i: int)
    requires
        wal::frameable(body),
    ensures
        wal::frame(body).len() == 4 + body.len(),
        wal::frame(body)[0] + 0x100 * wal::frame(body)[1] + 0x1_0000 * wal::frame(body)[2]
            + 0x100_0000 * wal::frame(body)[3] == body.len(),
        0 <= i < body.len() ==> wal::frame(body)[4 + i] == body[i],
{
    let n = body.len();
    assert(n == n % 256 + 256 * (n / 256 % 256) + 65536 * (n / 65536 % 256) + 16777216 * (n
        / 16777216 % 256));
}

/// A body fits a frame exactly if its length fits four bytes.
pub proof fn what_fits_a_frame(body: Seq<u8>)
    ensures
        wal::frameable(body) <==> body.len() < 0x1_0000_0000,
{
}

/// A truncation takes each record on its own: those of the generation or above
/// stay, in their order, and the others go.
pub proof fn truncation_takes_each_record_on_its_own(
    a: Seq<RecordView>,
    r: RecordView,
    min: u64,
)
    ensures
        r.generation >= min ==> wal::retained(a.push(r), min) == wal::retained(a, min).push(r),
        r.generation < min ==> wal::retained(a.push(r), min) == wal::retained(a, min),
        wal::retained(Seq::empty(), min) == Seq::<RecordView>::empty(),
{
    reveal(Seq::filter);
    assert(a.push(r).drop_last() =~= a);
    assert(wal::retained(Seq::empty(), min) =~= Seq::empty());
}

// Commits through the log.

/// A commit's record holds its writes in their order, each with its value, and
/// behind them its deletions.
pub proof fn a_record_holds_the_commit(
    writes: Seq<(Seq<u8>, Seq<u8>)>,
    deletes: Seq<Seq<u8>>,
    i: int,
)
    ensures
        datastore::commit_ops(writes, deletes).len() == writes.len() + deletes.len(),
        0 <= i < writes.len() ==> datastore::commit_ops(writes, deletes)[i] == (
            writes[i].0,
            Some(writes[i].1),
        ),
        0 <= i < deletes.len() ==> datastore::commit_ops(writes, deletes)[writes.len() + i] == (
            deletes[i],
            None::<Seq<u8>>,
        ),
{
}

/// A commit changes no key that it does not touch. A key that it touches once,
/// and that has no entry as new, gets the operation under the commit's
/// generation and sequence number.
pub proof fn a_commit_changes_what_it_touches(
    m: Map<Seq<u8>, EntryView>,
    ops: Seq<(Seq<u8>, Option<Seq<u8>>)>,
    generation: u64,
    seq: u64,
    i: int,
    other: Seq<u8>,
)
    requires
        0 <= i < ops.len(),
        forall|j: int| 0 <= j < ops.len() && j != i ==> (#[trigger] ops[j]).0 != ops[i].0,
        forall|j: int| 0 <= j < ops.len() ==> (#[trigger] ops[j]).0 != other,
    ensures
        ({
            let after = datastore::with_ops(m, ops, generation, seq);
            &&& after.contains_key(ops[i].0)
            &&& !m.contains_key(ops[i].0) || m[ops[i].0].generation < generation ==> after[ops[i].0]
                == (EntryView { value: ops[i].1, generation, seq })
            &&& m.contains_key(ops[i].0) && m[ops[i].0].generation >= generation
                ==> after[ops[i].0] == m[ops[i].0]
            &&& after.contains_key(other) == m.contains_key(other)
            &&& m.contains_key(other) ==> after[other] == m[other]
        }),
    decreases ops.len(),
{
    let rest = ops.drop_last();
    lemma_untouched(m, ops, generation, seq, other);
    if i == ops.len() - 1 {
        assert forall|j: int| 0 <= j < rest.len() implies (#[trigger] rest[j]).0 != ops[i].0 by {
            assert(ops[j].0 != ops[i].0);
        }
        lemma_untouched(m, rest, generation, seq, ops[i].0);
    } else {
        assert forall|j: int| 0 <= j < rest.len() && j != i implies (#[trigger] rest[j]).0
            != rest[i].0 by {
            assert(ops[j].0 != ops[i].0);
        }
        assert forall|j: int| 0 <= j < rest.len() implies (#[trigger] rest[j]).0 != other by {
            assert(ops[j].0 != other);
        }
        a_commit_changes_what_it_touches(m, rest, generation, seq, i, other);
        assert(ops[ops.len() - 1].0 != ops[i].0);
    }
}

proof fn lemma_untouched(
    m: Map<Seq<u8>, EntryView>,
    ops: Seq<(Seq<u8>, Option<Seq<u8>>)>,
    generation: u64,
    seq: u64,
    k: Seq<u8>,
)
    requires
        forall|j: int| 0 <= j < ops.len() ==> (#[trigger] ops[j]).0 != k,
    ensures
        datastore::with_ops(m, ops, generation, seq).contains_key(k) == m.contains_key(k),
        m.contains_key(k) ==> datastore::with_ops(m, ops, generation, seq)[k] == m[k],
    decreases ops.len(),
{
    if ops.len() > 0 {
        let rest = ops.drop_last();
        assert forall|j: int| 0 <= j < rest.len() implies (#[trigger] rest[j]).0 != k by {
            assert(ops[j].0 != k);
        }
        lemma_untouched(m, rest, generation, seq, k);
        assert(ops[ops.len() - 1].0 != k);
    }
}

/// The generation counter after a recovery is the highest generation of the
/// log, 0 for an empty one; the `n`-th commit after a number has that number
/// and `n`, as long as numbers last, and after the largest comes 0.
pub proof fn counters_after_a_recovery(records: Seq<RecordView>, floor: u64, n: nat)
    ensures
        forall|i: int|
            0 <= i < records.len() ==> (#[trigger] records[i]).generation
                <= datastore::max_generation(records),
        records.len() == 0 ==> datastore::max_generation(records) == 0,
        records.len() > 0 ==> exists|i: int|
            0 <= i < records.len() && (#[trigger] records[i]).generation
                == datastore::max_generation(records),
        floor + n <= u64::MAX ==> datastore::seq_after(floor, n) == floor + n,
        datastore::seq_after(u64::MAX, 1) == 0,
    decreases records.len(),
{
    if records.len() > 0 {
        let rest = records.drop_last();
        counters_after_a_recovery(rest, floor, n);
        let top = datastore::max_generation(records);
        assert forall|i: int| 0 <= i < records.len() implies (#[trigger] records[i]).generation
            <= top by {
            if i < rest.len() {
                assert(rest[i] == records[i]);
            }
        }
        if top == records.last().generation {
            assert(records[records.len() - 1].generation == top);
        } else {
            let i = choose|i: int|
                0 <= i < rest.len() && (#[trigger] rest[i]).generation == datastore::max_generation(
                    rest,
                );
            assert(records[i].generation == top);
        }
    }
}

/// A generation that has arrived is no longer on its way; every other one stays.
pub proof fn arrived_generations_leave(on_the_way: Seq<u64>, generation: u64, g: u64)
    ensures
        datastore::settled(on_the_way, generation).contains(g) <==> on_the_way.contains(g) && g
            != generation,
    decreases on_the_way.len(),
{
    if on_the_way.len() > 0 {
        let rest = on_the_way.drop_last();
        let left = datastore::settled(rest, generation);
        arrived_generations_leave(rest, generation, g);
        if on_the_way.contains(g) && on_the_way.last() != g {
            let i = choose|i: int| 0 <= i < on_the_way.len() && on_the_way[i] == g;
            assert(rest[i] == g);
        }
        if rest.contains(g) {
            let i = choose|i: int| 0 <= i < rest.len() && rest[i] == g;
            assert(on_the_way[i] == g);
        }
        if on_the_way.last() == g {
            assert(on_the_way[on_the_way.len() - 1] == g);
        }
        if on_the_way.last() != generation {
            let more = left.push(on_the_way.last());
            if left.contains(g) {
                let i = choose|i: int| 0 <= i < left.len() && left[i] == g;
                assert(more[i] == g);
            }
            assert(more[left.len() as int] == on_the_way.last());
            if more.contains(g) && g != on_the_way.last() {
                let i = choose|i: int| 0 <= i < more.len() && more[i] == g;
                assert(left[i] == g);
            }
        }
    }
}

// Commits through a commit gate.

/// What a batch makes of a key, by its last commit: deleted where that commit
/// deletes it; else its last write of the key; else what the commits before it
/// made of the key. An empty batch touches nothing.
pub proof fn the_last_commit_of_a_key_decides(
    batch: Seq<SubmissionView>,
    sub: SubmissionView,
    k: Seq<u8>,
    i: int,
)
    ensures
        ({
            let before = commit_gate::coalesced(batch);
            let after = commit_gate::coalesced(batch.push(sub));
            &&& sub.deletes.contains(k) ==> after.contains_key(k) && after[k] is None
            &&& !sub.deletes.contains(k) && 0 <= i < sub.writes.len() && sub.writes[i].0 == k && (
            forall|j: int| i < j < sub.writes.len() ==> (#[trigger] sub.writes[j]).0 != k)
                ==> after.contains_key(k) && after[k] == Some(sub.writes[i].1)
            &&& !sub.deletes.contains(k) && (forall|j: int|
                0 <= j < sub.writes.len() ==> (#[trigger] sub.writes[j]).0 != k)
                ==> after.contains_key(k) == before.contains_key(k) && (before.contains_key(k)
                ==> after[k] == before[k])
        }),
        commit_gate::coalesced(Seq::empty()) == Map::<Seq<u8>, Option<Seq<u8>>>::empty(),
{
    assert(batch.push(sub).drop_last() =~= batch);
    let before = commit_gate::coalesced(batch);
    lemma_writes_of(before, sub.writes, k, i);
    lemma_deletes_of(commit_gate::with_writes(before, sub.writes), sub.deletes, k);
}

proof fn lemma_writes_of(
    m: Map<Seq<u8>, Option<Seq<u8>>>,
    writes: Seq<(Seq<u8>, Seq<u8>)>,
    k: Seq<u8>,
    i: int,
)
    ensures
        0 <= i < writes.len() && writes[i].0 == k && (forall|j: int|
            i < j < writes.len() ==> (#[trigger] writes[j]).0 != k) ==> commit_gate::with_writes(
            m,
            writes,
        ).contains_key(k) && commit_gate::with_writes(m, writes)[k] == Some(writes[i].1),
        (forall|j: int| 0 <= j < writes.len() ==> (#[trigger] writes[j]).0 != k)
            ==> commit_gate::with_writes(m, writes).contains_key(k) == m.contains_key(k) && (
        m.contains_key(k) ==> commit_gate::with_writes(m, writes)[k] == m[k]),
    decreases writes.len(),
{
    if writes.len() > 0 {
        let rest = writes.drop_last();
        lemma_writes_of(m, rest, k, i);
        if forall|j: int| 0 <= j < writes.len() ==> (#[trigger] writes[j]).0 != k {
            assert forall|j: int| 0 <= j < rest.len() implies (#[trigger] rest[j]).0 != k by {
                assert(writes[j].0 != k);
            }
            assert(writes[writes.len() - 1].0 != k);
        }
        if 0 <= i < writes.len() && writes[i].0 == k && (forall|j: int|
            i < j < writes.len() ==> (#[trigger] writes[j]).0 != k) && i < rest.len() {
            assert forall|j: int| i < j < rest.len() implies (#[trigger] rest[j]).0 != k by {
                assert(writes[j].0 != k);
            }
            assert(writes[writes.len() - 1].0 != k);
        }
    }
}

proof fn lemma_deletes_of(m: Map<Seq<u8>, Option<Seq<u8>>>, deletes: Seq<Seq<u8>>, k: Seq<u8>)
    ensures
        deletes.contains(k) ==> commit_gate::with_deletes(m, deletes).contains_key(k)
            && commit_gate::with_deletes(m, deletes)[k] is None,
        !deletes.contains(k) ==> commit_gate::with_deletes(m, deletes).contains_key(k)
            == m.contains_key(k) && (m.contains_key(k) ==> commit_gate::with_deletes(m, deletes)[k]
            == m[k]),
    decreases deletes.len(),
{
    if deletes.len() > 0 {
        let rest = deletes.drop_last();
        lemma_deletes_of(m, rest, k);
        if deletes.contains(k) && deletes.last() != k {
            let i = choose|i: int| 0 <= i < deletes.len() && deletes[i] == k;
            assert(rest[i] == k);
        }
        if rest.contains(k) {
            let i = choose|i: int| 0 <= i < rest.len() && rest[i] == k;
            assert(deletes[i] == k);
        }
        if deletes.last() == k {
            assert(deletes[deletes.len() - 1] == k);
        }
    }
}

/// The version of a batch is the highest of its commits', 0 for an empty one.
pub proof fn a_batch_has_its_highest_version(batch: Seq<SubmissionView>)
    ensures
        forall|i: int|
            0 <= i < batch.len() ==> (#[trigger] batch[i]).version <= commit_gate::max_version(
                batch,
            ),
        batch.len() == 0 ==> commit_gate::max_version(batch) == 0,
        batch.len() > 0 ==> exists|i: int|
            0 <= i < batch.len() && (#[trigger] batch[i]).version == commit_gate::max_version(
                batch,
            ),
    decreases batch.len(),
{
    if batch.len() > 0 {
        let rest = batch.drop_last();
        a_batch_has_its_highest_version(rest);
        let top = commit_gate::max_version(batch);
        assert forall|i: int| 0 <= i < batch.len() implies (#[trigger] batch[i]).version
            <= top by {
            if i < rest.len() {
                assert(rest[i] == batch[i]);
            }
        }
        if top == batch.last().version {
            assert(batch[batch.len() - 1].version == top);
        } else {
            let i = choose|i: int|
                0 <= i < rest.len() && (#[trigger] rest[i]).version == commit_gate::max_version(
                    rest,
                );
            assert(batch[i].version == top);
        }
    }
}

/// What each commit of a batch reports: success exactly if the merge landed, a
/// conflict exactly if the merge met one, with its text, and any other error as
/// a failure of the store with the text of that error.
pub proof fn commits_report_how_the_merge_went(e: ErrorView, text: Seq<char>)
    ensures
        commit_gate::reported(OutcomeView::Landed) == Ok::<(), ErrorView>(()),
        commit_gate::reported(commit_gate::outcome_of_error(e)) is Err,
        e == ErrorView::TransactionConflict(text) ==> commit_gate::reported(
            commit_gate::outcome_of_error(e),
        ) == Err::<(), ErrorView>(e),
        !(e is TransactionConflict) ==> commit_gate::reported(commit_gate::outcome_of_error(e))
            == Err::<(), ErrorView>(ErrorView::Datastore(err::error_text(e))),
{
}

/// The coordinator keeps no commit waiting for longer than it must: a batch
/// goes when it is full, when its window has passed and when nothing more can
/// come, and before that the coordinator waits for more. Between batches a
/// shutdown closes the intake once, and when nothing more can come the
/// coordinator leaves; it does not leave before.
pub proof fn the_coordinator_acts_in_time(state: CoordinatorView, sub: SubmissionView)
    requires
        state.batch.len() < MAX_BATCH_SIZE,
    ensures
        ({
            let (next, action) = commit_gate::gate_step(state, EventView::Submitted(sub));
            &&& next.shutting_down == state.shutting_down
            &&& state.batch.len() + 1 == MAX_BATCH_SIZE ==> action == ActionView::Execute(
                state.batch.push(sub),
            ) && next.batch.len() == 0
            &&& state.batch.len() + 1 < MAX_BATCH_SIZE ==> action == ActionView::AwaitMore
                && next.batch == state.batch.push(sub)
        }),
        ({
            let (next, action) = commit_gate::gate_step(state, EventView::WindowExpired);
            &&& next.shutting_down == state.shutting_down
            &&& next.batch.len() == 0
            &&& state.batch.len() > 0 ==> action == ActionView::Execute(state.batch)
            &&& state.batch.len() == 0 ==> action == (ActionView::AwaitFirst {
                watch_shutdown: !state.shutting_down,
            })
        }),
        ({
            let (next, action) = commit_gate::gate_step(state, EventView::Closed);
            &&& next.shutting_down == state.shutting_down
            &&& next.batch.len() == 0
            &&& state.batch.len() > 0 ==> action == ActionView::Execute(state.batch)
            &&& state.batch.len() == 0 ==> action == ActionView::Exit
        }),
        ({
            let (next, action) = commit_gate::gate_step(state, EventView::Shutdown);
            &&& next.batch == state.batch
            &&& state.batch.len() > 0 ==> action == ActionView::AwaitMore && next.shutting_down
                == state.shutting_down
            &&& state.batch.len() == 0 ==> next.shutting_down
            &&& state.batch.len() == 0 && !state.shutting_down ==> action
                == ActionView::CloseSubmissions
            &&& state.batch.len() == 0 && state.shutting_down ==> action
                == (ActionView::AwaitFirst { watch_shutdown: false })
        }),
{
}

// Rows in the dataset.

/// The columns of a batch of rows, row by row: its key and its value, the
/// version and the mark that all rows share, and its own sequence number.
pub proof fn columns_hold_the_rows(
    keys: Seq<Seq<u8>>,
    vals: Seq<Seq<u8>>,
    version: u64,
    tombstone: bool,
    seqs: Seq<u64>,
    i: int,
)
    requires
        0 <= i < keys.len(),
        keys.len() == vals.len(),
        keys.len() == seqs.len(),
    ensures
        ({
            let c = schema::dataset_columns(keys, vals, version, tombstone, seqs);
            let kv = schema::kv_columns(keys, vals, version, tombstone);
            &&& c["key"@] == ColumnView::Binary(keys) && kv["key"@] == c["key"@]
            &&& c["val"@] == ColumnView::Binary(vals) && kv["val"@] == c["val"@]
            &&& c["version"@] is UInt64 && c["version"@]->UInt64_0.len() == keys.len()
            &&& c["version"@]->UInt64_0[i] == version && kv["version"@] == c["version"@]
            &&& c["tombstone"@] is Boolean && c["tombstone"@]->Boolean_0.len() == keys.len()
            &&& c["tombstone"@]->Boolean_0[i] == tombstone && kv["tombstone"@] == c["tombstone"@]
            &&& c["seq"@] == ColumnView::UInt64(seqs)
            &&& !kv.contains_key("seq"@)
        }),
{
    schema::lemma_names();
}

/// A deletion mark has an empty value.
pub proof fn deletion_marks_have_no_value(n: nat, i: int)
    requires
        0 <= i < n,
    ensures
        schema::no_vals(n).len() == n,
        schema::no_vals(n)[i].len() == 0,
{
}

/// The columns of a row, none of which may be empty: key, value, version and
/// deletion mark, and in the dataset the sequence number.
pub proof fn rows_have_these_columns(i: int)
    ensures
        schema::kv_fields().len() == 4,
        schema::dataset_fields().len() == 5,
        0 <= i < 4 ==> schema::dataset_fields()[i] == schema::kv_fields()[i],
        0 <= i < 5 ==> !schema::dataset_fields()[i].nullable,
        schema::dataset_fields()[0].name == "key"@ && schema::dataset_fields()[0].kind
            == ColumnKind::Binary,
        schema::dataset_fields()[1].name == "val"@ && schema::dataset_fields()[1].kind
            == ColumnKind::Binary,
        schema::dataset_fields()[2].name == "version"@ && schema::dataset_fields()[2].kind
            == ColumnKind::UInt64,
        schema::dataset_fields()[3].name == "tombstone"@ && schema::dataset_fields()[3].kind
            == ColumnKind::Boolean,
        schema::dataset_fields()[4].name == "seq"@ && schema::dataset_fields()[4].kind
            == ColumnKind::UInt64,
{
}

/// The value of a hexadecimal digit in lower case.
pub open spec fn digit_value(c: char) -> int {
    if '0' <= c && c <= '9' {
        c as int - '0' as int
    } else if 'a' <= c && c <= 'f' {
        10 + (c as int - 'a' as int)
    } else {
        -1
    }
}

/// The literal of a key spells it out: two hexadecimal digits in lower case for
/// each byte, in its order, the high one first, between `X'` and `'`.
pub proof fn literals_spell_the_key(key: Seq<u8>, i: int)
    requires
        0 <= i < key.len(),
    ensures
        schema::hex_text(key).len() == 2 * key.len(),
        16 * digit_value(schema::hex_text(key)[2 * i]) + digit_value(
            schema::hex_text(key)[2 * i + 1],
        ) == key[i],
        0 <= digit_value(schema::hex_text(key)[2 * i]) < 16,
        0 <= digit_value(schema::hex_text(key)[2 * i + 1]) < 16,
        schema::literal(key) == "X'"@ + schema::hex_text(key) + "'"@,
{
    assert((2 * i) / 2 == i && (2 * i) % 2 == 0);
    assert((2 * i + 1) / 2 == i && (2 * i + 1) % 2 == 1);
}

/// The filters name what they select: the live row of one key; the live rows
/// from the start up to and without the end; the rows of the listed keys, one
/// literal for each in their order, and nothing for no keys.
pub proof fn filters_name_what_they_select(
    key: Seq<u8>,
    start: Seq<u8>,
    end: Seq<u8>,
    keys: Seq<Seq<u8>>,
)
    ensures
        schema::get_predicate(key) == "key = "@ + schema::literal(key) + " AND tombstone = false"@,
        schema::range_predicate(start, end) == "key >= "@ + schema::literal(start)
            + " AND key < "@ + schema::literal(end) + " AND tombstone = false"@,
        schema::delete_predicate(Seq::empty()) == "false"@,
        schema::delete_predicate(seq![key]) == "key IN ("@ + schema::literal(key) + ")"@,
        keys.len() > 0 ==> schema::delete_predicate(keys.push(key)) == "key IN ("@
            + schema::literal_list(keys) + ", "@ + schema::literal(key) + ")"@
            && schema::delete_predicate(keys) == "key IN ("@ + schema::literal_list(keys) + ")"@,
{
    reveal_with_fuel(schema::literal_list, 2);
    assert(seq![key][0] == key);
    if keys.len() > 0 {
        assert(keys.push(key).drop_last() =~= keys);
        assert(schema::delete_predicate(keys.push(key)) =~= "key IN ("@ + schema::literal_list(
            keys,
        ) + ", "@ + schema::literal(key) + ")"@);
    }
}

// What was handed over.

/// An entry of a transaction, of the write buffer and of the log says the same
/// of a write, its value, and of a deletion, that there is none.
pub proof fn entries_are_values_or_deletions(
    pending: PendingEntry,
    buffered: MemtableEntry,
    logged: WalOp,
    submitted: Submission,
)
    ensures
        match pending {
            PendingEntry::Write(v) => pending@ == Some(v@),
            PendingEntry::Delete => pending@ is None,
        },
        match buffered.op {
            Op::Write(v) => buffered@.value == Some(v@),
            Op::Delete => buffered@.value is None,
        },
        buffered@.generation == buffered.generation,
        buffered@.seq == buffered.seq,
        match logged {
            WalOp::Write { key, val } => logged@ == (key@, Some(val@)),
            WalOp::Delete { key } => logged@ == (key@, None::<Seq<u8>>),
        },
        submitted@.writes.len() == submitted.writes@.len(),
        forall|i: int|
            0 <= i < submitted.writes@.len() ==> #[trigger] submitted@.writes[i] == (
                submitted.writes@[i].0@,
                submitted.writes@[i].1@,
            ),
        submitted@.deletes.len() == submitted.deletes@.len(),
        forall|i: int|
            0 <= i < submitted.deletes@.len() ==> #[trigger] submitted@.deletes[i]
                == submitted.deletes@[i]@,
        submitted@.version == submitted.version,
{
}

/// A record of the log has its generation, and its entries at their places.
pub proof fn records_hold_their_entries(r: WalRecord, records: Seq<WalRecord>)
    ensures
        r@.generation == r.generation,
        r@.ops.len() == r.ops@.len(),
        forall|i: int| 0 <= i < r.ops@.len() ==> #[trigger] r@.ops[i] == r.ops@[i]@,
        wal::record_views(records).len() == records.len(),
        forall|i: int|
            0 <= i < records.len() ==> #[trigger] wal::record_views(records)[i] == records[i]@,
{
}

/// Which failure is reported where several records cannot be read or framed:
/// the first.
pub proof fn the_first_failure_is_reported(
    decoded: Seq<Result<WalRecord, String>>,
    bodies: Seq<Seq<u8>>,
    i: int,
    j: int,
)
    ensures
        wal::first_undecoded(decoded, i) ==> 0 <= i < decoded.len() && decoded[i] is Err && (0 <= j
            < i ==> decoded[j] is Ok),
        wal::first_oversized(bodies, i) ==> 0 <= i < bodies.len() && bodies[i].len() > u32::MAX && (
        0 <= j < i ==> bodies[j].len() <= u32::MAX),
{
}

/// What a commit may hold: each column of bytes fits one array.
pub proof fn what_fits_a_commit(source: MergeSource)
    ensures
        commit_gate::within_limits(source) <==> {
            &&& columns::total_bytes(
                Seq::new(source.writes@.len(), |i: int| source.writes@[i].0@),
            ) <= 0x7fff_ffff
            &&& columns::total_bytes(
                Seq::new(source.writes@.len(), |i: int| source.writes@[i].1@),
            ) <= 0x7fff_ffff
            &&& columns::total_bytes(
                Seq::new(source.deletes@.len(), |i: int| source.deletes@[i]@),
            ) <= 0x7fff_ffff
        },
{
    assert(schema::pair_keys(source.writes@) =~= Seq::new(
        source.writes@.len(),
        |i: int| source.writes@[i].0@,
    ));
    assert(schema::pair_vals(source.writes@) =~= Seq::new(
        source.writes@.len(),
        |i: int| source.writes@[i].1@,
    ));
    assert(order::key_views(source.deletes@) =~= Seq::new(
        source.deletes@.len(),
        |i: int| source.deletes@[i]@,
    ));
}

/// The bytes of values: none without values, and a further value adds its
/// length.
pub proof fn values_weigh_their_bytes(values: Seq<Seq<u8>>, v: Seq<u8>)
    ensures
        columns::total_bytes(Seq::<Seq<u8>>::empty()) == 0,
        columns::total_bytes(values.push(v)) == columns::total_bytes(values) + v.len(),
{
    assert(values.push(v).drop_last() =~= values);
}

} // verus!
