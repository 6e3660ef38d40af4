//! What a restart finds again.
//!
//! A commit is acknowledged when the log has its record. Flushes move the write
//! buffer into the dataset and cut the log behind it, while commits go on. The
//! dataset and the log together show every acknowledged commit all the while.

use vstd::prelude::*;

use crate::kvs::lance::datastore;
use crate::kvs::lance::flusher::FlushPlan;
use crate::kvs::lance::laws;
use crate::kvs::lance::memtable;
use crate::kvs::lance::memtable::EntryView;
use crate::kvs::lance::scan;
use crate::kvs::lance::wal;
use crate::kvs::lance::wal::RecordView;

verus! {

/// Two entries say the same, but for their sequence numbers.
pub open spec fn agree(a: EntryView, b: EntryView) -> bool {
    a.value == b.value && a.generation == b.generation
}

/// `part` has exactly the entries of `whole` of generation `min` or above.
pub open spec fn newer_part(
    whole: Map<Seq<u8>, EntryView>,
    part: Map<Seq<u8>, EntryView>,
    min: u64,
) -> bool {
    forall|k: Seq<u8>|
        #![trigger part.contains_key(k)]
        #![trigger whole.contains_key(k)]
        part.contains_key(k) == (whole.contains_key(k) && whole[k].generation >= min) && (
        part.contains_key(k) ==> agree(part[k], whole[k]))
}

proof fn lemma_ops_newer_part(
    whole: Map<Seq<u8>, EntryView>,
    part: Map<Seq<u8>, EntryView>,
    r: RecordView,
    seq: u64,
    other: u64,
    min: u64,
    n: nat,
)
    requires
        newer_part(whole, part, min),
        n <= r.ops.len(),
    ensures
        newer_part(
            datastore::with_ops(whole, r.ops.take(n as int), r.generation, seq),
            if r.generation >= min {
                datastore::with_ops(part, r.ops.take(n as int), r.generation, other)
            } else {
                part
            },
            min,
        ),
    decreases n,
{
    if n > 0 {
        let ops = r.ops.take(n as int);
        assert(ops.drop_last() =~= r.ops.take(n - 1));
        lemma_ops_newer_part(whole, part, r, seq, other, min, (n - 1) as nat);
        let w = datastore::with_ops(whole, ops.drop_last(), r.generation, seq);
        assert(w.contains_key(ops.last().0) || !w.contains_key(ops.last().0));
    }
}

proof fn lemma_retained(records: Seq<RecordView>, floor: u64, other: u64, min: u64)
    ensures
        newer_part(
            datastore::with_records(memtable::no_rows(), records, floor),
            datastore::with_records(memtable::no_rows(), wal::retained(records, min), other),
            min,
        ),
    decreases records.len(),
{
    reveal(Seq::filter);
    if records.len() > 0 {
        let rest = records.drop_last();
        let r = records.last();
        lemma_retained(rest, floor, other, min);
        let whole = datastore::with_records(memtable::no_rows(), rest, floor);
        let kept = wal::retained(rest, min);
        let part = datastore::with_records(memtable::no_rows(), kept, other);
        assert(r.ops.take(r.ops.len() as int) =~= r.ops);
        lemma_ops_newer_part(
            whole,
            part,
            r,
            datastore::seq_after(floor, records.len()),
            datastore::seq_after(other, kept.len() + 1),
            min,
            r.ops.len(),
        );
        if r.generation >= min {
            assert(wal::retained(records, min) =~= kept.push(r));
            assert(kept.push(r).drop_last() =~= kept);
        } else {
            assert(wal::retained(records, min) =~= kept);
        }
    }
}

/// `table` is behind `logged` by nothing but entries of generations above
/// `up_to`.
pub open spec fn lags(
    table: Map<Seq<u8>, EntryView>,
    logged: Map<Seq<u8>, EntryView>,
    up_to: u64,
) -> bool {
    forall|k: Seq<u8>|
        #![trigger table.contains_key(k)]
        #![trigger logged.contains_key(k)]
        (table.contains_key(k) ==> logged.contains_key(k)) && (logged.contains_key(k) ==> (
        table.contains_key(k) && agree(table[k], logged[k])) || (logged[k].generation > up_to && (
        table.contains_key(k) ==> logged[k].generation > table[k].generation)))
}

/// Where `table` is behind `logged`, it is not by generation `generation`.
spec fn behind_by_others(
    table: Map<Seq<u8>, EntryView>,
    logged: Map<Seq<u8>, EntryView>,
    generation: u64,
) -> bool {
    forall|k: Seq<u8>| #[trigger]
        logged.contains_key(k) && !(table.contains_key(k) && agree(table[k], logged[k]))
            ==> logged[k].generation != generation
}

proof fn lemma_ops_lag(
    table: Map<Seq<u8>, EntryView>,
    logged: Map<Seq<u8>, EntryView>,
    ops: Seq<(Seq<u8>, Option<Seq<u8>>)>,
    generation: u64,
    seq: u64,
    other: u64,
    up_to: u64,
)
    requires
        lags(table, logged, up_to),
        behind_by_others(table, logged, generation),
    ensures
        ({
            let t = datastore::with_ops(table, ops, generation, seq);
            let l = datastore::with_ops(logged, ops, generation, other);
            lags(t, l, up_to) && behind_by_others(t, l, generation)
        }),
    decreases ops.len(),
{
    if ops.len() > 0 {
        lemma_ops_lag(table, logged, ops.drop_last(), generation, seq, other, up_to);
        let t = datastore::with_ops(table, ops.drop_last(), generation, seq);
        let l = datastore::with_ops(logged, ops.drop_last(), generation, other);
        assert(t.contains_key(ops.last().0) ==> l.contains_key(ops.last().0));
    }
}

proof fn lemma_ops_ahead(
    table: Map<Seq<u8>, EntryView>,
    logged: Map<Seq<u8>, EntryView>,
    ops: Seq<(Seq<u8>, Option<Seq<u8>>)>,
    generation: u64,
    seq: u64,
    up_to: u64,
)
    requires
        lags(table, logged, up_to),
        generation > up_to,
    ensures
        lags(table, datastore::with_ops(logged, ops, generation, seq), up_to),
    decreases ops.len(),
{
    if ops.len() > 0 {
        lemma_ops_ahead(table, logged, ops.drop_last(), generation, seq, up_to);
        let l = datastore::with_ops(logged, ops.drop_last(), generation, seq);
        assert(l.contains_key(ops.last().0) || !l.contains_key(ops.last().0));
    }
}

/// The record has an operation on `k`.
pub open spec fn touches(r: RecordView, k: Seq<u8>) -> bool {
    exists|j: int| laws::op_at(r.ops, k, j)
}

/// Operation `j` is the first of the record on its key.
pub open spec fn first_touch(r: RecordView, j: int) -> bool {
    &&& 0 <= j < r.ops.len()
    &&& forall|b: int| 0 <= b < j ==> (#[trigger] r.ops[b]).0 != r.ops[j].0
}

proof fn lemma_ops_newest(
    m: Map<Seq<u8>, EntryView>,
    ops: Seq<(Seq<u8>, Option<Seq<u8>>)>,
    generation: u64,
    seq: u64,
    k: Seq<u8>,
    j: int,
)
    requires
        0 <= j <= ops.len(),
        forall|b: int| 0 <= b < j ==> (#[trigger] ops[b]).0 != k,
        j < ops.len() ==> ops[j].0 == k,
    ensures
        ({
            let after = datastore::with_ops(m, ops, generation, seq);
            if j == ops.len() || (m.contains_key(k) && m[k].generation >= generation) {
                after.contains_key(k) == m.contains_key(k) && (m.contains_key(k) ==> after[k]
                    == m[k])
            } else {
                after.contains_key(k) && after[k] == (EntryView {
                    value: ops[j].1,
                    generation,
                    seq,
                })
            }
        }),
    decreases ops.len(),
{
    if ops.len() > 0 {
        let rest = ops.drop_last();
        let at = if j < rest.len() {
            j
        } else {
            rest.len() as int
        };
        assert forall|b: int| 0 <= b < at implies (#[trigger] rest[b]).0 != k by {
            assert(ops[b].0 != k);
        }
        lemma_ops_newest(m, rest, generation, seq, k, at);
        if j == ops.len() {
            assert(ops[ops.len() - 1].0 != k);
        }
    }
}

proof fn lemma_record_of_an_entry(records: Seq<RecordView>, floor: u64, k: Seq<u8>)
    requires
        datastore::with_records(memtable::no_rows(), records, floor).contains_key(k),
    ensures
        exists|i: int|
            0 <= i < records.len() && touches(#[trigger] records[i], k) && records[i].generation
                == datastore::with_records(memtable::no_rows(), records, floor)[k].generation,
    decreases records.len(),
{
    if records.len() > 0 {
        let rest = records.drop_last();
        let r = records.last();
        let before = datastore::with_records(memtable::no_rows(), rest, floor);
        let seq = datastore::seq_after(floor, records.len());
        let after = datastore::with_records(memtable::no_rows(), records, floor);
        let j = lemma_first_touch(r, k);
        lemma_ops_newest(before, r.ops, r.generation, seq, k, j);
        if j == r.ops.len() || (before.contains_key(k) && before[k].generation >= r.generation) {
            lemma_record_of_an_entry(rest, floor, k);
            let i = choose|i: int|
                0 <= i < rest.len() && touches(#[trigger] rest[i], k) && rest[i].generation
                    == before[k].generation;
            assert(records[i] == rest[i]);
        } else {
            assert(laws::op_at(r.ops, k, j));
            assert(touches(records[records.len() - 1], k));
        }
    }
}

proof fn lemma_first_touch(r: RecordView, k: Seq<u8>) -> (j: int)
    ensures
        0 <= j <= r.ops.len(),
        forall|b: int| 0 <= b < j ==> (#[trigger] r.ops[b]).0 != k,
        j < r.ops.len() ==> r.ops[j].0 == k,
        j < r.ops.len() <==> touches(r, k),
{
    let j = lemma_search(r.ops, k, 0);
    if j < r.ops.len() {
        assert(laws::op_at(r.ops, k, j));
    }
    j
}

proof fn lemma_search(ops: Seq<(Seq<u8>, Option<Seq<u8>>)>, k: Seq<u8>, at: int) -> (j: int)
    requires
        0 <= at <= ops.len(),
        forall|b: int| 0 <= b < at ==> (#[trigger] ops[b]).0 != k,
    ensures
        0 <= j <= ops.len(),
        forall|b: int| 0 <= b < j ==> (#[trigger] ops[b]).0 != k,
        j < ops.len() ==> ops[j].0 == k,
    decreases ops.len() - at,
{
    if at == ops.len() || ops[at].0 == k {
        at
    } else {
        lemma_search(ops, k, at + 1)
    }
}

/// A restart shows of each key what the newest record of the log says: record
/// `i` has the highest generation of all that touch the key, the first of them
/// where several have it, and its first operation on the key stands.
pub proof fn recovery_shows_the_newest_record(
    records: Seq<RecordView>,
    floor: u64,
    i: int,
    j: int,
)
    requires
        0 <= i < records.len(),
        first_touch(records[i], j),
        forall|a: int|
            0 <= a < i && touches(#[trigger] records[a], records[i].ops[j].0)
                ==> records[a].generation < records[i].generation,
        forall|a: int|
            i < a < records.len() && touches(#[trigger] records[a], records[i].ops[j].0)
                ==> records[a].generation <= records[i].generation,
    ensures
        ({
            let k = records[i].ops[j].0;
            let table = datastore::with_records(memtable::no_rows(), records, floor);
            &&& table.contains_key(k)
            &&& table[k] == (EntryView {
                value: records[i].ops[j].1,
                generation: records[i].generation,
                seq: datastore::seq_after(floor, (i + 1) as nat),
            })
        }),
    decreases records.len(),
{
    let rest = records.drop_last();
    let last = records.last();
    let k = records[i].ops[j].0;
    let before = datastore::with_records(memtable::no_rows(), rest, floor);
    let seq = datastore::seq_after(floor, records.len());
    if i < rest.len() {
        assert(rest[i] == records[i]);
        assert forall|a: int| 0 <= a < i && touches(#[trigger] rest[a], k) implies rest[a].generation
            < rest[i].generation by {
            assert(touches(records[a], k));
        }
        assert forall|a: int|
            i < a < rest.len() && touches(#[trigger] rest[a], k) implies rest[a].generation
            <= rest[i].generation by {
            assert(touches(records[a], k));
        }
        recovery_shows_the_newest_record(rest, floor, i, j);
        let at = lemma_first_touch(last, k);
        if at < last.ops.len() {
            assert(touches(records[records.len() - 1], k));
        }
        lemma_ops_newest(before, last.ops, last.generation, seq, k, at);
    } else {
        if before.contains_key(k) {
            lemma_record_of_an_entry(rest, floor, k);
            let a = choose|a: int|
                0 <= a < rest.len() && touches(#[trigger] rest[a], k) && rest[a].generation
                    == before[k].generation;
            assert(touches(records[a], k));
        }
        lemma_ops_newest(before, last.ops, last.generation, seq, k, j);
    }
}

/// A key that no record of the log touches is not in the table after a restart.
pub proof fn recovery_shows_nothing_else(records: Seq<RecordView>, floor: u64, k: Seq<u8>)
    requires
        forall|a: int| 0 <= a < records.len() ==> !touches(#[trigger] records[a], k),
    ensures
        !datastore::with_records(memtable::no_rows(), records, floor).contains_key(k),
{
    if datastore::with_records(memtable::no_rows(), records, floor).contains_key(k) {
        lemma_record_of_an_entry(records, floor, k);
    }
}

/// No two records are of one generation.
pub open spec fn distinct(records: Seq<RecordView>) -> bool {
    forall|i: int, j: int|
        0 <= i < j < records.len() ==> (#[trigger] records[i]).generation != (
        #[trigger] records[j]).generation
}

/// Every record that is not applied is of a generation above `up_to`.
pub open spec fn applied_up_to(
    records: Seq<RecordView>,
    applied: spec_fn(RecordView) -> bool,
    up_to: u64,
) -> bool {
    forall|i: int|
        0 <= i < records.len() && !applied(#[trigger] records[i]) ==> records[i].generation > up_to
}

proof fn lemma_applied_lags(
    log: Seq<RecordView>,
    applied: spec_fn(RecordView) -> bool,
    floor: u64,
    other: u64,
    up_to: u64,
)
    requires
        distinct(log),
        applied_up_to(log, applied, up_to),
    ensures
        lags(
            datastore::with_records(memtable::no_rows(), log.filter(applied), floor),
            datastore::with_records(memtable::no_rows(), log, other),
            up_to,
        ),
    decreases log.len(),
{
    reveal(Seq::filter);
    if log.len() > 0 {
        let rest = log.drop_last();
        let r = log.last();
        assert(distinct(rest)) by {
            assert forall|i: int, j: int| 0 <= i < j < rest.len() implies (
            #[trigger] rest[i]).generation != (#[trigger] rest[j]).generation by {
                assert(log[i].generation != log[j].generation);
            }
        }
        assert forall|i: int| 0 <= i < rest.len() && !applied(#[trigger] rest[i]) implies rest[i].generation
            > up_to by {
            assert(log[i] == rest[i]);
        }
        lemma_applied_lags(rest, applied, floor, other, up_to);
        let done = rest.filter(applied);
        let table = datastore::with_records(memtable::no_rows(), done, floor);
        let logged = datastore::with_records(memtable::no_rows(), rest, other);
        let seq = datastore::seq_after(other, log.len());
        if applied(r) {
            assert forall|k: Seq<u8>| #[trigger]
                logged.contains_key(k) && !(table.contains_key(k) && agree(
                    table[k],
                    logged[k],
                )) implies logged[k].generation != r.generation by {
                lemma_record_of_an_entry(rest, other, k);
                let i = choose|i: int|
                    0 <= i < rest.len() && touches(#[trigger] rest[i], k) && rest[i].generation
                        == logged[k].generation;
                assert(log[i].generation != log[log.len() - 1].generation);
            }
            lemma_ops_lag(
                table,
                logged,
                r.ops,
                r.generation,
                datastore::seq_after(floor, done.len() + 1),
                seq,
                up_to,
            );
            assert(log.filter(applied) =~= done.push(r));
            assert(done.push(r).drop_last() =~= done);
        } else {
            assert(log[log.len() - 1] == r);
            assert(log.filter(applied) =~= done);
            lemma_ops_ahead(table, logged, r.ops, r.generation, seq, up_to);
        }
    }
}

proof fn lemma_flush(
    base: Map<Seq<u8>, Seq<u8>>,
    table: Map<Seq<u8>, EntryView>,
    logged: Map<Seq<u8>, EntryView>,
    left: Map<Seq<u8>, EntryView>,
    up_to: u64,
)
    requires
        up_to < u64::MAX,
        lags(table, logged, up_to),
        newer_part(logged, left, (up_to + 1) as u64),
    ensures
        ({
            let flushed = laws::overlaid(
                base,
                scan::table_values(memtable::rows_up_to(table, up_to)),
            );
            let seen = laws::overlaid(base, scan::table_values(logged));
            &&& laws::overlaid(flushed, scan::table_values(logged)) == seen
            &&& laws::overlaid(flushed, scan::table_values(left)) == seen
        }),
{
    let flushed = laws::overlaid(base, scan::table_values(memtable::rows_up_to(table, up_to)));
    let seen = laws::overlaid(base, scan::table_values(logged));
    let uncut = laws::overlaid(flushed, scan::table_values(logged));
    let cut = laws::overlaid(flushed, scan::table_values(left));
    assert forall|k: Seq<u8>| #[trigger]
        seen.contains_key(k) == uncut.contains_key(k) && seen.contains_key(k)
            == cut.contains_key(k) && (seen.contains_key(k) ==> seen[k] == uncut[k] && seen[k]
            == cut[k]) by {
        assert(table.contains_key(k) ==> logged.contains_key(k));
        assert(left.contains_key(k) ==> logged.contains_key(k));
    }
    assert(uncut =~= seen);
    assert(cut =~= seen);
}

/// A restart after a flush: the dataset with what was flushed, and over it the
/// log with the records that were kept, show what the whole log showed over the
/// dataset before.
pub proof fn flush_survives_restart(
    base: Map<Seq<u8>, Seq<u8>>,
    records: Seq<RecordView>,
    floor: u64,
    other: u64,
    up_to: u64,
)
    requires
        up_to < u64::MAX,
    ensures
        ({
            let table = datastore::with_records(memtable::no_rows(), records, floor);
            let left = datastore::with_records(
                memtable::no_rows(),
                wal::retained(records, (up_to + 1) as u64),
                other,
            );
            laws::overlaid(
                laws::overlaid(base, scan::table_values(memtable::rows_up_to(table, up_to))),
                scan::table_values(left),
            ) == laws::overlaid(base, scan::table_values(table))
        }),
{
    let table = datastore::with_records(memtable::no_rows(), records, floor);
    let min = (up_to + 1) as u64;
    lemma_retained(records, floor, other, min);
    lemma_flush(
        base,
        table,
        table,
        datastore::with_records(memtable::no_rows(), wal::retained(records, min), other),
        up_to,
    );
}

/// The same while commits go on. Of the log, the records that are `applied`
/// have built the table that is flushed; all others, which were on their way
/// then or came later, are of generations above the flush. Wherever a crash
/// comes, before the log is cut or after it, the restart shows all that was
/// logged.
pub proof fn flush_beside_commits_survives_restart(
    base: Map<Seq<u8>, Seq<u8>>,
    log: Seq<RecordView>,
    applied: spec_fn(RecordView) -> bool,
    floor: u64,
    other: u64,
    up_to: u64,
)
    requires
        up_to < u64::MAX,
        distinct(log),
        applied_up_to(log, applied, up_to),
    ensures
        ({
            let table = datastore::with_records(memtable::no_rows(), log.filter(applied), floor);
            let logged = datastore::with_records(memtable::no_rows(), log, other);
            let left = datastore::with_records(
                memtable::no_rows(),
                wal::retained(log, (up_to + 1) as u64),
                other,
            );
            let flushed = laws::overlaid(
                base,
                scan::table_values(memtable::rows_up_to(table, up_to)),
            );
            let seen = laws::overlaid(base, scan::table_values(logged));
            &&& laws::overlaid(flushed, scan::table_values(logged)) == seen
            &&& laws::overlaid(flushed, scan::table_values(left)) == seen
        }),
{
    let min = (up_to + 1) as u64;
    lemma_applied_lags(log, applied, floor, other, up_to);
    lemma_retained(log, other, other, min);
    lemma_flush(
        base,
        datastore::with_records(memtable::no_rows(), log.filter(applied), floor),
        datastore::with_records(memtable::no_rows(), log, other),
        datastore::with_records(memtable::no_rows(), wal::retained(log, min), other),
        up_to,
    );
}

/// After a flush the table and the log say the same again: the entries that
/// stay in the table are those that the kept records build.
pub proof fn flush_leaves_table_and_log_alike(
    plan: FlushPlan,
    records: Seq<RecordView>,
    floor: u64,
    other: u64,
    up_to: u64,
)
    requires
        up_to < u64::MAX,
        plan.flushes(datastore::with_records(memtable::no_rows(), records, floor), up_to),
    ensures
        plan.keep_from == up_to + 1,
        laws::same_but_seqs(
            memtable::rows_without(
                datastore::with_records(memtable::no_rows(), records, floor),
                plan.flushed@,
            ),
            datastore::with_records(
                memtable::no_rows(),
                wal::retained(records, plan.keep_from),
                other,
            ),
        ),
{
    let table = datastore::with_records(memtable::no_rows(), records, floor);
    let stays = memtable::rows_without(table, plan.flushed@);
    let left = datastore::with_records(
        memtable::no_rows(),
        wal::retained(records, plan.keep_from),
        other,
    );
    lemma_retained(records, floor, other, plan.keep_from);
    assert forall|k: Seq<u8>|
        (#[trigger] stays.contains_key(k)) == left.contains_key(k) && (stays.contains_key(k)
            ==> stays[k].value == left[k].value && stays[k].generation == left[k].generation) by {
        laws::lemma_covered(plan, table, up_to, k, table[k]);
        assert(left.contains_key(k) ==> table.contains_key(k));
    }
}

proof fn lemma_upsert_past(
    m: Map<Seq<u8>, EntryView>,
    ops: Seq<(Seq<u8>, Option<Seq<u8>>)>,
    generation: u64,
    seq: u64,
    k: Seq<u8>,
    e: EntryView,
)
    requires
        e.generation != generation,
    ensures
        memtable::upserted(datastore::with_ops(m, ops, generation, seq), k, e)
            == datastore::with_ops(memtable::upserted(m, k, e), ops, generation, seq),
    decreases ops.len(),
{
    if ops.len() > 0 {
        lemma_upsert_past(m, ops.drop_last(), generation, seq, k, e);
        let before = datastore::with_ops(m, ops.drop_last(), generation, seq);
        let at = ops.last().0;
        let mine = EntryView { value: ops.last().1, generation, seq };
        if at == k {
            laws::newer_generation_wins(before, k, mine, e);
        }
        assert(memtable::upserted(memtable::upserted(before, at, mine), k, e)
            =~= memtable::upserted(memtable::upserted(before, k, e), at, mine));
    }
}

/// Two commits may reach the table in either order: it comes out the same. So
/// the order of the records in the log and the order in which they were applied
/// need not be one.
pub proof fn commits_commute(
    m: Map<Seq<u8>, EntryView>,
    a: RecordView,
    seq_a: u64,
    b: RecordView,
    seq_b: u64,
)
    requires
        a.generation != b.generation,
    ensures
        datastore::with_ops(
            datastore::with_ops(m, a.ops, a.generation, seq_a),
            b.ops,
            b.generation,
            seq_b,
        ) == datastore::with_ops(
            datastore::with_ops(m, b.ops, b.generation, seq_b),
            a.ops,
            a.generation,
            seq_a,
        ),
    decreases b.ops.len(),
{
    if b.ops.len() > 0 {
        let rest = RecordView { ops: b.ops.drop_last(), ..b };
        commits_commute(m, a, seq_a, rest, seq_b);
        lemma_upsert_past(
            datastore::with_ops(m, rest.ops, b.generation, seq_b),
            a.ops,
            a.generation,
            seq_a,
            b.ops.last().0,
            EntryView { value: b.ops.last().1, generation: b.generation, seq: seq_b },
        );
    }
}

/// A flush stays below every generation that is on its way, and goes as far as
/// that allows. Generations count up from 1, so the one that is left out here
/// comes only after all others are used up.
pub proof fn flush_stays_below_what_is_on_the_way(generation: u64, on_the_way: Seq<u64>, i: int)
    requires
        0 <= i < on_the_way.len(),
        on_the_way[i] > 0,
    ensures
        datastore::flush_bound(generation, on_the_way) < on_the_way[i],
        datastore::flush_bound(generation, on_the_way) <= generation,
    decreases on_the_way.len(),
{
    let rest = on_the_way.drop_last();
    if i < rest.len() {
        assert(rest[i] == on_the_way[i]);
        flush_stays_below_what_is_on_the_way(generation, rest, i);
    } else {
        lemma_bound_below(generation, rest);
    }
}

proof fn lemma_bound_below(generation: u64, on_the_way: Seq<u64>)
    ensures
        datastore::flush_bound(generation, on_the_way) <= generation,
    decreases on_the_way.len(),
{
    if on_the_way.len() > 0 {
        lemma_bound_below(generation, on_the_way.drop_last());
    }
}

/// What is logged and not applied lies above the bound of a flush: its
/// generation is on its way, or was taken only later.
pub proof fn unapplied_lies_above_the_bound(
    log: Seq<RecordView>,
    applied: spec_fn(RecordView) -> bool,
    generation: u64,
    on_the_way: Seq<u64>,
)
    requires
        forall|i: int|
            0 <= i < log.len() && !applied(#[trigger] log[i]) ==> log[i].generation > generation || (
            log[i].generation > 0 && on_the_way.contains(log[i].generation)),
    ensures
        applied_up_to(log, applied, datastore::flush_bound(generation, on_the_way)),
{
    lemma_bound_below(generation, on_the_way);
    assert forall|i: int| 0 <= i < log.len() && !applied(#[trigger] log[i]) implies log[i].generation
        > datastore::flush_bound(generation, on_the_way) by {
        if log[i].generation <= generation {
            let j = choose|j: int|
                0 <= j < on_the_way.len() && on_the_way[j] == log[i].generation;
            flush_stays_below_what_is_on_the_way(generation, on_the_way, j);
        }
    }
}

/// With nothing on its way a flush goes up to the latest commit; otherwise it
/// stops right below the oldest that is.
pub proof fn flush_goes_as_far_as_it_may(generation: u64, on_the_way: Seq<u64>)
    ensures
        datastore::flush_bound(generation, on_the_way) == generation || exists|i: int|
            0 <= i < on_the_way.len() && (#[trigger] on_the_way[i]) <= datastore::flush_bound(
                generation,
                on_the_way,
            ) + 1,
    decreases on_the_way.len(),
{
    if on_the_way.len() > 0 {
        let rest = on_the_way.drop_last();
        flush_goes_as_far_as_it_may(generation, rest);
        let bound = datastore::flush_bound(generation, rest);
        if on_the_way.last() <= bound {
            assert(on_the_way[on_the_way.len() - 1] <= datastore::flush_bound(
                generation,
                on_the_way,
            ) + 1);
        } else if bound != generation {
            let i = choose|i: int| 0 <= i < rest.len() && (#[trigger] rest[i]) <= bound + 1;
            assert(on_the_way[i] <= bound + 1);
        }
    }
}

} // verus!
