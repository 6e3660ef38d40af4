//! What holds of the backend as a whole.

use vstd::prelude::*;

use crate::kvs::api::{Direction, ScanLimit};
use crate::kvs::err::ErrorView;
use crate::kvs::key_map;
use crate::kvs::lance::columns;
use crate::kvs::lance::columns::Batch;
use crate::kvs::lance::commit_gate;
use crate::kvs::lance::commit_gate::{MergeSource, SubmissionView};
use crate::kvs::lance::datastore;
use crate::kvs::lance::datastore::DatastoreView;
use crate::kvs::lance::flusher;
use crate::kvs::lance::flusher::FlushPlan;
use crate::kvs::lance::memtable;
use crate::kvs::lance::memtable::EntryView;
use crate::kvs::lance::rows;
use crate::kvs::lance::scan;
use crate::kvs::lance::schema;
use crate::kvs::lance::transaction;
use crate::kvs::lance::transaction::{ScannedView, TxView};
use crate::kvs::lance::tx_buffer;
use crate::kvs::lance::wal::RecordView;
use crate::kvs::order;

verus! {

/// A row of the dataset.
pub struct RowView {
    pub val: Seq<u8>,
    pub version: u64,
    pub tombstone: bool,
    pub seq: u64,
}

/// The rows that a merge writes: the live ones, then the deletion marks.
pub open spec fn source_rows(source: MergeSource) -> Seq<(Seq<u8>, RowView)> {
    Seq::new(
        source.writes@.len(),
        |i: int|
            (
                source.writes@[i].0@,
                RowView {
                    val: source.writes@[i].1@,
                    version: source.version,
                    tombstone: false,
                    seq: source.write_seqs@[i],
                },
            ),
    ) + Seq::new(
        source.deletes@.len(),
        |i: int|
            (
                source.deletes@[i]@,
                RowView {
                    val: Seq::empty(),
                    version: source.version,
                    tombstone: true,
                    seq: source.delete_seqs@[i],
                },
            ),
    )
}

/// Row `i` of a batch with the dataset's columns.
pub open spec fn batch_row(batch: Batch, i: int) -> (Seq<u8>, RowView) {
    let c = columns::batch_columns(batch);
    (
        c["key"@]->Binary_0[i],
        RowView {
            val: c["val"@]->Binary_0[i],
            version: c["version"@]->UInt64_0[i],
            tombstone: c["tombstone"@]->Boolean_0[i],
            seq: c["seq"@]->UInt64_0[i],
        },
    )
}

/// The rows of the batches.
pub open spec fn rows_in(batches: Seq<Batch>) -> Seq<(Seq<u8>, RowView)>
    decreases batches.len(),
{
    if batches.len() == 0 {
        Seq::empty()
    } else {
        rows_in(batches.drop_last()) + Seq::new(
            columns::batch_rows(batches.last()),
            |i: int| batch_row(batches.last(), i),
        )
    }
}

/// The dataset after a merge by key: a row of the source replaces the row of
/// its key, or is added where there is none.
pub open spec fn merged(
    dataset: Map<Seq<u8>, RowView>,
    source: Seq<(Seq<u8>, RowView)>,
) -> Map<Seq<u8>, RowView>
    decreases source.len(),
{
    if source.len() == 0 {
        dataset
    } else {
        merged(dataset, source.drop_last()).insert(source.last().0, source.last().1)
    }
}

/// The values that readers of the dataset see.
pub open spec fn visible(dataset: Map<Seq<u8>, RowView>) -> Map<Seq<u8>, Seq<u8>> {
    Map::new(
        |k: Seq<u8>| dataset.contains_key(k) && !dataset[k].tombstone,
        |k: Seq<u8>| dataset[k].val,
    )
}

/// `base` with a layer over it: the layer's values replace those below, and
/// its deletions hide them.
pub open spec fn overlaid(
    base: Map<Seq<u8>, Seq<u8>>,
    layer: Map<Seq<u8>, Option<Seq<u8>>>,
) -> Map<Seq<u8>, Seq<u8>> {
    Map::new(
        |k: Seq<u8>|
            if layer.contains_key(k) {
                layer[k] is Some
            } else {
                base.contains_key(k)
            },
        |k: Seq<u8>|
            if layer.contains_key(k) {
                layer[k]->0
            } else {
                base[k]
            },
    )
}

/// The rows say of each key what `layer` says, and of no other key anything.
pub open spec fn represents(
    source: Seq<(Seq<u8>, RowView)>,
    layer: Map<Seq<u8>, Option<Seq<u8>>>,
) -> bool {
    &&& forall|i: int|
        0 <= i < source.len() ==> layer.contains_key((#[trigger] source[i]).0)
            && layer[source[i].0] == (if source[i].1.tombstone {
            None
        } else {
            Some(source[i].1.val)
        })
    &&& forall|k: Seq<u8>| layer.contains_key(k) ==> #[trigger] key_map::has_row(source, k)
}

proof fn lemma_merged(dataset: Map<Seq<u8>, RowView>, source: Seq<(Seq<u8>, RowView)>, k: Seq<u8>)
    ensures
        if key_map::has_row(source, k) {
            merged(dataset, source).contains_key(k) && exists|i: int|
                #[trigger] key_map::row_at(source, k, i) && merged(dataset, source)[k]
                    == source[i].1
        } else {
            merged(dataset, source).contains_key(k) == dataset.contains_key(k) && merged(
                dataset,
                source,
            )[k] == dataset[k]
        },
    decreases source.len(),
{
    if source.len() > 0 {
        let rest = source.drop_last();
        lemma_merged(dataset, rest, k);
        if source.last().0 == k {
            assert(key_map::row_at(source, k, source.len() - 1));
        } else if key_map::has_row(source, k) {
            let i = choose|i: int| key_map::row_at(source, k, i);
            assert(key_map::row_at(rest, k, i));
            let j = choose|j: int|
                #[trigger] key_map::row_at(rest, k, j) && merged(dataset, rest)[k] == rest[j].1;
            assert(key_map::row_at(source, k, j));
        } else {
            if key_map::has_row(rest, k) {
                let i = choose|i: int| key_map::row_at(rest, k, i);
                assert(key_map::row_at(source, k, i));
            }
        }
    }
}

/// A merge of rows that represent a layer makes exactly that layer visible
/// over what was visible before, in one version of the dataset.
pub proof fn merge_overlays(
    dataset: Map<Seq<u8>, RowView>,
    source: Seq<(Seq<u8>, RowView)>,
    layer: Map<Seq<u8>, Option<Seq<u8>>>,
)
    requires
        represents(source, layer),
    ensures
        visible(merged(dataset, source)) == overlaid(visible(dataset), layer),
{
    let left = visible(merged(dataset, source));
    let right = overlaid(visible(dataset), layer);
    assert forall|k: Seq<u8>| #[trigger]
        left.contains_key(k) == right.contains_key(k) && (left.contains_key(k) ==> left[k]
            == right[k]) by {
        lemma_merged(dataset, source, k);
        if key_map::has_row(source, k) {
            let i = choose|i: int|
                #[trigger] key_map::row_at(source, k, i) && merged(dataset, source)[k]
                    == source[i].1;
            assert(layer.contains_key(source[i].0));
        }
    }
    assert(left =~= right);
}

/// The rows of a commit represent what the transaction had pending.
pub proof fn commit_represents_pending(
    source: MergeSource,
    pending: Map<Seq<u8>, Option<Seq<u8>>>,
)
    requires
        key_map::lists(order::pair_views(source.writes@), tx_buffer::live(pending)),
        key_map::lists_keys(order::key_views(source.deletes@), tx_buffer::dead(pending)),
    ensures
        represents(source_rows(source), pending),
{
    let s = source_rows(source);
    let ws = order::pair_views(source.writes@);
    let ds = order::key_views(source.deletes@);
    assert forall|i: int| 0 <= i < s.len() implies pending.contains_key((#[trigger] s[i]).0)
        && pending[s[i].0] == (if s[i].1.tombstone {
        None
    } else {
        Some(s[i].1.val)
    }) by {
        if i < ws.len() {
            key_map::lemma_row(ws, i);
            assert(tx_buffer::live(pending).contains_key(ws[i].0));
        } else {
            let d = ds[i - ws.len()];
            assert(ds.contains(d));
            assert(tx_buffer::dead(pending).contains(d));
        }
    }
    assert forall|k: Seq<u8>| pending.contains_key(k) implies #[trigger] key_map::has_row(s, k) by {
        if pending[k] is Some {
            assert(tx_buffer::live(pending).contains_key(k));
            assert(key_map::has_row(ws, k));
            let i = choose|i: int| key_map::row_at(ws, k, i);
            assert(key_map::row_at(s, k, i));
        } else {
            assert(tx_buffer::dead(pending).contains(k));
            let i = choose|i: int| 0 <= i < ds.len() && ds[i] == k;
            assert(key_map::row_at(s, k, ws.len() + i));
        }
    }
}

/// The rows of a flush represent the entries that it flushes.
pub proof fn flush_represents_entries(
    plan: FlushPlan,
    table: Map<Seq<u8>, EntryView>,
    up_to: u64,
)
    requires
        plan.flushes(table, up_to),
    ensures
        represents(
            source_rows(plan.source),
            scan::table_values(memtable::rows_up_to(table, up_to)),
        ),
        forall|i: int|
            0 <= i < source_rows(plan.source).len() ==> memtable::rows_up_to(
                table,
                up_to,
            ).contains_key((#[trigger] source_rows(plan.source)[i]).0) && source_rows(
                plan.source,
            )[i].1.seq == memtable::rows_up_to(table, up_to)[source_rows(plan.source)[i].0].seq,
{
    let entries = memtable::rows_up_to(table, up_to);
    let layer = scan::table_values(entries);
    let s = source_rows(plan.source);
    let ws = flusher::numbered_writes(plan.source.writes@, plan.source.write_seqs@);
    let ds = flusher::numbered_keys(plan.source.deletes@, plan.source.delete_seqs@);
    assert forall|i: int| 0 <= i < s.len() implies layer.contains_key((#[trigger] s[i]).0)
        && layer[s[i].0] == (if s[i].1.tombstone {
        None
    } else {
        Some(s[i].1.val)
    }) && s[i].1.seq == entries[s[i].0].seq by {
        if i < ws.len() {
            assert(flusher::flush_writes(entries).contains_key(ws[i].0));
        } else {
            assert(flusher::flush_deletes(entries).contains_key(ds[i - ws.len()].0));
        }
    }
    assert forall|k: Seq<u8>| layer.contains_key(k) implies #[trigger] key_map::has_row(s, k) by {
        if entries[k].value is Some {
            assert(flusher::flush_writes(entries).contains_key(k));
            assert(key_map::has_row(ws, k));
            let i = choose|i: int| key_map::row_at(ws, k, i);
            assert(key_map::row_at(s, k, i));
        } else {
            assert(flusher::flush_deletes(entries).contains_key(k));
            assert(key_map::has_row(ds, k));
            let i = choose|i: int| key_map::row_at(ds, k, i);
            assert(key_map::row_at(s, k, ws.len() + i));
        }
    }
}

/// The batches that a commit hands to the merge hold exactly its rows: the
/// live ones without their deletion mark, the deleted ones with it, each with
/// its own sequence number.
pub proof fn batches_hold_the_rows(source: MergeSource, batches: Seq<Batch>)
    requires
        source.write_seqs@.len() == source.writes@.len(),
        source.delete_seqs@.len() == source.deletes@.len(),
        batches.len() == (if source.writes@.len() > 0 {
            1int
        } else {
            0
        }) + (if source.deletes@.len() > 0 {
            1int
        } else {
            0
        }),
        source.writes@.len() > 0 ==> columns::batch_rows(batches[0]) == source.writes@.len()
            && columns::batch_columns(batches[0]) == schema::dataset_columns(
            schema::pair_keys(source.writes@),
            schema::pair_vals(source.writes@),
            source.version,
            false,
            source.write_seqs@,
        ),
        source.deletes@.len() > 0 ==> columns::batch_rows(batches.last()) == source.deletes@.len()
            && columns::batch_columns(batches.last()) == schema::dataset_columns(
            order::key_views(source.deletes@),
            schema::no_vals(source.deletes@.len()),
            source.version,
            true,
            source.delete_seqs@,
        ),
    ensures
        rows_in(batches) == source_rows(source),
{
    schema::lemma_names();
    let ws = source.writes@.len();
    let ds = source.deletes@.len();
    let s = source_rows(source);
    reveal_with_fuel(rows_in, 3);
    if ws > 0 {
        let part = Seq::new(ws, |i: int| batch_row(batches[0], i));
        assert(part =~= s.take(ws as int));
    }
    if ds > 0 {
        let part = Seq::new(ds, |i: int| batch_row(batches.last(), i));
        assert(part =~= s.skip(ws as int));
    }
    if ws > 0 && ds > 0 {
        assert(batches.drop_last() =~= seq![batches[0]]);
        assert(batches.drop_last().drop_last() =~= Seq::empty());
        assert(rows_in(batches.drop_last()) =~= s.take(ws as int));
        assert(rows_in(batches) =~= s);
    } else if ws > 0 || ds > 0 {
        assert(batches.drop_last() =~= Seq::empty());
        assert(rows_in(batches) =~= s);
    } else {
        assert(s =~= Seq::empty());
    }
}

// Commits through a commit gate.

proof fn lemma_with_writes(
    m: Map<Seq<u8>, Option<Seq<u8>>>,
    writes: Seq<(Seq<u8>, Seq<u8>)>,
)
    ensures
        commit_gate::with_writes(m, writes) == m.union_prefer_right(scan::pairs_map(writes)),
    decreases writes.len(),
{
    if writes.len() > 0 {
        lemma_with_writes(m, writes.drop_last());
    }
    assert(commit_gate::with_writes(m, writes) =~= m.union_prefer_right(scan::pairs_map(writes)));
}

proof fn lemma_with_deletes(
    m: Map<Seq<u8>, Option<Seq<u8>>>,
    deletes: Seq<Seq<u8>>,
    k: Seq<u8>,
)
    ensures
        commit_gate::with_deletes(m, deletes).contains_key(k) == (m.contains_key(k)
            || deletes.contains(k)),
        commit_gate::with_deletes(m, deletes)[k] == (if deletes.contains(k) {
            None
        } else {
            m[k]
        }),
    decreases deletes.len(),
{
    if deletes.len() > 0 {
        let rest = deletes.drop_last();
        lemma_with_deletes(m, rest, k);
        if deletes.contains(k) && deletes.last() != k {
            let i = choose|i: int| 0 <= i < deletes.len() && deletes[i] == k;
            assert(rest[i] == k);
        }
        if rest.contains(k) {
            let i = choose|i: int| 0 <= i < rest.len() && rest[i] == k;
            assert(deletes[i] == k);
        }
        if deletes.last() == k {
            assert(deletes[deletes.len() - 1] == k);
        }
    }
}

/// What one commit does to the keys that it touches.
pub open spec fn effect(sub: SubmissionView) -> Map<Seq<u8>, Option<Seq<u8>>> {
    commit_gate::coalesced(seq![sub])
}

/// Of the commits of a batch, the last one that touches a key decides: adding a
/// commit lays its effect over the effect of those before it.
pub proof fn later_commit_wins(batch: Seq<SubmissionView>, sub: SubmissionView)
    ensures
        commit_gate::coalesced(batch.push(sub)) == commit_gate::coalesced(
            batch,
        ).union_prefer_right(effect(sub)),
{
    let before = commit_gate::coalesced(batch);
    assert(batch.push(sub).drop_last() =~= batch);
    let one = seq![sub];
    assert(one.drop_last() =~= Seq::empty());
    assert(commit_gate::coalesced(one.drop_last()) =~= Map::empty());
    lemma_with_writes(before, sub.writes);
    lemma_with_writes(Map::empty(), sub.writes);
    let written = commit_gate::with_writes(before, sub.writes);
    let alone = commit_gate::with_writes(Map::empty(), sub.writes);
    let left = commit_gate::with_deletes(written, sub.deletes);
    let right = before.union_prefer_right(commit_gate::with_deletes(alone, sub.deletes));
    assert forall|k: Seq<u8>| #[trigger]
        left.contains_key(k) == right.contains_key(k) && (left.contains_key(k) ==> left[k]
            == right[k]) by {
        lemma_with_deletes(written, sub.deletes, k);
        lemma_with_deletes(alone, sub.deletes, k);
    }
    assert(left =~= right);
}

/// Merging a batch of commits at once leaves the dataset as merging them one
/// after the other would.
pub proof fn gate_equals_serial_commits(
    base: Map<Seq<u8>, Seq<u8>>,
    batch: Seq<SubmissionView>,
    sub: SubmissionView,
)
    ensures
        overlaid(base, commit_gate::coalesced(batch.push(sub))) == overlaid(
            overlaid(base, commit_gate::coalesced(batch)),
            effect(sub),
        ),
{
    later_commit_wins(batch, sub);
    assert(overlaid(base, commit_gate::coalesced(batch.push(sub))) =~= overlaid(
        overlaid(base, commit_gate::coalesced(batch)),
        effect(sub),
    ));
}

proof fn lemma_pairs_map(rows: Seq<(Seq<u8>, Seq<u8>)>)
    requires
        key_map::ascending(rows),
    ensures
        scan::pairs_map(rows) == Map::new(
            |k: Seq<u8>| key_map::row_map(rows).contains_key(k),
            |k: Seq<u8>| Some(key_map::row_map(rows)[k]),
        ),
    decreases rows.len(),
{
    let wanted = Map::new(
        |k: Seq<u8>| key_map::row_map(rows).contains_key(k),
        |k: Seq<u8>| Some(key_map::row_map(rows)[k]),
    );
    if rows.len() == 0 {
        assert(scan::pairs_map(rows) =~= wanted);
    } else {
        let n = rows.len() - 1;
        key_map::lemma_take_next(rows, n as int);
        assert(rows.take(n as int) =~= rows.drop_last());
        assert(rows.take(n + 1) =~= rows);
        lemma_pairs_map(rows.drop_last());
        assert(scan::pairs_map(rows) =~= wanted);
    }
}

/// The effect of a commit is what the transaction had pending.
pub proof fn commit_effect_is_pending(
    sub: SubmissionView,
    pending: Map<Seq<u8>, Option<Seq<u8>>>,
)
    requires
        key_map::lists(sub.writes, tx_buffer::live(pending)),
        key_map::lists_keys(sub.deletes, tx_buffer::dead(pending)),
    ensures
        effect(sub) == pending,
{
    let one = seq![sub];
    assert(one.drop_last() =~= Seq::empty());
    assert(commit_gate::coalesced(one.drop_last()) =~= Map::empty());
    lemma_with_writes(Map::empty(), sub.writes);
    lemma_pairs_map(sub.writes);
    let alone = commit_gate::with_writes(Map::empty(), sub.writes);
    assert forall|k: Seq<u8>| #[trigger]
        effect(sub).contains_key(k) == pending.contains_key(k) && (pending.contains_key(k)
            ==> effect(sub)[k] == pending[k]) by {
        lemma_with_deletes(alone, sub.deletes, k);
        assert(tx_buffer::dead(pending).contains(k) <==> sub.deletes.contains(k));
        assert(tx_buffer::live(pending).contains_key(k) <==> key_map::row_map(
            sub.writes,
        ).contains_key(k));
    }
    assert(effect(sub) =~= pending);
}

/// A commit through a commit gate, alone in its batch: afterwards the dataset shows
/// of each key what the transaction had pending, and of every other key what
/// it showed before.
pub proof fn gate_commit_shows_pending(
    dataset: Map<Seq<u8>, RowView>,
    source: MergeSource,
    sub: SubmissionView,
    pending: Map<Seq<u8>, Option<Seq<u8>>>,
)
    requires
        key_map::lists(sub.writes, tx_buffer::live(pending)),
        key_map::lists_keys(sub.deletes, tx_buffer::dead(pending)),
        key_map::lists(
            order::pair_views(source.writes@),
            tx_buffer::live(commit_gate::coalesced(seq![sub])),
        ),
        key_map::lists_keys(
            order::key_views(source.deletes@),
            tx_buffer::dead(commit_gate::coalesced(seq![sub])),
        ),
    ensures
        visible(merged(dataset, source_rows(source))) == overlaid(visible(dataset), pending),
{
    commit_effect_is_pending(sub, pending);
    commit_represents_pending(source, pending);
    merge_overlays(dataset, source_rows(source), pending);
}

// Commits through the log and the write buffer.

/// Every entry of the table is of an older generation.
pub open spec fn all_below(table: Map<Seq<u8>, EntryView>, generation: u64) -> bool {
    forall|k: Seq<u8>| #[trigger] table.contains_key(k) ==> table[k].generation < generation
}

/// Operation `i` touches `k`.
pub open spec fn op_at(ops: Seq<(Seq<u8>, Option<Seq<u8>>)>, k: Seq<u8>, i: int) -> bool {
    0 <= i < ops.len() && ops[i].0 == k
}

proof fn lemma_with_ops(
    table: Map<Seq<u8>, EntryView>,
    ops: Seq<(Seq<u8>, Option<Seq<u8>>)>,
    generation: u64,
    seq: u64,
    k: Seq<u8>,
)
    requires
        all_below(table, generation),
        forall|i: int, j: int| 0 <= i < j < ops.len() ==> ops[i].0 != ops[j].0,
    ensures
        (exists|i: int| op_at(ops, k, i)) ==> {
            let i = choose|i: int| op_at(ops, k, i);
            datastore::with_ops(table, ops, generation, seq).contains_key(k) && datastore::with_ops(
                table,
                ops,
                generation,
                seq,
            )[k] == (EntryView { value: ops[i].1, generation, seq })
        },
        !(exists|i: int| op_at(ops, k, i)) ==> datastore::with_ops(
            table,
            ops,
            generation,
            seq,
        ).contains_key(k) == table.contains_key(k) && datastore::with_ops(
            table,
            ops,
            generation,
            seq,
        )[k] == table[k],
    decreases ops.len(),
{
    if ops.len() > 0 {
        let rest = ops.drop_last();
        assert forall|i: int, j: int| 0 <= i < j < rest.len() implies rest[i].0 != rest[j].0 by {
            assert(ops[i].0 != ops[j].0);
        }
        lemma_with_ops(table, rest, generation, seq, k);
        lemma_with_ops(table, rest, generation, seq, ops.last().0);
        let last = ops.len() - 1;
        if exists|i: int| op_at(rest, ops.last().0, i) {
            let i = choose|i: int| op_at(rest, ops.last().0, i);
            assert(ops[i].0 != ops[last].0);
        }
        if exists|i: int| op_at(ops, k, i) {
            let i = choose|i: int| op_at(ops, k, i);
            if i < last {
                assert(op_at(rest, k, i));
                let j = choose|j: int| op_at(rest, k, j);
                if i != j {
                    if i < j {
                        assert(ops[i].0 != ops[j].0);
                    } else {
                        assert(ops[j].0 != ops[i].0);
                    }
                }
                assert(ops[i].0 != ops[last].0);
            } else {
                assert(all_below(table, generation));
            }
        } else {
            if exists|i: int| op_at(rest, k, i) {
                let i = choose|i: int| op_at(rest, k, i);
                assert(op_at(ops, k, i));
            }
            assert(!op_at(ops, k, last));
        }
    }
}

/// A commit through the log: afterwards the write buffer shows of each key
/// what the transaction had pending, under the commit's own generation and
/// sequence number, and of every other key what it showed before.
pub proof fn lsm_commit_shows_pending(
    table: Map<Seq<u8>, EntryView>,
    writes: Seq<(Seq<u8>, Seq<u8>)>,
    deletes: Seq<Seq<u8>>,
    pending: Map<Seq<u8>, Option<Seq<u8>>>,
    generation: u64,
    seq: u64,
)
    requires
        all_below(table, generation),
        key_map::lists(writes, tx_buffer::live(pending)),
        key_map::lists_keys(deletes, tx_buffer::dead(pending)),
    ensures
        scan::table_values(
            datastore::with_ops(
                table,
                datastore::commit_ops(writes, deletes),
                generation,
                seq,
            ),
        ) == scan::table_values(table).union_prefer_right(pending),
        forall|k: Seq<u8>|
            pending.contains_key(k) ==> (#[trigger] datastore::with_ops(
                table,
                datastore::commit_ops(writes, deletes),
                generation,
                seq,
            )[k]) == (EntryView { value: pending[k], generation, seq }),
{
    let ops = datastore::commit_ops(writes, deletes);
    let n = writes.len();
    assert forall|i: int, j: int| 0 <= i < j < ops.len() implies ops[i].0 != ops[j].0 by {
        order::key_lt_irreflexive(ops[i].0);
        if j < n {
            assert(order::key_lt(writes[i].0, writes[j].0));
        } else if i >= n {
            assert(order::key_lt(deletes[i - n], deletes[j - n]));
        } else {
            key_map::lemma_row(writes, i);
            assert(tx_buffer::live(pending).contains_key(ops[i].0));
            assert(deletes.contains(deletes[j - n]));
            assert(tx_buffer::dead(pending).contains(ops[j].0));
        }
    }
    let after = datastore::with_ops(table, ops, generation, seq);
    assert forall|k: Seq<u8>| pending.contains_key(k) implies after.contains_key(k)
        && #[trigger] after[k] == (EntryView { value: pending[k], generation, seq }) by {
        lemma_op_of_pending(writes, deletes, pending, k);
        lemma_with_ops(table, ops, generation, seq, k);
    }
    assert forall|k: Seq<u8>| !pending.contains_key(k) implies after.contains_key(k)
        == table.contains_key(k) && #[trigger] after[k] == table[k] by {
        lemma_op_of_pending(writes, deletes, pending, k);
        lemma_with_ops(table, ops, generation, seq, k);
    }
    let left = scan::table_values(after);
    let right = scan::table_values(table).union_prefer_right(pending);
    assert forall|k: Seq<u8>| #[trigger]
        left.contains_key(k) == right.contains_key(k) && (left.contains_key(k) ==> left[k]
            == right[k]) by {
        let e = after[k];
    }
    assert(left =~= right);
}

proof fn lemma_op_of_pending(
    writes: Seq<(Seq<u8>, Seq<u8>)>,
    deletes: Seq<Seq<u8>>,
    pending: Map<Seq<u8>, Option<Seq<u8>>>,
    k: Seq<u8>,
)
    requires
        key_map::lists(writes, tx_buffer::live(pending)),
        key_map::lists_keys(deletes, tx_buffer::dead(pending)),
    ensures
        (exists|i: int| op_at(datastore::commit_ops(writes, deletes), k, i))
            == pending.contains_key(k),
        pending.contains_key(k) ==> forall|i: int|
            #[trigger] op_at(datastore::commit_ops(writes, deletes), k, i)
                ==> datastore::commit_ops(writes, deletes)[i].1 == pending[k],
{
    let ops = datastore::commit_ops(writes, deletes);
    let n = writes.len();
    assert forall|i: int| #[trigger] op_at(ops, k, i) implies pending.contains_key(k) && ops[i].1
        == pending[k] by {
        if i < n {
            key_map::lemma_row(writes, i);
            assert(tx_buffer::live(pending).contains_key(k));
        } else {
            assert(deletes.contains(deletes[i - n]));
            assert(tx_buffer::dead(pending).contains(k));
        }
    }
    if pending.contains_key(k) {
        if pending[k] is Some {
            assert(tx_buffer::live(pending).contains_key(k));
            assert(key_map::has_row(writes, k));
            let i = choose|i: int| key_map::row_at(writes, k, i);
            assert(op_at(ops, k, i));
        } else {
            assert(tx_buffer::dead(pending).contains(k));
            let i = choose|i: int| 0 <= i < deletes.len() && deletes[i] == k;
            assert(op_at(ops, k, n + i));
        }
    }
}

/// The entry of the higher generation stands, in whatever order two entries
/// come.
pub proof fn newer_generation_wins(
    table: Map<Seq<u8>, EntryView>,
    k: Seq<u8>,
    a: EntryView,
    b: EntryView,
)
    requires
        a.generation != b.generation,
    ensures
        memtable::upserted(memtable::upserted(table, k, a), k, b) == memtable::upserted(
            memtable::upserted(table, k, b),
            k,
            a,
        ),
        a.generation < b.generation && (!table.contains_key(k) || table[k].generation
            < b.generation) ==> memtable::upserted(memtable::upserted(table, k, a), k, b)[k] == b,
{
    assert(memtable::upserted(memtable::upserted(table, k, a), k, b) =~= memtable::upserted(
        memtable::upserted(table, k, b),
        k,
        a,
    ));
}

/// `later` came from `earlier` by commits alone: no entry is gone, and one that
/// changed is of a newer generation.
pub open spec fn evolved(
    earlier: Map<Seq<u8>, EntryView>,
    later: Map<Seq<u8>, EntryView>,
) -> bool {
    forall|k: Seq<u8>| #[trigger]
        earlier.contains_key(k) ==> later.contains_key(k) && (later[k] == earlier[k]
            || later[k].generation > earlier[k].generation)
}

/// A write to the table is such a step.
pub proof fn commits_evolve_the_table(
    earlier: Map<Seq<u8>, EntryView>,
    later: Map<Seq<u8>, EntryView>,
    k: Seq<u8>,
    e: EntryView,
)
    requires
        evolved(earlier, later),
    ensures
        evolved(earlier, memtable::upserted(later, k, e)),
{
}

/// What a commit has written while a flush was under way stays in the table.
pub proof fn race_winners_stay(
    plan: FlushPlan,
    earlier: Map<Seq<u8>, EntryView>,
    later: Map<Seq<u8>, EntryView>,
    up_to: u64,
    k: Seq<u8>,
)
    requires
        plan.flushes(earlier, up_to),
        evolved(earlier, later),
        later.contains_key(k),
        !earlier.contains_key(k) || later[k] != earlier[k] || earlier[k].generation > up_to,
    ensures
        memtable::rows_without(later, plan.flushed@).contains_key(k),
        memtable::rows_without(later, plan.flushed@)[k] == later[k],
{
    lemma_covered(plan, earlier, up_to, k, later[k]);
}

/// A flush covers the entry `e` of a key exactly if it flushes an entry of that
/// key that is as new.
pub proof fn lemma_covered(
    plan: FlushPlan,
    table: Map<Seq<u8>, EntryView>,
    up_to: u64,
    k: Seq<u8>,
    e: EntryView,
)
    requires
        plan.flushes(table, up_to),
    ensures
        (exists|i: int| memtable::covered_by(plan.flushed@, k, e, i)) <==> (table.contains_key(k)
            && table[k].generation <= up_to && e.generation <= table[k].generation),
{
    let rows = memtable::rows_up_to(table, up_to);
    let f = flusher::flushed_views(plan.flushed@);
    if exists|i: int| memtable::covered_by(plan.flushed@, k, e, i) {
        let i = choose|i: int| memtable::covered_by(plan.flushed@, k, e, i);
        assert(f[i].0 == k);
        assert(flusher::generations(rows).contains_key(f[i].0));
    }
    if table.contains_key(k) && table[k].generation <= up_to && e.generation
        <= table[k].generation {
        assert(flusher::generations(rows).contains_key(k));
        assert(key_map::has_row(f, k));
        let i = choose|i: int| key_map::row_at(f, k, i);
        assert(flusher::generations(rows).contains_key(f[i].0));
        assert(memtable::covered_by(plan.flushed@, k, e, i));
    }
}

/// Readers do not notice a flush. Before, between its merge into the dataset
/// and its end, and after its end they see the same values, whatever was
/// committed meanwhile.
pub proof fn flush_is_invisible(
    base: Map<Seq<u8>, Seq<u8>>,
    plan: FlushPlan,
    earlier: Map<Seq<u8>, EntryView>,
    later: Map<Seq<u8>, EntryView>,
    up_to: u64,
)
    requires
        plan.flushes(earlier, up_to),
        evolved(earlier, later),
    ensures
        ({
            let flushed = overlaid(
                base,
                scan::table_values(memtable::rows_up_to(earlier, up_to)),
            );
            &&& overlaid(flushed, scan::table_values(later)) == overlaid(
                base,
                scan::table_values(later),
            )
            &&& overlaid(
                flushed,
                scan::table_values(memtable::rows_without(later, plan.flushed@)),
            ) == overlaid(base, scan::table_values(later))
        }),
{
    let layer = scan::table_values(memtable::rows_up_to(earlier, up_to));
    let flushed = overlaid(base, layer);
    let seen = overlaid(base, scan::table_values(later));
    let between = overlaid(flushed, scan::table_values(later));
    assert forall|k: Seq<u8>| #[trigger]
        between.contains_key(k) == seen.contains_key(k) && (seen.contains_key(k) ==> between[k]
            == seen[k]) by {
        assert(earlier.contains_key(k) ==> later.contains_key(k));
    }
    assert(between =~= seen);
    let rest = memtable::rows_without(later, plan.flushed@);
    let after = overlaid(flushed, scan::table_values(rest));
    assert forall|k: Seq<u8>| #[trigger]
        after.contains_key(k) == seen.contains_key(k) && (seen.contains_key(k) ==> after[k]
            == seen[k]) by {
        assert(earlier.contains_key(k) ==> later.contains_key(k));
        lemma_covered(plan, earlier, up_to, k, later[k]);
    }
    assert(after =~= seen);
}

/// A restart replays the log to the table that the commits had built.
pub proof fn recovery_rebuilds_the_table(
    records: Seq<RecordView>,
    r: RecordView,
    floor: u64,
)
    ensures
        datastore::with_records(memtable::no_rows(), Seq::empty(), floor) == memtable::no_rows(),
        datastore::with_records(memtable::no_rows(), records.push(r), floor)
            == datastore::with_ops(
            datastore::with_records(memtable::no_rows(), records, floor),
            r.ops,
            r.generation,
            datastore::seq_after(datastore::seq_after(floor, records.len()), 1),
        ),
{
    assert(records.push(r).drop_last() =~= records);
    assert((floor + (records.len() + 1)) % 0x1_0000_0000_0000_0000 == ((floor + records.len())
        % 0x1_0000_0000_0000_0000 + 1) % 0x1_0000_0000_0000_0000);
}

/// Two tables say the same of every key, but for the sequence numbers.
pub open spec fn same_but_seqs(
    a: Map<Seq<u8>, EntryView>,
    b: Map<Seq<u8>, EntryView>,
) -> bool {
    forall|k: Seq<u8>|
        (#[trigger] a.contains_key(k)) == b.contains_key(k) && (a.contains_key(k) ==> a[k].value
            == b[k].value && a[k].generation == b[k].generation)
}

proof fn lemma_ops_same_but_seqs(
    a: Map<Seq<u8>, EntryView>,
    b: Map<Seq<u8>, EntryView>,
    ops: Seq<(Seq<u8>, Option<Seq<u8>>)>,
    generation: u64,
    seq_a: u64,
    seq_b: u64,
)
    requires
        same_but_seqs(a, b),
    ensures
        same_but_seqs(
            datastore::with_ops(a, ops, generation, seq_a),
            datastore::with_ops(b, ops, generation, seq_b),
        ),
    decreases ops.len(),
{
    if ops.len() > 0 {
        lemma_ops_same_but_seqs(a, b, ops.drop_last(), generation, seq_a, seq_b);
        let x = datastore::with_ops(a, ops.drop_last(), generation, seq_a);
        let y = datastore::with_ops(b, ops.drop_last(), generation, seq_b);
        assert(x.contains_key(ops.last().0) == y.contains_key(ops.last().0));
    }
}

/// Where replayed commits are numbered from does not change what readers see
/// of them.
pub proof fn recovery_keeps_the_values(records: Seq<RecordView>, floor: u64, other: u64)
    ensures
        same_but_seqs(
            datastore::with_records(memtable::no_rows(), records, floor),
            datastore::with_records(memtable::no_rows(), records, other),
        ),
        scan::table_values(datastore::with_records(memtable::no_rows(), records, floor))
            == scan::table_values(datastore::with_records(memtable::no_rows(), records, other)),
    decreases records.len(),
{
    let a = datastore::with_records(memtable::no_rows(), records, floor);
    let b = datastore::with_records(memtable::no_rows(), records, other);
    if records.len() > 0 {
        let rest = records.drop_last();
        recovery_keeps_the_values(rest, floor, other);
        lemma_ops_same_but_seqs(
            datastore::with_records(memtable::no_rows(), rest, floor),
            datastore::with_records(memtable::no_rows(), rest, other),
            records.last().ops,
            records.last().generation,
            datastore::seq_after(floor, records.len()),
            datastore::seq_after(other, records.len()),
        );
    }
    let x = scan::table_values(a);
    let y = scan::table_values(b);
    assert forall|k: Seq<u8>| #[trigger]
        x.contains_key(k) == y.contains_key(k) && (x.contains_key(k) ==> x[k] == y[k]) by {
        assert(a.contains_key(k) == b.contains_key(k));
    }
    assert(x =~= y);
}

/// The generation that a commit takes next is above that of every entry of the
/// table, as long as generations last.
pub proof fn next_generation_is_newest(ds: DatastoreView)
    requires
        ds.bounded(),
        ds.generation < u64::MAX,
    ensures
        all_below(ds.table, (ds.generation + 1) as u64),
{
}

/// After a restart the next sequence number is above every one in the dataset
/// and above every one that the replay gave out, as long as they last.
pub proof fn sequence_numbers_keep_rising(
    batches: Seq<Batch>,
    b: int,
    i: int,
    replayed: nat,
    n: nat,
)
    requires
        0 <= b < batches.len(),
        0 <= i < rows::seqs_of(batches[b]).len(),
        n <= replayed,
        rows::largest_seq(batches) + replayed + 1 <= u64::MAX,
    ensures
        ({
            let floor = rows::largest_seq(batches);
            let next = datastore::seq_after(datastore::seq_after(floor, replayed), 1);
            &&& next > rows::seqs_of(batches[b])[i]
            &&& next > datastore::seq_after(floor, n)
            &&& n > 0 ==> datastore::seq_after(floor, n) > rows::seqs_of(batches[b])[i]
        }),
{
    rows::largest_seq_bounds(batches, b, i);
}

proof fn lemma_max_generation(records: Seq<RecordView>, i: int)
    requires
        0 <= i < records.len(),
    ensures
        records[i].generation <= datastore::max_generation(records),
    decreases records.len(),
{
    if i < records.len() - 1 {
        assert(records.drop_last()[i] == records[i]);
        lemma_max_generation(records.drop_last(), i);
    }
}

/// After a restart the next generation is above that of every replayed record
/// and of every entry of the table, as long as generations last.
pub proof fn generations_keep_rising(records: Seq<RecordView>, floor: u64, i: int)
    requires
        datastore::max_generation(records) < u64::MAX,
    ensures
        0 <= i < records.len() ==> records[i].generation < datastore::max_generation(records) + 1,
        all_below(
            datastore::with_records(memtable::no_rows(), records, floor),
            (datastore::max_generation(records) + 1) as u64,
        ),
{
    if 0 <= i < records.len() {
        lemma_max_generation(records, i);
    }
    datastore::lemma_records_within(records, floor, datastore::max_generation(records));
}

// Transactions.

/// A transaction reads what it has pending itself, whatever lies below.
pub proof fn reads_its_own_writes(
    before: TxView,
    after: TxView,
    table: Map<Seq<u8>, EntryView>,
    scanned: ScannedView,
    key: Seq<u8>,
    entry: Option<Seq<u8>>,
    version: Option<u64>,
)
    requires
        transaction::wrote(before, after, Ok(()), key, entry),
        transaction::read_fault(after, version) is None,
    ensures
        transaction::get_outcome(after, table, scanned, key, version) == Ok::<
            Option<Seq<u8>>,
            ErrorView,
        >(entry),
{
}

/// A write to one key leaves the reads of every other key alone.
pub proof fn writes_touch_one_key(
    before: TxView,
    after: TxView,
    table: Map<Seq<u8>, EntryView>,
    scanned: ScannedView,
    key: Seq<u8>,
    entry: Option<Seq<u8>>,
    other: Seq<u8>,
    version: Option<u64>,
)
    requires
        transaction::wrote(before, after, Ok(()), key, entry),
        other != key,
    ensures
        transaction::get_outcome(after, table, scanned, other, version)
            == transaction::get_outcome(before, table, scanned, other, version),
{
}

/// Rolling back undoes everything since the save point, and save points nest.
pub proof fn rollback_restores(tx: TxView, pending: Map<Seq<u8>, Option<Seq<u8>>>)
    ensures
        transaction::rolled_back(TxView { pending, ..transaction::saved(tx) }) == tx,
        transaction::released(TxView { pending, ..transaction::saved(tx) }) == (TxView {
            pending,
            ..tx
        }),
{
    assert(tx.save_points.push(tx.pending).drop_last() =~= tx.save_points);
}

/// A finished transaction refuses everything, and so keeps its state: only a
/// read of the past on a datastore without versions is refused for another
/// reason.
pub proof fn finished_is_final(tx: TxView, version: Option<u64>)
    requires
        tx.done,
    ensures
        transaction::write_fault(tx) == Some(ErrorView::TransactionFinished),
        transaction::read_fault(tx, version) == Some(
            if !tx.versioned && version is Some {
                ErrorView::UnsupportedVersionedQueries
            } else {
                ErrorView::TransactionFinished
            },
        ),
        transaction::cancelled(tx).done,
{
}

/// What a cancelled transaction had pending is gone.
pub proof fn cancel_discards(tx: TxView, key: Seq<u8>)
    ensures
        !transaction::cancelled(tx).pending.contains_key(key),
        transaction::cancelled(tx).save_points.len() == 0,
{
}

/// The value of a key through the layers over a dataset that shows `base`.
pub open spec fn lookup(
    base: Map<Seq<u8>, Seq<u8>>,
    table: Map<Seq<u8>, Option<Seq<u8>>>,
    pending: Map<Seq<u8>, Option<Seq<u8>>>,
    k: Seq<u8>,
) -> Option<Seq<u8>> {
    if pending.contains_key(k) {
        pending[k]
    } else if table.contains_key(k) {
        table[k]
    } else if base.contains_key(k) {
        Some(base[k])
    } else {
        None
    }
}

/// The batches are what a dataset that shows `base` returns for a read of
/// `key`.
pub open spec fn shows(batches: Seq<Batch>, base: Map<Seq<u8>, Seq<u8>>, key: Seq<u8>) -> bool {
    rows::first_val(batches) == Ok::<Option<Seq<u8>>, Seq<char>>(
        if base.contains_key(key) {
            Some(base[key])
        } else {
            None
        },
    )
}

/// A point read looks through the layers over the dataset.
pub proof fn get_is_lookup(
    tx: TxView,
    table: Map<Seq<u8>, EntryView>,
    batches: Seq<Batch>,
    base: Map<Seq<u8>, Seq<u8>>,
    key: Seq<u8>,
)
    requires
        transaction::read_fault(tx, None) is None,
        shows(batches, base, key),
    ensures
        transaction::get_outcome(tx, table, ScannedView::Batches(batches), key, None) == Ok::<
            Option<Seq<u8>>,
            ErrorView,
        >(lookup(base, transaction::table_layer(tx, table, None), tx.pending, key)),
{
}

/// What was committed through a commit gate is read back by a transaction that
/// starts from the new version: of each key what was pending, of every other
/// key what the dataset showed before.
pub proof fn gate_commit_is_read_back(
    dataset: Map<Seq<u8>, RowView>,
    source: MergeSource,
    sub: SubmissionView,
    pending: Map<Seq<u8>, Option<Seq<u8>>>,
    reader: TxView,
    table: Map<Seq<u8>, EntryView>,
    batches: Seq<Batch>,
    key: Seq<u8>,
)
    requires
        key_map::lists(sub.writes, tx_buffer::live(pending)),
        key_map::lists_keys(sub.deletes, tx_buffer::dead(pending)),
        key_map::lists(
            order::pair_views(source.writes@),
            tx_buffer::live(commit_gate::coalesced(seq![sub])),
        ),
        key_map::lists_keys(
            order::key_views(source.deletes@),
            tx_buffer::dead(commit_gate::coalesced(seq![sub])),
        ),
        transaction::read_fault(reader, None) is None,
        reader.pending == Map::<Seq<u8>, Option<Seq<u8>>>::empty(),
        !reader.write_path.is_lsm(),
        shows(batches, visible(merged(dataset, source_rows(source))), key),
    ensures
        transaction::get_outcome(reader, table, ScannedView::Batches(batches), key, None) == Ok::<
            Option<Seq<u8>>,
            ErrorView,
        >(lookup(visible(dataset), Map::empty(), pending, key)),
{
    gate_commit_shows_pending(dataset, source, sub, pending);
}

/// What was committed through the log is read back at once: of each key what
/// was pending, of every other key what readers saw before.
pub proof fn lsm_commit_is_read_back(
    table: Map<Seq<u8>, EntryView>,
    writes: Seq<(Seq<u8>, Seq<u8>)>,
    deletes: Seq<Seq<u8>>,
    pending: Map<Seq<u8>, Option<Seq<u8>>>,
    generation: u64,
    seq: u64,
    reader: TxView,
    base: Map<Seq<u8>, Seq<u8>>,
    batches: Seq<Batch>,
    key: Seq<u8>,
)
    requires
        all_below(table, generation),
        key_map::lists(writes, tx_buffer::live(pending)),
        key_map::lists_keys(deletes, tx_buffer::dead(pending)),
        transaction::read_fault(reader, None) is None,
        reader.pending == Map::<Seq<u8>, Option<Seq<u8>>>::empty(),
        reader.write_path.is_lsm(),
        shows(batches, base, key),
    ensures
        transaction::get_outcome(
            reader,
            datastore::with_ops(table, datastore::commit_ops(writes, deletes), generation, seq),
            ScannedView::Batches(batches),
            key,
            None,
        ) == Ok::<Option<Seq<u8>>, ErrorView>(
            lookup(base, scan::table_values(table), pending, key),
        ),
{
    lsm_commit_shows_pending(table, writes, deletes, pending, generation, seq);
    get_is_lookup(
        reader,
        datastore::with_ops(table, datastore::commit_ops(writes, deletes), generation, seq),
        batches,
        base,
        key,
    );
}

/// A scan and point reads agree: a key is among the live rows of a range
/// exactly if it lies in the range and a read of it finds a value, and the
/// scan has that value.
pub proof fn scan_agrees_with_get(
    base: Map<Seq<u8>, Seq<u8>>,
    rows: Seq<(Seq<u8>, Seq<u8>)>,
    table: Map<Seq<u8>, Option<Seq<u8>>>,
    pending: Map<Seq<u8>, Option<Seq<u8>>>,
    start: Seq<u8>,
    end: Seq<u8>,
    k: Seq<u8>,
)
    requires
        scan::pairs_map(rows) == Map::new(
            |q: Seq<u8>| base.contains_key(q) && order::in_range(q, start, end),
            |q: Seq<u8>| Some(base[q]),
        ),
    ensures
        tx_buffer::live(scan::layers(rows, table, pending, start, end)).contains_key(k) == (
        order::in_range(k, start, end) && lookup(base, table, pending, k) is Some),
        tx_buffer::live(scan::layers(rows, table, pending, start, end)).contains_key(k)
            ==> Some(tx_buffer::live(scan::layers(rows, table, pending, start, end))[k])
            == lookup(base, table, pending, k),
{
}

/// The layers over the dataset show what a transaction sees after its own
/// commit.
pub proof fn lookup_is_overlay(
    base: Map<Seq<u8>, Seq<u8>>,
    table: Map<Seq<u8>, Option<Seq<u8>>>,
    pending: Map<Seq<u8>, Option<Seq<u8>>>,
    k: Seq<u8>,
)
    ensures
        lookup(base, table, pending, k) == (if overlaid(
            overlaid(base, table),
            pending,
        ).contains_key(k) {
            Some(overlaid(overlaid(base, table), pending)[k])
        } else {
            None
        }),
{
}

proof fn lemma_pairs_finite(rows: Seq<(Seq<u8>, Seq<u8>)>)
    ensures
        scan::pairs_map(rows).dom().finite(),
    decreases rows.len(),
{
    if rows.len() > 0 {
        lemma_pairs_finite(rows.drop_last());
    }
}

/// A forward scan lists the live rows in strictly ascending key order, each
/// key once, and a backward scan lists the same rows the other way round.
pub proof fn scans_are_sorted(
    rows: Seq<(Seq<u8>, Seq<u8>)>,
    table: Map<Seq<u8>, Option<Seq<u8>>>,
    pending: Map<Seq<u8>, Option<Seq<u8>>>,
    start: Seq<u8>,
    end: Seq<u8>,
)
    requires
        table.dom().finite(),
        pending.dom().finite(),
    ensures
        ({
            let m = tx_buffer::live(scan::layers(rows, table, pending, start, end));
            let forward = scan::in_direction(m, Direction::Forward);
            let backward = scan::in_direction(m, Direction::Backward);
            &&& key_map::lists(forward, m)
            &&& backward == forward.reverse()
        }),
{
    let all = scan::layers(rows, table, pending, start, end);
    let m = tx_buffer::live(all);
    lemma_pairs_finite(rows);
    assert(all.dom() =~= scan::pairs_map(rows).dom().union(
        scan::between(table, start, end).dom(),
    ).union(scan::between(pending, start, end).dom()));
    assert(scan::between(table, start, end).dom() =~= table.dom().intersect(
        scan::between(table, start, end).dom(),
    ));
    assert(scan::between(pending, start, end).dom() =~= pending.dom().intersect(
        scan::between(pending, start, end).dom(),
    ));
    assert(m.dom() =~= all.dom().intersect(m.dom()));
    key_map::listing_exists(m);
}

/// A scan without a page lists exactly what point reads find: its keys stand in
/// strictly ascending order, descending for a backward scan, each lies in the
/// range and has the value that a read of it finds, and every key of the range
/// of which a read finds a value is there.
pub proof fn scan_lists_what_get_finds(
    tx: TxView,
    table: Map<Seq<u8>, EntryView>,
    base: Map<Seq<u8>, Seq<u8>>,
    batches: Seq<Batch>,
    start: Seq<u8>,
    end: Seq<u8>,
    n: u32,
    direction: Direction,
    found: Seq<(Seq<u8>, Seq<u8>)>,
)
    requires
        transaction::read_fault(tx, None) is None,
        transaction::finite_layers(tx, table, None),
        rows::scanned_pairs(batches) is Ok,
        scan::pairs_map(rows::scanned_pairs(batches)->Ok_0) == Map::new(
            |q: Seq<u8>| base.contains_key(q) && order::in_range(q, start, end),
            |q: Seq<u8>| Some(base[q]),
        ),
        tx_buffer::live(
            scan::layers(
                rows::scanned_pairs(batches)->Ok_0,
                transaction::table_layer(tx, table, None),
                tx.pending,
                start,
                end,
            ),
        ).len() <= n,
        transaction::scan_outcome(
            tx,
            table,
            ScannedView::Batches(batches),
            start,
            end,
            ScanLimit::Count(n),
            0,
            None,
            direction,
        ) == Ok::<Seq<(Seq<u8>, Seq<u8>)>, ErrorView>(found),
    ensures
        match direction {
            Direction::Forward => key_map::ascending(found),
            Direction::Backward => key_map::ascending(found.reverse()),
        },
        forall|i: int|
            0 <= i < found.len() ==> order::in_range((#[trigger] found[i]).0, start, end)
                && lookup(
                base,
                transaction::table_layer(tx, table, None),
                tx.pending,
                found[i].0,
            ) == Some(found[i].1),
        forall|k: Seq<u8>|
            order::in_range(k, start, end) && lookup(
                base,
                transaction::table_layer(tx, table, None),
                tx.pending,
                k,
            ) is Some ==> #[trigger] key_map::has_row(found, k),
{
    let layer = transaction::table_layer(tx, table, None);
    let pairs = rows::scanned_pairs(batches)->Ok_0;
    let m = tx_buffer::live(scan::layers(pairs, layer, tx.pending, start, end));
    let forward = scan::in_direction(m, Direction::Forward);
    scans_are_sorted(pairs, layer, tx.pending, start, end);
    key_map::lemma_listing_len(forward);
    let ordered = scan::in_direction(m, direction);
    assert(ordered.skip(0) =~= ordered);
    scan::count_limit_is_take(ordered, n);
    assert(ordered.take(ordered.len() as int) =~= ordered);
    assert(found == ordered);
    if direction is Backward {
        assert(found.reverse() =~= forward);
    }
    assert forall|i: int| 0 <= i < found.len() implies order::in_range(
        (#[trigger] found[i]).0,
        start,
        end,
    ) && lookup(base, layer, tx.pending, found[i].0) == Some(found[i].1) by {
        let j = if direction is Backward {
            forward.len() - 1 - i
        } else {
            i
        };
        assert(found[i] == forward[j]);
        key_map::lemma_row(forward, j);
        scan_agrees_with_get(base, pairs, layer, tx.pending, start, end, found[i].0);
    }
    assert forall|k: Seq<u8>|
        order::in_range(k, start, end) && lookup(base, layer, tx.pending, k) is Some implies #[trigger] key_map::has_row(
        found,
        k,
    ) by {
        scan_agrees_with_get(base, pairs, layer, tx.pending, start, end, k);
        assert(m.contains_key(k));
        assert(key_map::row_map(forward).contains_key(k));
        let j = choose|j: int| key_map::row_at(forward, k, j);
        let i = if direction is Backward {
            forward.len() - 1 - j
        } else {
            j
        };
        assert(key_map::row_at(found, k, i));
    }
}

/// Pages by count follow each other without a gap or an overlap.
pub proof fn pages_join(rows: Seq<(Seq<u8>, Seq<u8>)>, skip: u32, n: u32, more: u32)
    requires
        skip + n <= u32::MAX,
        n + more <= u32::MAX,
    ensures
        scan::page(rows, skip, ScanLimit::Count(n)) + scan::page(
            rows,
            (skip + n) as u32,
            ScanLimit::Count(more),
        ) == scan::page(rows, skip, ScanLimit::Count((n + more) as u32)),
{
    let at = if skip as int <= rows.len() {
        skip as int
    } else {
        rows.len() as int
    };
    let next = if skip + n <= rows.len() {
        skip + n
    } else {
        rows.len() as int
    };
    scan::count_limit_is_take(rows.skip(at), n);
    scan::count_limit_is_take(rows.skip(at), (n + more) as u32);
    scan::count_limit_is_take(rows.skip(next), more);
    assert(scan::page(rows, skip, ScanLimit::Count(n)) + scan::page(
        rows,
        (skip + n) as u32,
        ScanLimit::Count(more),
    ) =~= scan::page(rows, skip, ScanLimit::Count((n + more) as u32)));
}

// Filters.

proof fn lemma_hex_digit(a: int, b: int)
    requires
        0 <= a < 16,
        0 <= b < 16,
        schema::hex_digit(a) == schema::hex_digit(b),
    ensures
        a == b,
{
}

/// Different keys have different literals, so a filter for one key selects no
/// row of another.
pub proof fn literals_are_distinct(a: Seq<u8>, b: Seq<u8>)
    requires
        schema::literal(a) == schema::literal(b),
    ensures
        a == b,
{
    let ha = schema::hex_text(a);
    let hb = schema::hex_text(b);
    reveal_strlit("X'");
    reveal_strlit("'");
    assert(schema::literal(a).len() == 2 + ha.len() + 1);
    assert(schema::literal(b).len() == 2 + hb.len() + 1);
    assert(a.len() == b.len());
    assert forall|i: int| 0 <= i < a.len() implies a[i] == b[i] by {
        assert(schema::literal(a)[2 + 2 * i] == ha[2 * i]);
        assert(schema::literal(b)[2 + 2 * i] == hb[2 * i]);
        assert(schema::literal(a)[2 + 2 * i + 1] == ha[2 * i + 1]);
        assert(schema::literal(b)[2 + 2 * i + 1] == hb[2 * i + 1]);
        assert((2 * i) / 2 == i && (2 * i) % 2 == 0);
        assert((2 * i + 1) / 2 == i && (2 * i + 1) % 2 == 1);
        lemma_hex_digit(a[i] as int / 16, b[i] as int / 16);
        lemma_hex_digit(a[i] as int % 16, b[i] as int % 16);
    }
    assert(a =~= b);
}

} // verus!
