//! What a reader finds after a whole history of transactions and flushes.

use vstd::prelude::*;

use crate::kvs::err::ErrorView;
use crate::kvs::key_map;
use crate::kvs::lance::columns::Batch;
use crate::kvs::lance::commit_gate;
use crate::kvs::lance::commit_gate::{MergeSource, SubmissionView};
use crate::kvs::lance::datastore;
use crate::kvs::lance::flusher::FlushPlan;
use crate::kvs::lance::laws;
use crate::kvs::lance::laws::RowView;
use crate::kvs::lance::memtable;
use crate::kvs::lance::memtable::EntryView;
use crate::kvs::lance::scan;
use crate::kvs::lance::transaction;
use crate::kvs::lance::transaction::{ScannedView, TxView};
use crate::kvs::lance::tx_buffer;
use crate::kvs::order;

verus! {

/// The dataset and the write buffer of a datastore.
pub struct StoreView {
    pub dataset: Map<Seq<u8>, RowView>,
    pub table: Map<Seq<u8>, EntryView>,
    /// The generation of the latest commit.
    pub generation: u64,
}

/// One event. A transaction stages operations, each a key with its new value or
/// without one, and ends.
pub enum Event {
    /// The transaction was cancelled.
    Cancelled { ops: Seq<(Seq<u8>, Option<Seq<u8>>)> },
    /// It was committed through a commit gate.
    Gated { ops: Seq<(Seq<u8>, Option<Seq<u8>>)>, sub: SubmissionView, source: MergeSource },
    /// It was committed through the log and the write buffer.
    Logged {
        ops: Seq<(Seq<u8>, Option<Seq<u8>>)>,
        writes: Seq<(Seq<u8>, Seq<u8>)>,
        deletes: Seq<Seq<u8>>,
        seq: u64,
    },
    /// The write buffer was flushed up to a generation.
    Flushed { plan: FlushPlan, up_to: u64 },
}

/// What is pending after the operations were staged, in their order.
pub open spec fn staged(ops: Seq<(Seq<u8>, Option<Seq<u8>>)>) -> Map<Seq<u8>, Option<Seq<u8>>>
    decreases ops.len(),
{
    if ops.len() == 0 {
        Map::empty()
    } else {
        staged(ops.drop_last()).insert(ops.last().0, ops.last().1)
    }
}

/// A plain map after the operations, in their order.
pub open spec fn with_staged(
    m: Map<Seq<u8>, Seq<u8>>,
    ops: Seq<(Seq<u8>, Option<Seq<u8>>)>,
) -> Map<Seq<u8>, Seq<u8>>
    decreases ops.len(),
{
    if ops.len() == 0 {
        m
    } else {
        match ops.last().1 {
            Some(v) => with_staged(m, ops.drop_last()).insert(ops.last().0, v),
            None => with_staged(m, ops.drop_last()).remove(ops.last().0),
        }
    }
}

/// The event can come to this store, on the log-structured path or on the
/// other.
pub open spec fn possible(store: StoreView, event: Event, lsm: bool) -> bool {
    match event {
        Event::Cancelled { ops } => true,
        Event::Gated { ops, sub, source } => {
            &&& !lsm
            &&& key_map::lists(sub.writes, tx_buffer::live(staged(ops)))
            &&& key_map::lists_keys(sub.deletes, tx_buffer::dead(staged(ops)))
            &&& key_map::lists(
                order::pair_views(source.writes@),
                tx_buffer::live(commit_gate::coalesced(seq![sub])),
            )
            &&& key_map::lists_keys(
                order::key_views(source.deletes@),
                tx_buffer::dead(commit_gate::coalesced(seq![sub])),
            )
        },
        Event::Logged { ops, writes, deletes, seq } => {
            &&& lsm
            &&& store.generation < u64::MAX
            &&& key_map::lists(writes, tx_buffer::live(staged(ops)))
            &&& key_map::lists_keys(deletes, tx_buffer::dead(staged(ops)))
        },
        Event::Flushed { plan, up_to } => lsm && plan.flushes(store.table, up_to),
    }
}

/// The store after the event.
pub open spec fn after(store: StoreView, event: Event) -> StoreView {
    match event {
        Event::Cancelled { ops } => store,
        Event::Gated { ops, sub, source } => StoreView {
            dataset: laws::merged(store.dataset, laws::source_rows(source)),
            ..store
        },
        Event::Logged { ops, writes, deletes, seq } => StoreView {
            table: datastore::with_ops(
                store.table,
                datastore::commit_ops(writes, deletes),
                (store.generation + 1) as u64,
                seq,
            ),
            generation: (store.generation + 1) as u64,
            ..store
        },
        Event::Flushed { plan, up_to } => StoreView {
            dataset: laws::merged(store.dataset, laws::source_rows(plan.source)),
            table: memtable::rows_without(store.table, plan.flushed@),
            ..store
        },
    }
}

/// The store after the events, in their order.
pub open spec fn after_all(store: StoreView, events: Seq<Event>) -> StoreView
    decreases events.len(),
{
    if events.len() == 0 {
        store
    } else {
        after(after_all(store, events.drop_last()), events.last())
    }
}

/// Each event can come when its turn is.
pub open spec fn all_possible(store: StoreView, events: Seq<Event>, lsm: bool) -> bool
    decreases events.len(),
{
    events.len() > 0 ==> {
        &&& all_possible(store, events.drop_last(), lsm)
        &&& possible(after_all(store, events.drop_last()), events.last(), lsm)
    }
}

/// The reference: a plain map to which the operations of the committed
/// transactions are applied in their order, and nothing else.
pub open spec fn reference(m: Map<Seq<u8>, Seq<u8>>, events: Seq<Event>) -> Map<Seq<u8>, Seq<u8>>
    decreases events.len(),
{
    if events.len() == 0 {
        m
    } else {
        match events.last() {
            Event::Gated { ops, .. } => with_staged(reference(m, events.drop_last()), ops),
            Event::Logged { ops, .. } => with_staged(reference(m, events.drop_last()), ops),
            _ => reference(m, events.drop_last()),
        }
    }
}

/// What a reader without pending operations finds in the store.
pub open spec fn seen(store: StoreView, lsm: bool) -> Map<Seq<u8>, Seq<u8>> {
    laws::overlaid(
        laws::visible(store.dataset),
        if lsm {
            scan::table_values(store.table)
        } else {
            Map::empty()
        },
    )
}

/// A staged operation is one more pending entry.
pub proof fn staging_follows_the_operations(
    before: TxView,
    tx: TxView,
    ops: Seq<(Seq<u8>, Option<Seq<u8>>)>,
    key: Seq<u8>,
    entry: Option<Seq<u8>>,
)
    requires
        before.pending == staged(ops),
        transaction::wrote(before, tx, Ok(()), key, entry),
        transaction::write_fault(before) is None,
    ensures
        tx.pending == staged(ops.push((key, entry))),
{
    assert(ops.push((key, entry)).drop_last() =~= ops);
}

proof fn lemma_staged(m: Map<Seq<u8>, Seq<u8>>, ops: Seq<(Seq<u8>, Option<Seq<u8>>)>)
    ensures
        laws::overlaid(m, staged(ops)) == with_staged(m, ops),
    decreases ops.len(),
{
    if ops.len() > 0 {
        lemma_staged(m, ops.drop_last());
    }
    assert(laws::overlaid(m, staged(ops)) =~= with_staged(m, ops));
}

proof fn lemma_event(store: StoreView, event: Event, lsm: bool)
    requires
        possible(store, event, lsm),
        datastore::all_within(store.table, store.generation),
    ensures
        datastore::all_within(after(store, event).table, after(store, event).generation),
        seen(after(store, event), lsm) == (match event {
            Event::Gated { ops, .. } => with_staged(seen(store, lsm), ops),
            Event::Logged { ops, .. } => with_staged(seen(store, lsm), ops),
            _ => seen(store, lsm),
        }),
{
    let base = laws::visible(store.dataset);
    match event {
        Event::Cancelled { ops } => {},
        Event::Gated { ops, sub, source } => {
            laws::gate_commit_shows_pending(store.dataset, source, sub, staged(ops));
            lemma_staged(base, ops);
            assert(seen(store, lsm) =~= base);
            assert(seen(after(store, event), lsm) =~= laws::visible(after(store, event).dataset));
        },
        Event::Logged { ops, writes, deletes, seq } => {
            let generation = (store.generation + 1) as u64;
            let layer = scan::table_values(store.table);
            laws::lsm_commit_shows_pending(
                store.table,
                writes,
                deletes,
                staged(ops),
                generation,
                seq,
            );
            datastore::lemma_ops_within(
                store.table,
                datastore::commit_ops(writes, deletes),
                generation,
                seq,
                generation,
            );
            lemma_staged(seen(store, lsm), ops);
            assert(laws::overlaid(base, layer.union_prefer_right(staged(ops))) =~= laws::overlaid(
                laws::overlaid(base, layer),
                staged(ops),
            ));
        },
        Event::Flushed { plan, up_to } => {
            let flushed = scan::table_values(memtable::rows_up_to(store.table, up_to));
            laws::flush_represents_entries(plan, store.table, up_to);
            laws::merge_overlays(store.dataset, laws::source_rows(plan.source), flushed);
            laws::flush_is_invisible(base, plan, store.table, store.table, up_to);
        },
    }
}

proof fn lemma_history(store: StoreView, events: Seq<Event>, lsm: bool)
    requires
        all_possible(store, events, lsm),
        datastore::all_within(store.table, store.generation),
    ensures
        datastore::all_within(
            after_all(store, events).table,
            after_all(store, events).generation,
        ),
        seen(after_all(store, events), lsm) == reference(seen(store, lsm), events),
    decreases events.len(),
{
    if events.len() > 0 {
        lemma_history(store, events.drop_last(), lsm);
        lemma_event(after_all(store, events.drop_last()), events.last(), lsm);
    }
}

/// Transactions run one after the other, each committed or cancelled, with
/// flushes between them. Then an open transaction finds of every key what a
/// plain map holds that took the operations of the committed transactions and
/// then its own: its own writes and deletions win, cancelled ones never show,
/// and the latest committed value stands.
pub proof fn history_matches_the_reference(
    store: StoreView,
    events: Seq<Event>,
    lsm: bool,
    tx: TxView,
    ops: Seq<(Seq<u8>, Option<Seq<u8>>)>,
    batches: Seq<Batch>,
    key: Seq<u8>,
)
    requires
        all_possible(store, events, lsm),
        datastore::all_within(store.table, store.generation),
        transaction::read_fault(tx, None) is None,
        tx.write_path.is_lsm() == lsm,
        tx.pending == staged(ops),
        laws::shows(batches, laws::visible(after_all(store, events).dataset), key),
    ensures
        ({
            let expected = with_staged(reference(seen(store, lsm), events), ops);
            transaction::get_outcome(
                tx,
                after_all(store, events).table,
                ScannedView::Batches(batches),
                key,
                None,
            ) == Ok::<Option<Seq<u8>>, ErrorView>(
                if expected.contains_key(key) {
                    Some(expected[key])
                } else {
                    None
                },
            )
        }),
{
    let end = after_all(store, events);
    let base = laws::visible(end.dataset);
    lemma_history(store, events, lsm);
    lemma_staged(seen(end, lsm), ops);
    laws::get_is_lookup(tx, end.table, batches, base, key);
    laws::lookup_is_overlay(
        base,
        transaction::table_layer(tx, end.table, None),
        tx.pending,
        key,
    );
}

} // verus!
