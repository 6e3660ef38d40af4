//! What reads return, said of rows, layers and pages.

use vstd::prelude::*;

use crate::kvs::api::{Direction, ScanLimit};
use crate::kvs::config::WritePath;
use crate::kvs::err::{Error, ErrorView};
use crate::kvs::key_map;
use crate::kvs::lance::columns;
use crate::kvs::lance::columns::{Batch, ColumnView};
use crate::kvs::lance::laws;
use crate::kvs::lance::memtable::EntryView;
use crate::kvs::lance::rows;
use crate::kvs::lance::scan;
use crate::kvs::lance::transaction;
use crate::kvs::lance::transaction::{ScannedView, Snapshot, TxView};
use crate::kvs::lance::tx_buffer;
use crate::kvs::order;
use crate::kvs::order::{Key, Val};

verus! {

/// The value of `k` that a read sees: what the transaction has pending; else,
/// for a read of the present on a path with a write buffer, what the buffer
/// has; else what the dataset shows.
pub open spec fn sees(
    tx: TxView,
    table: Map<Seq<u8>, EntryView>,
    base: Map<Seq<u8>, Seq<u8>>,
    version: Option<u64>,
    k: Seq<u8>,
) -> Option<Seq<u8>> {
    if tx.pending.contains_key(k) {
        tx.pending[k]
    } else if version is None && (tx.write_path == WritePath::LsmWithWal || tx.write_path
        == WritePath::LsmColumnar) && table.contains_key(k) {
        table[k].value
    } else if base.contains_key(k) {
        Some(base[k])
    } else {
        None
    }
}

/// A transaction that may read: it is open, and asks for the past only where
/// the datastore keeps it.
pub open spec fn may_read(tx: TxView, version: Option<u64>) -> bool {
    !tx.done && (version is Some ==> tx.versioned)
}

/// A point read returns what it sees, now or as of an instant: on a dataset
/// that shows `base`, on one that has no such snapshot, and on one that fails,
/// where the failure counts only if no layer above the dataset has the key.
pub proof fn get_returns_what_it_sees(
    tx: TxView,
    table: Map<Seq<u8>, EntryView>,
    batches: Seq<Batch>,
    base: Map<Seq<u8>, Seq<u8>>,
    key: Seq<u8>,
    version: Option<u64>,
    fault: ErrorView,
)
    requires
        may_read(tx, version),
        laws::shows(batches, base, key),
    ensures
        transaction::get_outcome(tx, table, ScannedView::Batches(batches), key, version) == Ok::<
            Option<Seq<u8>>,
            ErrorView,
        >(sees(tx, table, base, version, key)),
        transaction::get_outcome(tx, table, ScannedView::NoSnapshot, key, version) == Ok::<
            Option<Seq<u8>>,
            ErrorView,
        >(sees(tx, table, Map::empty(), version, key)),
        tx.pending.contains_key(key) ==> transaction::get_outcome(
            tx,
            table,
            ScannedView::Failed(fault),
            key,
            version,
        ) == Ok::<Option<Seq<u8>>, ErrorView>(tx.pending[key]),
        !tx.pending.contains_key(key) && (version is Some || !table.contains_key(key)
            || tx.write_path == WritePath::LegacyCommitGate) ==> transaction::get_outcome(
            tx,
            table,
            ScannedView::Failed(fault),
            key,
            version,
        ) == Err::<Option<Seq<u8>>, ErrorView>(fault),
{
}

/// A read of the past does not depend on the write buffer: with any two tables
/// a point read and a scan come out the same.
pub proof fn the_past_ignores_the_write_buffer(
    tx: TxView,
    one: Map<Seq<u8>, EntryView>,
    other: Map<Seq<u8>, EntryView>,
    scanned: ScannedView,
    key: Seq<u8>,
    instant: u64,
    start: Seq<u8>,
    end: Seq<u8>,
    limit: ScanLimit,
    skip: u32,
    direction: Direction,
)
    ensures
        transaction::get_outcome(tx, one, scanned, key, Some(instant)) == transaction::get_outcome(
            tx,
            other,
            scanned,
            key,
            Some(instant),
        ),
        transaction::scan_outcome(
            tx,
            one,
            scanned,
            start,
            end,
            limit,
            skip,
            Some(instant),
            direction,
        ) == transaction::scan_outcome(
            tx,
            other,
            scanned,
            start,
            end,
            limit,
            skip,
            Some(instant),
            direction,
        ),
{
}

/// Without anything pending, a point read as of an instant returns what the
/// dataset showed then, whatever the write buffer holds.
pub proof fn the_past_is_what_the_dataset_showed(
    tx: TxView,
    table: Map<Seq<u8>, EntryView>,
    batches: Seq<Batch>,
    base: Map<Seq<u8>, Seq<u8>>,
    key: Seq<u8>,
    instant: u64,
)
    requires
        may_read(tx, Some(instant)),
        !tx.pending.contains_key(key),
        laws::shows(batches, base, key),
    ensures
        transaction::get_outcome(
            tx,
            table,
            ScannedView::Batches(batches),
            key,
            Some(instant),
        ) == Ok::<Option<Seq<u8>>, ErrorView>(
            if base.contains_key(key) {
                Some(base[key])
            } else {
                None
            },
        ),
{
}

/// Which state of the dataset a read is sent to: the one of the instant where
/// one is given; the latest on a path with a write buffer; else the one that
/// the transaction started from.
pub proof fn reads_go_to_their_snapshot(tx: TxView, instant: u64)
    ensures
        transaction::snapshot_for(tx, Some(instant)) == Snapshot::AsOf(instant),
        tx.write_path == WritePath::LegacyCommitGate ==> transaction::snapshot_for(tx, None)
            == Snapshot::Version(tx.read_version),
        tx.write_path != WritePath::LegacyCommitGate ==> transaction::snapshot_for(tx, None)
            == Snapshot::Latest,
{
}

/// What is refused, and for which reason: everything once the transaction is
/// finished, writes of a transaction that was opened for reading, and reads of
/// the past where none is kept. Nothing else is.
pub proof fn refusals(tx: TxView, version: Option<u64>)
    ensures
        transaction::write_fault(tx) is None <==> !tx.done && tx.write,
        tx.done ==> transaction::write_fault(tx) == Some(ErrorView::TransactionFinished),
        !tx.done && !tx.write ==> transaction::write_fault(tx) == Some(
            ErrorView::TransactionReadonly,
        ),
        transaction::read_fault(tx, version) is None <==> may_read(tx, version),
        version is Some && !tx.versioned ==> transaction::read_fault(tx, version) == Some(
            ErrorView::UnsupportedVersionedQueries,
        ),
        tx.done && (version is None || tx.versioned) ==> transaction::read_fault(tx, version)
            == Some(ErrorView::TransactionFinished),
{
}

/// A refused read returns the reason, whatever the layers hold.
pub proof fn refused_reads_return_the_reason(
    tx: TxView,
    table: Map<Seq<u8>, EntryView>,
    scanned: ScannedView,
    key: Seq<u8>,
    version: Option<u64>,
    start: Seq<u8>,
    end: Seq<u8>,
    limit: ScanLimit,
    skip: u32,
    direction: Direction,
)
    requires
        !may_read(tx, version),
    ensures
        ({
            let reason = if version is Some && !tx.versioned {
                ErrorView::UnsupportedVersionedQueries
            } else {
                ErrorView::TransactionFinished
            };
            &&& transaction::get_outcome(tx, table, scanned, key, version) == Err::<
                Option<Seq<u8>>,
                ErrorView,
            >(reason)
            &&& transaction::scan_outcome(
                tx,
                table,
                scanned,
                start,
                end,
                limit,
                skip,
                version,
                direction,
            ) == Err::<Seq<(Seq<u8>, Seq<u8>)>, ErrorView>(reason)
        }),
{
}

/// A save point notes what is pending and changes nothing else; going back to
/// it and releasing it take it away, and only going back changes what is
/// pending. A cancelled transaction is finished and has nothing pending.
pub proof fn save_points_note_what_is_pending(tx: TxView, noted: Map<Seq<u8>, Option<Seq<u8>>>)
    ensures
        transaction::saved(tx) == (TxView {
            save_points: tx.save_points + seq![tx.pending],
            ..tx
        }),
        ({
            let deep = TxView { save_points: tx.save_points + seq![noted], ..tx };
            &&& transaction::rolled_back(deep) == (TxView { pending: noted, ..tx })
            &&& transaction::released(deep) == tx
        }),
        transaction::cancelled(tx).done,
        transaction::cancelled(tx).pending == Map::<Seq<u8>, Option<Seq<u8>>>::empty(),
        transaction::cancelled(tx).save_points.len() == 0,
        transaction::cancelled(tx).write == tx.write,
        transaction::cancelled(tx).versioned == tx.versioned,
        transaction::cancelled(tx).read_version == tx.read_version,
        transaction::cancelled(tx).write_path == tx.write_path,
        transaction::cancelled(tx).gated == tx.gated,
{
    let deep = TxView { save_points: tx.save_points + seq![noted], ..tx };
    assert(tx.save_points + seq![tx.pending] =~= tx.save_points.push(tx.pending));
    assert(deep.save_points.drop_last() =~= tx.save_points);
    assert(deep.save_points.last() == noted);
}

/// A write is refused with its reason and changes nothing, or it succeeds: the
/// entry of its key is then pending, and nothing else has changed.
pub proof fn a_write_is_noted_or_refused(
    before: TxView,
    after: TxView,
    r: Result<(), ErrorView>,
    key: Seq<u8>,
    entry: Option<Seq<u8>>,
    other: Seq<u8>,
)
    requires
        transaction::wrote(before, after, r, key, entry),
    ensures
        before.done ==> r == Err::<(), ErrorView>(ErrorView::TransactionFinished) && after == before,
        !before.done && !before.write ==> r == Err::<(), ErrorView>(ErrorView::TransactionReadonly)
            && after == before,
        !before.done && before.write ==> {
            &&& r is Ok
            &&& after.pending.contains_key(key) && after.pending[key] == entry
            &&& other != key ==> after.pending.contains_key(other) == before.pending.contains_key(
                other,
            ) && (before.pending.contains_key(other) ==> after.pending[other]
                == before.pending[other])
            &&& after.save_points == before.save_points
            &&& after.done == before.done
            &&& after.write == before.write
            &&& after.versioned == before.versioned
            &&& after.read_version == before.read_version
            &&& after.write_path == before.write_path
            &&& after.gated == before.gated
        },
{
}

/// What is said of a result is said of what was returned: its value, its rows
/// or its keys at their places, or its error.
pub proof fn results_are_seen_as_returned(
    value: Result<Option<Val>, Error>,
    pairs: Result<Vec<(Key, Val)>, Error>,
    keys: Result<Vec<Key>, Error>,
    unit: Result<(), Error>,
)
    ensures
        match value {
            Ok(Some(v)) => transaction::read_view(value) == Ok::<Option<Seq<u8>>, ErrorView>(
                Some(v@),
            ),
            Ok(None) => transaction::read_view(value) == Ok::<Option<Seq<u8>>, ErrorView>(None),
            Err(e) => transaction::read_view(value) == Err::<Option<Seq<u8>>, ErrorView>(e@),
        },
        match pairs {
            Ok(rows) => transaction::pairs_view(pairs) matches Ok(views) && views.len()
                == rows@.len() && forall|i: int|
                0 <= i < rows@.len() ==> #[trigger] views[i] == (rows@[i].0@, rows@[i].1@),
            Err(e) => transaction::pairs_view(pairs) == Err::<
                Seq<(Seq<u8>, Seq<u8>)>,
                ErrorView,
            >(e@),
        },
        match keys {
            Ok(ks) => transaction::keys_view(keys) matches Ok(views) && views.len() == ks@.len()
                && forall|i: int| 0 <= i < ks@.len() ==> #[trigger] views[i] == ks@[i]@,
            Err(e) => transaction::keys_view(keys) == Err::<Seq<Seq<u8>>, ErrorView>(e@),
        },
        match unit {
            Ok(()) => transaction::unit_view(unit) is Ok,
            Err(e) => transaction::unit_view(unit) == Err::<(), ErrorView>(e@),
        },
{
}

/// A new transaction is open, has nothing pending and no save point, and is as
/// it was asked for.
pub proof fn new_transactions_are_empty(
    write: bool,
    versioned: bool,
    read_version: u64,
    write_path: WritePath,
    gated: bool,
)
    ensures
        ({
            let tx = transaction::fresh(write, versioned, read_version, write_path, gated);
            &&& !tx.done
            &&& tx.write == write
            &&& tx.versioned == versioned
            &&& tx.read_version == read_version
            &&& tx.write_path == write_path
            &&& tx.gated == gated
            &&& forall|k: Seq<u8>| !#[trigger] tx.pending.contains_key(k)
            &&& tx.save_points.len() == 0
        }),
{
}

// Scans.

/// The rows stand in the order of the scan, each key once.
pub open spec fn in_order(rows: Seq<(Seq<u8>, Seq<u8>)>, direction: Direction) -> bool {
    forall|i: int, j: int|
        0 <= i < j < rows.len() ==> match direction {
            Direction::Forward => order::key_lt(rows[i].0, rows[j].0),
            Direction::Backward => order::key_lt(rows[j].0, rows[i].0),
        }
}

/// The bytes of all keys and values.
pub open spec fn size(rows: Seq<(Seq<u8>, Seq<u8>)>) -> nat
    decreases rows.len(),
{
    if rows.len() == 0 {
        0
    } else {
        rows[0].0.len() + rows[0].1.len() + size(rows.drop_first())
    }
}

/// The pairs are the rows of `base` in the range.
pub open spec fn rows_in_range(
    pairs: Seq<(Seq<u8>, Seq<u8>)>,
    base: Map<Seq<u8>, Seq<u8>>,
    start: Seq<u8>,
    end: Seq<u8>,
) -> bool {
    &&& forall|i: int|
        0 <= i < pairs.len() ==> order::in_range((#[trigger] pairs[i]).0, start, end)
            && base.contains_key(pairs[i].0) && base[pairs[i].0] == pairs[i].1
    &&& forall|k: Seq<u8>|
        base.contains_key(k) && order::in_range(k, start, end) ==> #[trigger] key_map::has_row(
            pairs,
            k,
        )
}

/// The scan yielded the pairs; none where there is no such snapshot.
pub open spec fn yields(scanned: ScannedView, pairs: Seq<(Seq<u8>, Seq<u8>)>) -> bool {
    match scanned {
        ScannedView::NoSnapshot => pairs.len() == 0,
        ScannedView::Batches(batches) => rows::scanned_pairs(batches) == Ok::<
            Seq<(Seq<u8>, Seq<u8>)>,
            Seq<char>,
        >(pairs),
        ScannedView::Failed(_) => false,
    }
}

/// `all` lists the keys of the range of which a read sees a value, with that
/// value, in the order of the scan.
pub open spec fn lists_the_range(
    all: Seq<(Seq<u8>, Seq<u8>)>,
    tx: TxView,
    table: Map<Seq<u8>, EntryView>,
    base: Map<Seq<u8>, Seq<u8>>,
    version: Option<u64>,
    start: Seq<u8>,
    end: Seq<u8>,
    direction: Direction,
) -> bool {
    &&& in_order(all, direction)
    &&& forall|i: int|
        0 <= i < all.len() ==> order::in_range((#[trigger] all[i]).0, start, end) && sees(
            tx,
            table,
            base,
            version,
            all[i].0,
        ) == Some(all[i].1)
    &&& forall|k: Seq<u8>|
        order::in_range(k, start, end) && sees(tx, table, base, version, k) is Some
            ==> #[trigger] key_map::has_row(all, k)
}

/// `found` is the page of `all` behind the first `skip` rows that the limit
/// lets pass. A limit in bytes ends with the row that reaches it, so that one
/// row passes at least.
pub open spec fn is_page(
    found: Seq<(Seq<u8>, Seq<u8>)>,
    all: Seq<(Seq<u8>, Seq<u8>)>,
    skip: u32,
    limit: ScanLimit,
) -> bool {
    let from: int = if skip <= all.len() {
        skip as int
    } else {
        all.len() as int
    };
    let to = from + found.len();
    &&& to <= all.len()
    &&& found == all.subrange(from, to)
    &&& match limit {
        ScanLimit::Count(n) => found.len() <= n && (found.len() == n || to == all.len()),
        ScanLimit::Bytes(b) => {
            &&& found.len() == 0 ==> from == all.len()
            &&& found.len() > 1 ==> size(found.drop_last()) < b
            &&& to == all.len() || size(found) >= b
        },
        ScanLimit::BytesOrCount(b, n) => {
            &&& found.len() == 0 ==> from == all.len()
            &&& found.len() > 1 ==> size(found.drop_last()) < b && found.len() - 1 < n
            &&& to == all.len() || size(found) >= b || found.len() >= n
        },
    }
}

proof fn lemma_size_last(rows: Seq<(Seq<u8>, Seq<u8>)>)
    requires
        rows.len() > 0,
    ensures
        size(rows) == size(rows.drop_last()) + rows.last().0.len() + rows.last().1.len(),
    decreases rows.len(),
{
    reveal_with_fuel(size, 2);
    if rows.len() > 1 {
        lemma_size_last(rows.drop_first());
        assert(rows.drop_first().drop_last() =~= rows.drop_last().drop_first());
    }
}

proof fn lemma_size(rows: Seq<(Seq<u8>, Seq<u8>)>)
    ensures
        size(rows) == scan::row_bytes(rows),
    decreases rows.len(),
{
    if rows.len() > 0 {
        lemma_size(rows.drop_last());
        lemma_size_last(rows);
    }
}

proof fn lemma_pairs_of(
    pairs: Seq<(Seq<u8>, Seq<u8>)>,
    base: Map<Seq<u8>, Seq<u8>>,
    k: Seq<u8>,
)
    requires
        forall|i: int|
            0 <= i < pairs.len() ==> base.contains_key((#[trigger] pairs[i]).0)
                && base[pairs[i].0] == pairs[i].1,
    ensures
        scan::pairs_map(pairs).contains_key(k) == key_map::has_row(pairs, k),
        scan::pairs_map(pairs).contains_key(k) ==> scan::pairs_map(pairs)[k] == Some(base[k]),
    decreases pairs.len(),
{
    if pairs.len() > 0 {
        let rest = pairs.drop_last();
        assert forall|i: int| 0 <= i < rest.len() implies base.contains_key(
            (#[trigger] rest[i]).0,
        ) && base[rest[i].0] == rest[i].1 by {
            assert(rest[i] == pairs[i]);
        }
        lemma_pairs_of(rest, base, k);
        assert(base.contains_key(pairs[pairs.len() - 1].0));
        if key_map::has_row(rest, k) {
            let i = choose|i: int| key_map::row_at(rest, k, i);
            assert(key_map::row_at(pairs, k, i));
        }
        if pairs.last().0 == k {
            assert(key_map::row_at(pairs, k, pairs.len() - 1));
        }
        if key_map::has_row(pairs, k) && pairs.last().0 != k {
            let i = choose|i: int| key_map::row_at(pairs, k, i);
            assert(key_map::row_at(rest, k, i));
        }
    }
}

proof fn lemma_live_is_seen(
    tx: TxView,
    table: Map<Seq<u8>, EntryView>,
    base: Map<Seq<u8>, Seq<u8>>,
    version: Option<u64>,
    pairs: Seq<(Seq<u8>, Seq<u8>)>,
    start: Seq<u8>,
    end: Seq<u8>,
    k: Seq<u8>,
)
    requires
        rows_in_range(pairs, base, start, end),
    ensures
        ({
            let m = tx_buffer::live(
                scan::layers(
                    pairs,
                    transaction::table_layer(tx, table, version),
                    tx.pending,
                    start,
                    end,
                ),
            );
            &&& m.contains_key(k) == (order::in_range(k, start, end) && sees(
                tx,
                table,
                base,
                version,
                k,
            ) is Some)
            &&& m.contains_key(k) ==> Some(m[k]) == sees(tx, table, base, version, k)
        }),
{
    lemma_pairs_of(pairs, base, k);
    if key_map::has_row(pairs, k) {
        let i = choose|i: int| key_map::row_at(pairs, k, i);
        assert(order::in_range(pairs[i].0, start, end));
    }
}

proof fn lemma_listing_of_range(
    all: Seq<(Seq<u8>, Seq<u8>)>,
    tx: TxView,
    table: Map<Seq<u8>, EntryView>,
    base: Map<Seq<u8>, Seq<u8>>,
    version: Option<u64>,
    pairs: Seq<(Seq<u8>, Seq<u8>)>,
    start: Seq<u8>,
    end: Seq<u8>,
    direction: Direction,
)
    requires
        rows_in_range(pairs, base, start, end),
        lists_the_range(all, tx, table, base, version, start, end, direction),
    ensures
        scan::in_direction(
            tx_buffer::live(
                scan::layers(
                    pairs,
                    transaction::table_layer(tx, table, version),
                    tx.pending,
                    start,
                    end,
                ),
            ),
            direction,
        ) == all,
{
    let m = tx_buffer::live(
        scan::layers(
            pairs,
            transaction::table_layer(tx, table, version),
            tx.pending,
            start,
            end,
        ),
    );
    let up = match direction {
        Direction::Forward => all,
        Direction::Backward => all.reverse(),
    };
    let n = all.len();
    assert forall|i: int, j: int| 0 <= i < j < up.len() implies order::key_lt(
        up[i].0,
        up[j].0,
    ) by {
        if direction is Backward {
            assert(order::key_lt(all[n - 1 - i].0, all[n - 1 - j].0));
        } else {
            assert(order::key_lt(all[i].0, all[j].0));
        }
    }
    assert forall|k: Seq<u8>| #[trigger]
        key_map::row_map(up).contains_key(k) == m.contains_key(k) && (m.contains_key(k)
            ==> key_map::row_map(up)[k] == m[k]) by {
        lemma_live_is_seen(tx, table, base, version, pairs, start, end, k);
        if key_map::has_row(up, k) {
            let i = choose|i: int| key_map::row_at(up, k, i);
            key_map::lemma_row(up, i);
            let at = if direction is Backward {
                n - 1 - i
            } else {
                i
            };
            assert(all[at] == up[i]);
        }
        if m.contains_key(k) {
            assert(key_map::has_row(all, k));
            let i = choose|i: int| key_map::row_at(all, k, i);
            let at = if direction is Backward {
                n - 1 - i
            } else {
                i
            };
            assert(up[at] == all[i]);
            assert(key_map::row_at(up, k, at));
        }
    }
    assert(key_map::row_map(up) =~= m);
    key_map::lemma_listing(up, m);
    if direction is Backward {
        assert(up.reverse() =~= all);
    }
}

/// A scan returns a page of the rows that it sees in its range. These stand in
/// ascending order for a forward scan and in descending order for a backward
/// one, and the page is cut from their beginning: first as many rows are left
/// out as asked, then the limit is counted.
pub proof fn scan_returns_a_page_in_its_order(
    tx: TxView,
    table: Map<Seq<u8>, EntryView>,
    base: Map<Seq<u8>, Seq<u8>>,
    scanned: ScannedView,
    pairs: Seq<(Seq<u8>, Seq<u8>)>,
    start: Seq<u8>,
    end: Seq<u8>,
    limit: ScanLimit,
    skip: u32,
    version: Option<u64>,
    direction: Direction,
    all: Seq<(Seq<u8>, Seq<u8>)>,
)
    requires
        may_read(tx, version),
        yields(scanned, pairs),
        rows_in_range(pairs, base, start, end),
        lists_the_range(all, tx, table, base, version, start, end, direction),
    ensures
        transaction::scan_outcome(
            tx,
            table,
            scanned,
            start,
            end,
            limit,
            skip,
            version,
            direction,
        ) matches Ok(found) && is_page(found, all, skip, limit),
{
    lemma_listing_of_range(all, tx, table, base, version, pairs, start, end, direction);
    if scanned is NoSnapshot {
        assert(pairs =~= Seq::empty());
    }
    let from: int = if skip <= all.len() {
        skip as int
    } else {
        all.len() as int
    };
    let rest = all.skip(from);
    let found = scan::page(all, skip, limit);
    match limit {
        ScanLimit::Count(n) => {
            scan::count_limit_is_take(rest, n);
        },
        _ => {
            if rest.len() > 0 {
                scan::byte_limit_passes_at_least(rest, limit);
                if found.len() > 1 {
                    assert(found.drop_last() =~= rest.take(found.len() - 1));
                    assert(!scan::reaches(rest.take(found.len() - 1), limit));
                    lemma_size(found.drop_last());
                }
                lemma_size(found);
            } else {
                assert(scan::shortest_reaching(rest, limit, 1) == 0);
                assert(found =~= Seq::empty());
            }
        },
    }
    assert(found =~= all.subrange(from, from + found.len()));
}

/// The rows that a scan sees in its range can be listed in its order.
pub proof fn the_range_can_be_listed(
    tx: TxView,
    table: Map<Seq<u8>, EntryView>,
    base: Map<Seq<u8>, Seq<u8>>,
    pairs: Seq<(Seq<u8>, Seq<u8>)>,
    start: Seq<u8>,
    end: Seq<u8>,
    version: Option<u64>,
    direction: Direction,
) -> (all: Seq<(Seq<u8>, Seq<u8>)>)
    requires
        rows_in_range(pairs, base, start, end),
        transaction::finite_layers(tx, table, version),
    ensures
        lists_the_range(all, tx, table, base, version, start, end, direction),
{
    let layer = transaction::table_layer(tx, table, version);
    let m = tx_buffer::live(scan::layers(pairs, layer, tx.pending, start, end));
    laws::scans_are_sorted(pairs, layer, tx.pending, start, end);
    let up = scan::in_direction(m, Direction::Forward);
    let n = up.len();
    let all = match direction {
        Direction::Forward => up,
        Direction::Backward => up.reverse(),
    };
    assert forall|i: int, j: int| 0 <= i < j < all.len() implies match direction {
        Direction::Forward => order::key_lt(all[i].0, all[j].0),
        Direction::Backward => order::key_lt(all[j].0, all[i].0),
    } by {
        if direction is Backward {
            assert(order::key_lt(up[n - 1 - j].0, up[n - 1 - i].0));
        }
    }
    assert forall|i: int| 0 <= i < all.len() implies order::in_range(
        (#[trigger] all[i]).0,
        start,
        end,
    ) && sees(tx, table, base, version, all[i].0) == Some(all[i].1) by {
        let at = if direction is Backward {
            n - 1 - i
        } else {
            i
        };
        assert(up[at] == all[i]);
        key_map::lemma_row(up, at);
        lemma_live_is_seen(tx, table, base, version, pairs, start, end, all[i].0);
    }
    assert forall|k: Seq<u8>|
        order::in_range(k, start, end) && sees(
            tx,
            table,
            base,
            version,
            k,
        ) is Some implies #[trigger] key_map::has_row(all, k) by {
        lemma_live_is_seen(tx, table, base, version, pairs, start, end, k);
        assert(key_map::row_map(up).contains_key(k));
        let j = choose|j: int| key_map::row_at(up, k, j);
        let i = if direction is Backward {
            n - 1 - j
        } else {
            j
        };
        assert(key_map::row_at(all, k, i));
    }
    all
}

/// A backward scan by count returns the highest keys that are left after the
/// highest `skip`: every row that it sees in the range and neither returns nor
/// leaves out at the high end lies below every row that it returns.
pub proof fn backward_pages_come_from_the_high_end(
    tx: TxView,
    table: Map<Seq<u8>, EntryView>,
    base: Map<Seq<u8>, Seq<u8>>,
    scanned: ScannedView,
    pairs: Seq<(Seq<u8>, Seq<u8>)>,
    start: Seq<u8>,
    end: Seq<u8>,
    n: u32,
    skip: u32,
    version: Option<u64>,
    all: Seq<(Seq<u8>, Seq<u8>)>,
    i: int,
    j: int,
)
    requires
        may_read(tx, version),
        yields(scanned, pairs),
        rows_in_range(pairs, base, start, end),
        lists_the_range(all, tx, table, base, version, start, end, Direction::Backward),
        skip + n <= i < all.len(),
    ensures
        ({
            let found = transaction::scan_outcome(
                tx,
                table,
                scanned,
                start,
                end,
                ScanLimit::Count(n),
                skip,
                version,
                Direction::Backward,
            )->Ok_0;
            &&& found.len() == n
            &&& 0 <= j < n ==> found[j] == all[skip + j] && order::key_lt(all[i].0, found[j].0)
        }),
{
    scan_returns_a_page_in_its_order(
        tx,
        table,
        base,
        scanned,
        pairs,
        start,
        end,
        ScanLimit::Count(n),
        skip,
        version,
        Direction::Backward,
        all,
    );
}

/// A scan for keys returns the keys of the rows that the same scan for rows
/// returns, one for each and in their order, and fails as it does.
pub proof fn key_scans_return_the_keys(
    found: Seq<(Seq<u8>, Seq<u8>)>,
    fault: ErrorView,
    i: int,
)
    requires
        0 <= i < found.len(),
    ensures
        transaction::keys_outcome(Ok(found)) matches Ok(keys) && keys.len() == found.len()
            && keys[i] == found[i].0,
        transaction::keys_outcome(Err(fault)) == Err::<Seq<Seq<u8>>, ErrorView>(fault),
{
}

/// A scan whose dataset fails returns that failure.
pub proof fn failed_scans_return_the_failure(
    tx: TxView,
    table: Map<Seq<u8>, EntryView>,
    fault: ErrorView,
    start: Seq<u8>,
    end: Seq<u8>,
    limit: ScanLimit,
    skip: u32,
    version: Option<u64>,
    direction: Direction,
)
    requires
        may_read(tx, version),
    ensures
        transaction::scan_outcome(
            tx,
            table,
            ScannedView::Failed(fault),
            start,
            end,
            limit,
            skip,
            version,
            direction,
        ) == Err::<Seq<(Seq<u8>, Seq<u8>)>, ErrorView>(fault),
{
}

/// Of several rows that the dataset returns for one key the last one counts,
/// and a key without a row has nothing.
pub proof fn the_last_row_of_a_key_counts(
    found: Seq<(Seq<u8>, Seq<u8>)>,
    i: int,
    k: Seq<u8>,
)
    ensures
        0 <= i < found.len() && (forall|j: int|
            i < j < found.len() ==> (#[trigger] found[j]).0 != found[i].0) ==> scan::pairs_map(
            found,
        ).contains_key(found[i].0) && scan::pairs_map(found)[found[i].0] == Some(found[i].1),
        (forall|j: int| 0 <= j < found.len() ==> (#[trigger] found[j]).0 != k) ==> !scan::pairs_map(
            found,
        ).contains_key(k),
    decreases found.len(),
{
    if found.len() > 0 {
        let rest = found.drop_last();
        the_last_row_of_a_key_counts(rest, i, k);
        if 0 <= i < rest.len() && forall|j: int|
            i < j < found.len() ==> (#[trigger] found[j]).0 != found[i].0 {
            assert forall|j: int| i < j < rest.len() implies (#[trigger] rest[j]).0
                != rest[i].0 by {
                assert(found[j].0 != found[i].0);
            }
            assert(found[found.len() - 1].0 != found[i].0);
        }
        if forall|j: int| 0 <= j < found.len() ==> (#[trigger] found[j]).0 != k {
            assert forall|j: int| 0 <= j < rest.len() implies (#[trigger] rest[j]).0 != k by {
                assert(found[j].0 != k);
            }
            assert(found[found.len() - 1].0 != k);
        }
    }
}

// Rows out of batches.

/// The batch has the binary column `name` with these values.
pub open spec fn has_binary(batch: Batch, name: Seq<char>, values: Seq<Seq<u8>>) -> bool {
    columns::batch_columns(batch).contains_key(name) && columns::batch_columns(batch)[name]
        == ColumnView::Binary(values)
}

/// A point read takes the value of the first row there is: batches without rows
/// are passed over, and without any row there is no value. A batch with rows
/// and without values is a fault.
pub proof fn point_reads_take_the_first_row(batches: Seq<Batch>, i: int, vals: Seq<Seq<u8>>)
    requires
        0 <= i <= batches.len(),
        forall|j: int| 0 <= j < i ==> columns::batch_rows(#[trigger] batches[j]) == 0,
        i < batches.len() ==> columns::batch_rows(batches[i]) > 0,
    ensures
        i == batches.len() ==> rows::first_val(batches) == Ok::<Option<Seq<u8>>, Seq<char>>(None),
        i < batches.len() && has_binary(batches[i], "val"@, vals) ==> rows::first_val(batches)
            == Ok::<Option<Seq<u8>>, Seq<char>>(Some(vals[0])),
        i < batches.len() && !columns::batch_columns(batches[i]).contains_key("val"@)
            ==> rows::first_val(batches) == Err::<Option<Seq<u8>>, Seq<char>>(
            "lance scan: missing val column"@,
        ),
        i < batches.len() && columns::batch_columns(batches[i]).contains_key("val"@)
            && !(columns::batch_columns(batches[i])["val"@] is Binary) ==> rows::first_val(batches)
            == Err::<Option<Seq<u8>>, Seq<char>>("lance scan: val column type mismatch"@),
    decreases batches.len(),
{
    if i > 0 {
        let rest = batches.drop_first();
        assert(columns::batch_rows(batches[0]) == 0);
        assert forall|j: int| 0 <= j < i - 1 implies columns::batch_rows(#[trigger] rest[j])
            == 0 by {
            assert(columns::batch_rows(batches[j + 1]) == 0);
        }
        point_reads_take_the_first_row(rest, i - 1, vals);
    }
}

/// The rows of one batch of a scan are its keys with its values, side by side.
pub proof fn a_batch_gives_its_rows(
    batch: Batch,
    keys: Seq<Seq<u8>>,
    vals: Seq<Seq<u8>>,
    i: int,
)
    requires
        has_binary(batch, "key"@, keys),
        has_binary(batch, "val"@, vals),
        0 <= i < keys.len(),
    ensures
        rows::scanned_pairs(seq![batch]) matches Ok(pairs) && pairs.len() == keys.len() && pairs[i]
            == (keys[i], vals[i]),
{
    let one = seq![batch];
    let f = |b: Batch| rows::pairs_of(b);
    assert(one.drop_last() =~= Seq::empty());
    assert(rows::gather(one.drop_last(), f) == Ok::<Seq<(Seq<u8>, Seq<u8>)>, Seq<char>>(
        Seq::empty(),
    ));
}

/// The rows of more batches follow those of the first ones.
pub proof fn batches_give_their_rows_in_order(
    a: Seq<Batch>,
    b: Seq<Batch>,
    x: Seq<(Seq<u8>, Seq<u8>)>,
    y: Seq<(Seq<u8>, Seq<u8>)>,
)
    requires
        rows::scanned_pairs(a) == Ok::<Seq<(Seq<u8>, Seq<u8>)>, Seq<char>>(x),
        rows::scanned_pairs(b) == Ok::<Seq<(Seq<u8>, Seq<u8>)>, Seq<char>>(y),
    ensures
        rows::scanned_pairs(a + b) == Ok::<Seq<(Seq<u8>, Seq<u8>)>, Seq<char>>(x + y),
{
    lemma_gather_joined(a, b, |b: Batch| rows::pairs_of(b));
}

proof fn lemma_gather_joined<R>(
    a: Seq<Batch>,
    b: Seq<Batch>,
    f: spec_fn(Batch) -> Result<Seq<R>, Seq<char>>,
)
    requires
        rows::gather(a, f) is Ok,
        rows::gather(b, f) is Ok,
    ensures
        rows::gather(a + b, f) == Ok::<Seq<R>, Seq<char>>(
            rows::gather(a, f)->Ok_0 + rows::gather(b, f)->Ok_0,
        ),
    decreases b.len(),
{
    if b.len() == 0 {
        assert(a + b =~= a);
        assert(rows::gather(a, f)->Ok_0 + rows::gather(b, f)->Ok_0 =~= rows::gather(a, f)->Ok_0);
    } else {
        assert((a + b).drop_last() =~= a + b.drop_last());
        lemma_gather_joined(a, b.drop_last(), f);
        assert(rows::gather(a + b, f)->Ok_0 =~= rows::gather(a, f)->Ok_0 + rows::gather(
            b,
            f,
        )->Ok_0);
    }
}

/// Which message says what is wrong with a column: one that is missing, and one
/// of another type. A column of the type asked for gives its values.
pub proof fn columns_give_their_values_or_a_message(
    batch: Batch,
    name: Seq<char>,
    missing: Seq<char>,
    mismatch: Seq<char>,
)
    ensures
        !columns::batch_columns(batch).contains_key(name) ==> {
            &&& columns::binary_of(batch, name, missing, mismatch) == Err::<
                Seq<Seq<u8>>,
                Seq<char>,
            >(missing)
            &&& columns::boolean_of(batch, name, missing, mismatch) == Err::<
                Seq<bool>,
                Seq<char>,
            >(missing)
            &&& columns::u64_of(batch, name, missing, mismatch) == Err::<Seq<u64>, Seq<char>>(
                missing,
            )
        },
        columns::batch_columns(batch).contains_key(name) ==> {
            let column = columns::batch_columns(batch)[name];
            &&& columns::binary_of(batch, name, missing, mismatch) == match column {
                ColumnView::Binary(v) => Ok::<Seq<Seq<u8>>, Seq<char>>(v),
                _ => Err(mismatch),
            }
            &&& columns::boolean_of(batch, name, missing, mismatch) == match column {
                ColumnView::Boolean(v) => Ok::<Seq<bool>, Seq<char>>(v),
                _ => Err(mismatch),
            }
            &&& columns::u64_of(batch, name, missing, mismatch) == match column {
                ColumnView::UInt64(v) => Ok::<Seq<u64>, Seq<char>>(v),
                _ => Err(mismatch),
            }
        },
{
}

/// The batch has these marks of deleted rows.
pub open spec fn has_marks(batch: Batch, marks: Seq<bool>) -> bool {
    columns::batch_columns(batch).contains_key("tombstone"@)
        && columns::batch_columns(batch)["tombstone"@] == ColumnView::Boolean(marks)
}

/// The batch has the column `name` of these numbers.
pub open spec fn has_numbers(batch: Batch, name: Seq<char>, numbers: Seq<u64>) -> bool {
    columns::batch_columns(batch).contains_key(name) && columns::batch_columns(batch)[name]
        == ColumnView::UInt64(numbers)
}

/// A view takes the value of the first row there is, unless the row is marked
/// as deleted: then there is none, whatever the row has for a value. Batches
/// without rows are passed over.
pub proof fn views_take_the_first_row(
    batches: Seq<Batch>,
    i: int,
    vals: Seq<Seq<u8>>,
    marks: Seq<bool>,
)
    requires
        0 <= i <= batches.len(),
        forall|j: int| 0 <= j < i ==> columns::batch_rows(#[trigger] batches[j]) == 0,
        i < batches.len() ==> columns::batch_rows(batches[i]) > 0,
    ensures
        i == batches.len() ==> rows::view_val(batches) == Ok::<Option<Seq<u8>>, Seq<char>>(None),
        i < batches.len() && has_marks(batches[i], marks) ==> {
            &&& marks[0] ==> rows::view_val(batches) == Ok::<Option<Seq<u8>>, Seq<char>>(None)
            &&& !marks[0] && has_binary(batches[i], "val"@, vals) ==> rows::view_val(batches)
                == Ok::<Option<Seq<u8>>, Seq<char>>(Some(vals[0]))
            &&& !marks[0] && !columns::batch_columns(batches[i]).contains_key("val"@)
                ==> rows::view_val(batches) == Err::<Option<Seq<u8>>, Seq<char>>(
                "lance timeline get: missing val"@,
            )
            &&& !marks[0] && columns::batch_columns(batches[i]).contains_key("val"@) && !(
            columns::batch_columns(batches[i])["val"@] is Binary) ==> rows::view_val(batches)
                == Err::<Option<Seq<u8>>, Seq<char>>("lance timeline get: val type mismatch"@)
        },
        i < batches.len() && columns::batch_columns(batches[i]).contains_key("tombstone"@) && !(
        columns::batch_columns(batches[i])["tombstone"@] is Boolean) ==> rows::view_val(batches)
            == Err::<Option<Seq<u8>>, Seq<char>>("lance timeline get: tombstone type mismatch"@),
        i < batches.len() && !columns::batch_columns(batches[i]).contains_key("tombstone"@)
            ==> rows::view_val(batches) == Err::<Option<Seq<u8>>, Seq<char>>(
            "lance timeline get: missing tombstone"@,
        ),
    decreases batches.len(),
{
    if i > 0 {
        let rest = batches.drop_first();
        assert(columns::batch_rows(batches[0]) == 0);
        assert forall|j: int| 0 <= j < i - 1 implies columns::batch_rows(#[trigger] rest[j])
            == 0 by {
            assert(columns::batch_rows(batches[j + 1]) == 0);
        }
        views_take_the_first_row(rest, i - 1, vals, marks);
    }
}

proof fn lemma_one<R>(batch: Batch, f: spec_fn(Batch) -> Result<Seq<R>, Seq<char>>)
    ensures
        rows::gather(seq![batch], f) == f(batch),
{
    let one = seq![batch];
    reveal_with_fuel(rows::gather, 2);
    assert(one.drop_last() =~= Seq::empty());
    if f(batch) is Ok {
        assert(Seq::<R>::empty() + f(batch)->Ok_0 =~= f(batch)->Ok_0);
    }
}

proof fn lemma_live_prefix(
    keys: Seq<Seq<u8>>,
    vals: Seq<Seq<u8>>,
    marks: Seq<bool>,
    k: Seq<u8>,
    v: Seq<u8>,
    mark: bool,
    n: nat,
)
    requires
        n <= keys.len(),
        keys.len() == vals.len(),
        keys.len() == marks.len(),
    ensures
        rows::live_prefix(keys.push(k), vals.push(v), marks.push(mark), n) == rows::live_prefix(
            keys,
            vals,
            marks,
            n,
        ),
    decreases n,
{
    if n > 0 {
        lemma_live_prefix(keys, vals, marks, k, v, mark, (n - 1) as nat);
    }
}

/// A view lists the rows of a batch that are not marked as deleted, in their
/// order: a batch with one row more gives that row too, behind the others,
/// unless it is marked; one without rows gives none.
pub proof fn views_list_the_rows_that_are_not_marked(
    batch: Batch,
    more: Batch,
    keys: Seq<Seq<u8>>,
    vals: Seq<Seq<u8>>,
    marks: Seq<bool>,
    k: Seq<u8>,
    v: Seq<u8>,
    mark: bool,
)
    requires
        keys.len() == vals.len(),
        keys.len() == marks.len(),
        has_binary(batch, "key"@, keys),
        has_binary(batch, "val"@, vals),
        has_marks(batch, marks),
        has_binary(more, "key"@, keys.push(k)),
        has_binary(more, "val"@, vals.push(v)),
        has_marks(more, marks.push(mark)),
    ensures
        rows::live_pairs(seq![batch]) matches Ok(few) && rows::live_pairs(seq![more]) matches Ok(
            all,
        ) && all == if mark {
            few
        } else {
            few.push((k, v))
        },
        keys.len() == 0 ==> (rows::live_pairs(seq![batch]) matches Ok(few) && few.len() == 0),
{
    let f = |b: Batch| rows::live_pairs_of(b);
    lemma_one(batch, f);
    lemma_one(more, f);
    lemma_live_prefix(keys, vals, marks, k, v, mark, keys.len());
    assert(keys.push(k).len() == keys.len() + 1);
}

/// The rows of more batches follow those of the first ones, in a view as in a
/// scan; so do version numbers and sequence numbers.
pub proof fn views_list_batches_in_order(a: Seq<Batch>, b: Seq<Batch>)
    ensures
        rows::live_pairs(a) is Ok && rows::live_pairs(b) is Ok ==> rows::live_pairs(a + b) == Ok::<
            Seq<(Seq<u8>, Seq<u8>)>,
            Seq<char>,
        >(rows::live_pairs(a)->Ok_0 + rows::live_pairs(b)->Ok_0),
        ({
            let f = |b: Batch| rows::versions_of(b);
            rows::gather(a, f) is Ok && rows::gather(b, f) is Ok ==> rows::gather(a + b, f) == Ok::<
                Seq<(Seq<u8>, u64)>,
                Seq<char>,
            >(rows::gather(a, f)->Ok_0 + rows::gather(b, f)->Ok_0)
        }),
        ({
            let f = |b: Batch| rows::marks_of(b);
            rows::gather(a, f) is Ok && rows::gather(b, f) is Ok ==> rows::gather(a + b, f) == Ok::<
                Seq<(Seq<u8>, (u64, bool))>,
                Seq<char>,
            >(rows::gather(a, f)->Ok_0 + rows::gather(b, f)->Ok_0)
        }),
{
    let f = |b: Batch| rows::live_pairs_of(b);
    if rows::gather(a, f) is Ok && rows::gather(b, f) is Ok {
        lemma_gather_joined(a, b, f);
    }
    let f = |b: Batch| rows::versions_of(b);
    if rows::gather(a, f) is Ok && rows::gather(b, f) is Ok {
        lemma_gather_joined(a, b, f);
    }
    let f = |b: Batch| rows::marks_of(b);
    if rows::gather(a, f) is Ok && rows::gather(b, f) is Ok {
        lemma_gather_joined(a, b, f);
    }
}

/// The version, the sequence number and the mark of each row stand beside its
/// key.
pub proof fn numbers_stand_beside_their_keys(
    batch: Batch,
    keys: Seq<Seq<u8>>,
    versions: Seq<u64>,
    seqs: Seq<u64>,
    marks: Seq<bool>,
    i: int,
)
    requires
        has_binary(batch, "key"@, keys),
        0 <= i < keys.len(),
        keys.len() == seqs.len(),
        keys.len() == marks.len(),
    ensures
        has_numbers(batch, "version"@, versions) ==> (rows::versions_of(batch) matches Ok(numbered)
            && numbered.len() == keys.len() && numbered[i] == (keys[i], versions[i])),
        has_numbers(batch, "seq"@, seqs) && has_marks(batch, marks) ==> (rows::marks_of(
            batch,
        ) matches Ok(numbered) && numbered.len() == keys.len() && numbered[i] == (
            keys[i],
            (seqs[i], marks[i]),
        )),
        has_numbers(batch, "seq"@, seqs) ==> rows::seqs_of(batch) == seqs,
        !columns::batch_columns(batch).contains_key("seq"@) ==> rows::seqs_of(batch).len() == 0,
{
}

/// Which column a scan for numbers misses: the keys first, then the numbers,
/// then the marks. A column of another type counts as missing.
pub proof fn numbers_need_their_columns(batch: Batch)
    ensures
        ({
            let columns = columns::batch_columns(batch);
            let keys = columns.contains_key("key"@) && columns["key"@] is Binary;
            let versions = columns.contains_key("version"@) && columns["version"@] is UInt64;
            let seqs = columns.contains_key("seq"@) && columns["seq"@] is UInt64;
            let marks = columns.contains_key("tombstone"@) && columns["tombstone"@] is Boolean;
            &&& !keys ==> rows::versions_of(batch) == Err::<Seq<(Seq<u8>, u64)>, Seq<char>>(
                "ver scan: key column"@,
            )
            &&& keys && !versions ==> rows::versions_of(batch) == Err::<
                Seq<(Seq<u8>, u64)>,
                Seq<char>,
            >("ver scan: version column"@)
            &&& !keys ==> rows::marks_of(batch) == Err::<Seq<(Seq<u8>, (u64, bool))>, Seq<char>>(
                "seq scan: key column"@,
            )
            &&& keys && !seqs ==> rows::marks_of(batch) == Err::<
                Seq<(Seq<u8>, (u64, bool))>,
                Seq<char>,
            >("seq scan: seq column"@)
            &&& keys && seqs && !marks ==> rows::marks_of(batch) == Err::<
                Seq<(Seq<u8>, (u64, bool))>,
                Seq<char>,
            >("seq scan: tombstone column"@)
        }),
{
}

/// A scan fails with what is wrong with the first batch that is: without keys,
/// then without values.
pub proof fn scans_report_the_first_fault(good: Seq<Batch>, bad: Batch, rest: Seq<Batch>)
    requires
        rows::scanned_pairs(good) is Ok,
    ensures
        !columns::batch_columns(bad).contains_key("key"@) ==> rows::scanned_pairs(
            good.push(bad) + rest,
        ) == Err::<Seq<(Seq<u8>, Seq<u8>)>, Seq<char>>("lance scan_impl: missing key column"@),
        columns::batch_columns(bad).contains_key("key"@) && !(columns::batch_columns(
            bad,
        )["key"@] is Binary) ==> rows::scanned_pairs(good.push(bad) + rest) == Err::<
            Seq<(Seq<u8>, Seq<u8>)>,
            Seq<char>,
        >("lance scan_impl: key column type mismatch"@),
        columns::batch_columns(bad).contains_key("key"@) && columns::batch_columns(
            bad,
        )["key"@] is Binary && !columns::batch_columns(bad).contains_key("val"@)
            ==> rows::scanned_pairs(good.push(bad) + rest) == Err::<
            Seq<(Seq<u8>, Seq<u8>)>,
            Seq<char>,
        >("lance scan_impl: missing val column"@),
        columns::batch_columns(bad).contains_key("key"@) && columns::batch_columns(
            bad,
        )["key"@] is Binary && columns::batch_columns(bad).contains_key("val"@) && !(
        columns::batch_columns(bad)["val"@] is Binary) ==> rows::scanned_pairs(
            good.push(bad) + rest,
        ) == Err::<Seq<(Seq<u8>, Seq<u8>)>, Seq<char>>("lance scan_impl: val column type mismatch"@),
{
    let f = |b: Batch| rows::pairs_of(b);
    if f(bad) is Err {
        lemma_gather_fault(good, bad, rest, f);
    }
}

/// A view that lists rows fails with what is wrong with the first batch that
/// is: without keys, then without values, then without marks.
pub proof fn views_report_the_first_fault(good: Seq<Batch>, bad: Batch, rest: Seq<Batch>)
    requires
        rows::live_pairs(good) is Ok,
    ensures
        ({
            let found = rows::live_pairs(good.push(bad) + rest);
            let columns = columns::batch_columns(bad);
            let keys = columns.contains_key("key"@) && columns["key"@] is Binary;
            let vals = columns.contains_key("val"@) && columns["val"@] is Binary;
            &&& !columns.contains_key("key"@) ==> found == Err::<
                Seq<(Seq<u8>, Seq<u8>)>,
                Seq<char>,
            >("lance timeline scan: missing key"@)
            &&& columns.contains_key("key"@) && !keys ==> found == Err::<
                Seq<(Seq<u8>, Seq<u8>)>,
                Seq<char>,
            >("lance timeline scan: key type mismatch"@)
            &&& keys && !columns.contains_key("val"@) ==> found == Err::<
                Seq<(Seq<u8>, Seq<u8>)>,
                Seq<char>,
            >("lance timeline scan: missing val"@)
            &&& keys && columns.contains_key("val"@) && !vals ==> found == Err::<
                Seq<(Seq<u8>, Seq<u8>)>,
                Seq<char>,
            >("lance timeline scan: val type mismatch"@)
            &&& keys && vals && !columns.contains_key("tombstone"@) ==> found == Err::<
                Seq<(Seq<u8>, Seq<u8>)>,
                Seq<char>,
            >("lance timeline scan: missing tombstone"@)
            &&& keys && vals && columns.contains_key("tombstone"@) && !(
            columns["tombstone"@] is Boolean) ==> found == Err::<
                Seq<(Seq<u8>, Seq<u8>)>,
                Seq<char>,
            >("lance timeline scan: tombstone type mismatch"@)
        }),
{
    let f = |b: Batch| rows::live_pairs_of(b);
    if f(bad) is Err {
        lemma_gather_fault(good, bad, rest, f);
    }
}

proof fn lemma_gather_fault<R>(
    good: Seq<Batch>,
    bad: Batch,
    rest: Seq<Batch>,
    f: spec_fn(Batch) -> Result<Seq<R>, Seq<char>>,
)
    requires
        rows::gather(good, f) is Ok,
        f(bad) is Err,
    ensures
        rows::gather(good.push(bad) + rest, f) == Err::<Seq<R>, Seq<char>>(f(bad)->Err_0),
    decreases rest.len(),
{
    let all = good.push(bad) + rest;
    if rest.len() == 0 {
        assert(all.drop_last() =~= good);
        assert(all.last() == bad);
    } else {
        assert(all.drop_last() =~= good.push(bad) + rest.drop_last());
        lemma_gather_fault(good, bad, rest.drop_last(), f);
    }
}

/// The largest sequence number of a dataset is one of its rows' and no row has
/// a larger one; a dataset without rows has 0.
pub proof fn the_largest_number_is_a_row_s(batches: Seq<Batch>)
    ensures
        rows::largest_seq(batches) > 0 ==> exists|b: int, i: int|
            0 <= b < batches.len() && 0 <= i < rows::seqs_of(#[trigger] batches[b]).len()
                && #[trigger] rows::seqs_of(batches[b])[i] == rows::largest_seq(batches),
        forall|b: int, i: int|
            0 <= b < batches.len() && 0 <= i < rows::seqs_of(#[trigger] batches[b]).len()
                ==> #[trigger] rows::seqs_of(batches[b])[i] <= rows::largest_seq(batches),
        (forall|b: int| 0 <= b < batches.len() ==> rows::seqs_of(#[trigger] batches[b]).len() == 0)
            ==> rows::largest_seq(batches) == 0,
    decreases batches.len(),
{
    assert forall|b: int, i: int|
        0 <= b < batches.len() && 0 <= i < rows::seqs_of(
            #[trigger] batches[b],
        ).len() implies #[trigger] rows::seqs_of(batches[b])[i] <= rows::largest_seq(batches) by {
        rows::largest_seq_bounds(batches, b, i);
    }
    if batches.len() > 0 {
        let rest = batches.drop_last();
        the_largest_number_is_a_row_s(rest);
        let floor = rows::largest_seq(rest);
        let last = rows::seqs_of(batches.last());
        lemma_largest_is_there(last, floor);
        let top = rows::largest(last, floor);
        if top > 0 {
            if top == floor {
                let (b, i) = choose|b: int, i: int|
                    0 <= b < rest.len() && 0 <= i < rows::seqs_of(#[trigger] rest[b]).len()
                        && #[trigger] rows::seqs_of(rest[b])[i] == floor;
                assert(rows::seqs_of(batches[b])[i] == top);
            } else {
                let i = choose|i: int| 0 <= i < last.len() && last[i] == top;
                assert(rows::seqs_of(batches[batches.len() - 1])[i] == top);
            }
        }
        if forall|b: int| 0 <= b < batches.len() ==> rows::seqs_of(#[trigger] batches[b]).len() == 0 {
            assert forall|b: int| 0 <= b < rest.len() implies rows::seqs_of(
                #[trigger] rest[b],
            ).len() == 0 by {
                assert(rest[b] == batches[b]);
            }
            assert(rows::seqs_of(batches[batches.len() - 1]).len() == 0);
        }
    }
}

proof fn lemma_largest_is_there(values: Seq<u64>, floor: u64)
    ensures
        rows::largest(values, floor) == floor || exists|i: int|
            0 <= i < values.len() && values[i] == rows::largest(values, floor),
    decreases values.len(),
{
    if values.len() > 0 {
        let rest = values.drop_last();
        lemma_largest_is_there(rest, floor);
        if rows::largest(values, floor) != values.last() && rows::largest(values, floor) != floor {
            let i = choose|i: int| 0 <= i < rest.len() && rest[i] == rows::largest(rest, floor);
            assert(values[i] == rows::largest(values, floor));
        } else if rows::largest(values, floor) == values.last() {
            assert(values[values.len() - 1] == rows::largest(values, floor));
        }
    }
}

} // verus!
