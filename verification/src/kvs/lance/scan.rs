//! What a range scan returns: the layers of the store over each other, in key
//! order, cut to the requested page.

use std::ops::Range;

use vstd::prelude::*;

use crate::kvs::api::{Direction, ScanLimit};
use crate::kvs::key_map;
use crate::kvs::key_map::KeyMap;
use crate::kvs::lance::memtable;
use crate::kvs::lance::memtable::{EntryView, MemtableEntry, Op};
use crate::kvs::lance::tx_buffer;
use crate::kvs::lance::tx_buffer::{live_rows, PendingBuffer, PendingEntry};
use crate::kvs::order;
use crate::kvs::order::{copy_bytes, key_in_range, Key, Val};

verus! {

/// The values of the rows; of two rows of one key, the later one counts.
pub open spec fn pairs_map(rows: Seq<(Seq<u8>, Seq<u8>)>) -> Map<Seq<u8>, Option<Seq<u8>>>
    decreases rows.len(),
{
    if rows.len() == 0 {
        Map::empty()
    } else {
        pairs_map(rows.drop_last()).insert(rows.last().0, Some(rows.last().1))
    }
}

/// The entries whose keys lie between `start` and `end`.
pub open spec fn between(
    m: Map<Seq<u8>, Option<Seq<u8>>>,
    start: Seq<u8>,
    end: Seq<u8>,
) -> Map<Seq<u8>, Option<Seq<u8>>> {
    m.restrict(Set::new(|k: Seq<u8>| order::in_range(k, start, end)))
}

/// The value or the tombstone of each key of the write buffer.
pub open spec fn table_values(m: Map<Seq<u8>, EntryView>) -> Map<Seq<u8>, Option<Seq<u8>>> {
    Map::new(|k: Seq<u8>| m.contains_key(k), |k: Seq<u8>| m[k].value)
}

/// The dataset's rows, over them the write buffer, over both what the
/// transaction has pending; each layer hides the ones below.
pub open spec fn layers(
    rows: Seq<(Seq<u8>, Seq<u8>)>,
    table: Map<Seq<u8>, Option<Seq<u8>>>,
    pending: Map<Seq<u8>, Option<Seq<u8>>>,
    start: Seq<u8>,
    end: Seq<u8>,
) -> Map<Seq<u8>, Option<Seq<u8>>> {
    pairs_map(rows).union_prefer_right(between(table, start, end)).union_prefer_right(
        between(pending, start, end),
    )
}

/// The live rows in the order of the scan.
pub open spec fn in_direction(
    m: Map<Seq<u8>, Seq<u8>>,
    direction: Direction,
) -> Seq<(Seq<u8>, Seq<u8>)> {
    match direction {
        Direction::Forward => key_map::listing(m),
        Direction::Backward => key_map::listing(m).reverse(),
    }
}

/// The bytes of the keys and values of rows.
pub open spec fn row_bytes(rows: Seq<(Seq<u8>, Seq<u8>)>) -> nat
    decreases rows.len(),
{
    if rows.len() == 0 {
        0
    } else {
        row_bytes(rows.drop_last()) + rows.last().0.len() + rows.last().1.len()
    }
}

/// The rows are as many as the limit lets pass.
pub open spec fn reaches(rows: Seq<(Seq<u8>, Seq<u8>)>, limit: ScanLimit) -> bool {
    match limit {
        ScanLimit::Count(n) => rows.len() >= n,
        ScanLimit::Bytes(b) => row_bytes(rows) >= b,
        ScanLimit::BytesOrCount(b, n) => rows.len() >= n || row_bytes(rows) >= b,
    }
}

/// The length of the shortest prefix of at least `i` rows that reaches the
/// limit; all rows where none does.
pub open spec fn shortest_reaching(
    rows: Seq<(Seq<u8>, Seq<u8>)>,
    limit: ScanLimit,
    i: int,
) -> int
    decreases rows.len() - i,
{
    if i >= rows.len() {
        rows.len() as int
    } else if reaches(rows.take(i), limit) {
        i
    } else {
        shortest_reaching(rows, limit, i + 1)
    }
}

/// The rows from the start that the limit lets pass. A limit in bytes lets at
/// least one row pass.
pub open spec fn limited(
    rows: Seq<(Seq<u8>, Seq<u8>)>,
    limit: ScanLimit,
) -> Seq<(Seq<u8>, Seq<u8>)> {
    match limit {
        ScanLimit::Count(n) => rows.take(shortest_reaching(rows, limit, 0)),
        _ => rows.take(shortest_reaching(rows, limit, 1)),
    }
}

/// The rows without the first `skip`, cut by the limit.
pub open spec fn page(
    rows: Seq<(Seq<u8>, Seq<u8>)>,
    skip: u32,
    limit: ScanLimit,
) -> Seq<(Seq<u8>, Seq<u8>)> {
    limited(
        rows.skip(
            if skip as int <= rows.len() {
                skip as int
            } else {
                rows.len() as int
            },
        ),
        limit,
    )
}

/// What a scan returns for these layers.
pub open spec fn scan_result(
    rows: Seq<(Seq<u8>, Seq<u8>)>,
    table: Map<Seq<u8>, Option<Seq<u8>>>,
    pending: Map<Seq<u8>, Option<Seq<u8>>>,
    start: Seq<u8>,
    end: Seq<u8>,
    limit: ScanLimit,
    skip: u32,
    direction: Direction,
) -> Seq<(Seq<u8>, Seq<u8>)> {
    page(
        in_direction(tx_buffer::live(layers(rows, table, pending, start, end)), direction),
        skip,
        limit,
    )
}

proof fn lemma_count_stops(rows: Seq<(Seq<u8>, Seq<u8>)>, n: u32, i: int)
    requires
        0 <= i <= n,
    ensures
        shortest_reaching(rows, ScanLimit::Count(n), i) == (if n as int <= rows.len() {
            n as int
        } else {
            rows.len() as int
        }),
    decreases rows.len() - i,
{
    if i < rows.len() && i < n {
        lemma_count_stops(rows, n, i + 1);
    }
}

/// A limit by count lets exactly the first `n` rows pass, or all if there are
/// fewer.
pub proof fn count_limit_is_take(rows: Seq<(Seq<u8>, Seq<u8>)>, n: u32)
    ensures
        limited(rows, ScanLimit::Count(n)) == rows.take(
            if n as int <= rows.len() {
                n as int
            } else {
                rows.len() as int
            },
        ),
{
    lemma_count_stops(rows, n, 0);
}

proof fn lemma_stop_range(rows: Seq<(Seq<u8>, Seq<u8>)>, limit: ScanLimit, i: int)
    requires
        0 <= i,
    ensures
        shortest_reaching(rows, limit, i) <= rows.len(),
        i <= rows.len() ==> shortest_reaching(rows, limit, i) >= i,
        forall|j: int|
            i <= j < shortest_reaching(rows, limit, i) ==> !reaches(#[trigger] rows.take(j), limit),
        shortest_reaching(rows, limit, i) < rows.len() ==> reaches(
            rows.take(shortest_reaching(rows, limit, i)),
            limit,
        ),
    decreases rows.len() - i,
{
    if i < rows.len() && !reaches(rows.take(i), limit) {
        lemma_stop_range(rows, limit, i + 1);
    }
}

/// A limit in bytes lets a first row pass however small it is, stops at the
/// first row that reaches it, and lets all rows pass that do not reach it.
pub proof fn byte_limit_passes_at_least(rows: Seq<(Seq<u8>, Seq<u8>)>, limit: ScanLimit)
    requires
        !(limit is Count),
        rows.len() > 0,
    ensures
        1 <= limited(rows, limit).len() <= rows.len(),
        limited(rows, limit) == rows.take(limited(rows, limit).len() as int),
        limited(rows, limit).len() < rows.len() ==> reaches(limited(rows, limit), limit),
        forall|j: int|
            1 <= j < limited(rows, limit).len() ==> !reaches(#[trigger] rows.take(j), limit),
{
    lemma_stop_range(rows, limit, 1);
}

/// Cuts the rows to the page.
pub fn apply_page(rows: Vec<(Key, Val)>, skip: u32, limit: ScanLimit) -> (out: Vec<(Key, Val)>)
    ensures
        order::pair_views(out@) == page(order::pair_views(rows@), skip, limit),
{
    let ghost all = order::pair_views(rows@);
    let mut head = rows;
    let at: usize = if skip as usize <= head.len() {
        skip as usize
    } else {
        head.len()
    };
    let mut tail = head.split_off(at);
    let ghost views = all.skip(at as int);
    proof {
        assert(order::pair_views(tail@) =~= views);
    }
    match limit {
        ScanLimit::Count(n) => {
            proof {
                count_limit_is_take(views, n);
            }
            if (n as usize) < tail.len() {
                tail.truncate(n as usize);
            }
            proof {
                assert(order::pair_views(tail@) =~= limited(views, limit));
            }
        },
        ScanLimit::Bytes(b) => {
            let stop: usize = stop_at(&tail, b, None);
            proof {
                lemma_same_stop(views, b, None, limit, 1);
            }
            tail.truncate(stop);
            proof {
                assert(order::pair_views(tail@) =~= limited(views, limit));
            }
        },
        ScanLimit::BytesOrCount(b, n) => {
            let stop: usize = stop_at(&tail, b, Some(n));
            proof {
                lemma_same_stop(views, b, Some(n), limit, 1);
            }
            tail.truncate(stop);
            proof {
                assert(order::pair_views(tail@) =~= limited(views, limit));
            }
        },
    }
    tail
}

/// The limit in bytes, with a count where there is one.
spec fn byte_limit(b: u32, n: Option<u32>) -> ScanLimit {
    match n {
        Some(n) => ScanLimit::BytesOrCount(b, n),
        None => ScanLimit::Bytes(b),
    }
}

proof fn lemma_same_stop(
    rows: Seq<(Seq<u8>, Seq<u8>)>,
    b: u32,
    n: Option<u32>,
    limit: ScanLimit,
    i: int,
)
    requires
        limit == byte_limit(b, n),
    ensures
        shortest_reaching(rows, byte_limit(b, n), i) == shortest_reaching(rows, limit, i),
        0 <= i ==> 0 <= shortest_reaching(rows, limit, i) <= rows.len(),
{
    if 0 <= i {
        lemma_stop_range(rows, limit, i);
    }
}

/// How many rows pass a limit in bytes.
fn stop_at(rows: &Vec<(Key, Val)>, b: u32, n: Option<u32>) -> (stop: usize)
    ensures
        stop == shortest_reaching(order::pair_views(rows@), byte_limit(b, n), 1),
{
    let ghost views = order::pair_views(rows@);
    let ghost limit = byte_limit(b, n);
    let mut total: usize = 0;
    let mut i: usize = 0;
    proof {
        assert(views.take(0) =~= Seq::empty());
    }
    while i < rows.len()
        invariant
            i <= rows@.len(),
            views == order::pair_views(rows@),
            limit == byte_limit(b, n),
            total as nat == (if row_bytes(views.take(i as int)) <= usize::MAX {
                row_bytes(views.take(i as int))
            } else {
                usize::MAX as nat
            }),
            shortest_reaching(views, limit, 1) == shortest_reaching(
                views,
                limit,
                if i == 0 {
                    1
                } else {
                    i as int
                },
            ),
            i > 0 ==> !reaches(views.take(i as int), limit),
        decreases rows@.len() - i,
    {
        proof {
            assert(views.take(i + 1).drop_last() =~= views.take(i as int));
            assert(views.take(i + 1).last() == views[i as int]);
        }
        total = total.saturating_add(rows[i].0.len());
        total = total.saturating_add(rows[i].1.len());
        i += 1;
        let counted: bool = match n {
            Some(n) => i >= n as usize,
            None => false,
        };
        if counted || total >= b as usize {
            proof {
                assert(reaches(views.take(i as int), limit));
                assert(shortest_reaching(views, limit, i as int) == i);
            }
            return i;
        }
    }
    i
}

/// Turns the rows around.
fn reversed(rows: Vec<(Key, Val)>) -> (out: Vec<(Key, Val)>)
    ensures
        out@ == rows@.reverse(),
{
    let ghost all = rows@;
    let mut rest = rows;
    let mut out: Vec<(Key, Val)> = Vec::new();
    while rest.len() > 0
        invariant
            rest@ == all.take(rest@.len() as int),
            rest@.len() <= all.len(),
            out@.len() + rest@.len() == all.len(),
            forall|i: int| 0 <= i < out@.len() ==> out@[i] == all[all.len() - 1 - i],
        decreases rest.len(),
    {
        match rest.pop() {
            Some(row) => {
                out.push(row);
            },
            None => {},
        }
    }
    proof {
        assert(out@ =~= all.reverse());
    }
    out
}

fn lay_rows(rows: Vec<(Key, Val)>) -> (merged: KeyMap<PendingEntry>)
    ensures
        merged.wf(),
        merged@ == pairs_map(order::pair_views(rows@)),
{
    let ghost views = order::pair_views(rows@);
    let mut merged: KeyMap<PendingEntry> = KeyMap::new();
    let mut i: usize = 0;
    while i < rows.len()
        invariant
            i <= rows@.len(),
            views == order::pair_views(rows@),
            merged.wf(),
            merged@ == pairs_map(views.take(i as int)),
        decreases rows@.len() - i,
    {
        proof {
            assert(views.take(i + 1).drop_last() =~= views.take(i as int));
            assert(views.take(i + 1).last() == views[i as int]);
        }
        merged.insert(copy_bytes(&rows[i].0), PendingEntry::Write(copy_bytes(&rows[i].1)));
        i += 1;
    }
    proof {
        assert(views.take(views.len() as int) =~= views);
    }
    merged
}

fn lay_table(merged: &mut KeyMap<PendingEntry>, entries: Vec<(Key, MemtableEntry)>, Ghost(table): Ghost<
    Map<Seq<u8>, EntryView>,
>)
    requires
        old(merged).wf(),
        key_map::holds_each_once(memtable::entry_views(entries@), table),
    ensures
        final(merged).wf(),
        final(merged)@ == old(merged)@.union_prefer_right(table_values(table)),
{
    let ghost base = merged@;
    let ghost mut left: Map<Seq<u8>, EntryView> = table;
    let mut rest = entries;
    let ghost values = table_values(table);
    proof {
        assert(base.union_prefer_right(values.remove_keys(left.dom())) =~= base);
    }
    while rest.len() > 0
        invariant
            merged.wf(),
            values == table_values(table),
            left.submap_of(table),
            key_map::holds_each_once(memtable::entry_views(rest@), left),
            merged@ == base.union_prefer_right(values.remove_keys(left.dom())),
        decreases rest.len(),
    {
        let ghost rest_before = memtable::entry_views(rest@);
        let ghost left_before = left;
        match rest.pop() {
            Some((k, e)) => {
                let ghost key = k@;
                let ghost value = e@.value;
                proof {
                    assert(rest_before.last() == (k@, e@));
                    key_map::lemma_each_once_pop(rest_before, left_before);
                    assert(memtable::entry_views(rest@) =~= rest_before.drop_last());
                    left = left_before.remove(key);
                }
                match e.op {
                    Op::Write(v) => {
                        merged.insert(k, PendingEntry::Write(v));
                    },
                    Op::Delete => {
                        merged.insert(k, PendingEntry::Delete);
                    },
                }
                proof {
                    assert(merged@ =~= base.union_prefer_right(values.remove_keys(left.dom())));
                }
            },
            None => {},
        }
    }
    proof {
        key_map::lemma_each_once_len(memtable::entry_views(rest@), left);
        assert(left.dom() =~= Set::empty());
        assert(values.remove_keys(left.dom()) =~= values);
    }
}

fn lay_pending(merged: &mut KeyMap<PendingEntry>, pending: &PendingBuffer, rng: &Range<Key>)
    requires
        old(merged).wf(),
    ensures
        final(merged).wf(),
        final(merged)@ == old(merged)@.union_prefer_right(
            between(pending@, rng.start@, rng.end@),
        ),
        pending@.dom().finite(),
{
    let ghost base = merged@;
    let entries = pending.iter();
    let ghost rows = Seq::new(entries@.len(), |i: int| (entries@[i].0@, entries@[i].1@));
    let mut i: usize = 0;
    proof {
        key_map::lemma_listing_len(rows);
        assert(base.union_prefer_right(
            between(key_map::row_map(rows.take(0)), rng.start@, rng.end@),
        ) =~= base);
    }
    while i < entries.len()
        invariant
            i <= entries@.len(),
            rows == Seq::new(entries@.len(), |i: int| (entries@[i].0@, entries@[i].1@)),
            key_map::ascending(rows),
            merged.wf(),
            merged@ == base.union_prefer_right(
                between(key_map::row_map(rows.take(i as int)), rng.start@, rng.end@),
            ),
        decreases entries@.len() - i,
    {
        proof {
            key_map::lemma_take_next(rows, i as int);
        }
        let ghost seen = key_map::row_map(rows.take(i as int));
        let ghost next = key_map::row_map(rows.take(i + 1));
        let row = entries[i];
        if key_in_range(row.0, &rng.start, &rng.end) {
            merged.insert(copy_bytes(row.0), row.1.clone());
            proof {
                assert(between(next, rng.start@, rng.end@) =~= between(
                    seen,
                    rng.start@,
                    rng.end@,
                ).insert(rows[i as int].0, rows[i as int].1));
                assert(merged@ =~= base.union_prefer_right(
                    between(next, rng.start@, rng.end@),
                ));
            }
        } else {
            proof {
                assert(between(next, rng.start@, rng.end@) =~= between(
                    seen,
                    rng.start@,
                    rng.end@,
                ));
            }
        }
        i += 1;
    }
    proof {
        assert(rows.take(rows.len() as int) =~= rows);
    }
}

/// Lays the write buffer's entries and the pending ones over the dataset's
/// rows, and returns the requested page of what is live. `table` holds the
/// entries that `entries` lists.
pub(crate) fn merge_layers(
    rows: Vec<(Key, Val)>,
    entries: Vec<(Key, MemtableEntry)>,
    Ghost(table): Ghost<Map<Seq<u8>, EntryView>>,
    pending: &PendingBuffer,
    rng: &Range<Key>,
    limit: ScanLimit,
    skip: u32,
    direction: Direction,
) -> (out: Vec<(Key, Val)>)
    requires
        key_map::holds_each_once(
            memtable::entry_views(entries@),
            memtable::rows_between(table, rng.start@, rng.end@),
        ),
    ensures
        order::pair_views(out@) == scan_result(
            order::pair_views(rows@),
            table_values(table),
            pending@,
            rng.start@,
            rng.end@,
            limit,
            skip,
            direction,
        ),
        pending@.dom().finite(),
{
    let ghost inside = memtable::rows_between(table, rng.start@, rng.end@);
    let ghost base = order::pair_views(rows@);
    let mut merged = lay_rows(rows);
    lay_table(&mut merged, entries, Ghost(inside));
    lay_pending(&mut merged, pending, rng);
    proof {
        assert(table_values(inside) =~= between(table_values(table), rng.start@, rng.end@));
    }
    let combined = live_rows(&merged);
    proof {
        key_map::lemma_listing(order::pair_views(combined@), tx_buffer::live(merged@));
    }
    let ordered = match direction {
        Direction::Forward => combined,
        Direction::Backward => {
            let turned = reversed(combined);
            proof {
                assert(order::pair_views(turned@) =~= order::pair_views(combined@).reverse());
            }
            turned
        },
    };
    apply_page(ordered, skip, limit)
}

} // verus!
