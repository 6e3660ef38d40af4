//! Rows out of the batches that a scan of the dataset yields.

use vstd::prelude::*;

use crate::kvs::err::{Error, ErrorView};
use crate::kvs::key_map;
use crate::kvs::lance::columns;
use crate::kvs::lance::columns::{binary_column, boolean_column, num_rows, read_column, u64_column};
use crate::kvs::lance::columns::{Batch, Column, ColumnView};
use crate::kvs::order;
use crate::kvs::order::{copy_bytes, Key, Val};

verus! {

/// The rows of all batches in order, or the message of the first batch that
/// cannot be read.
pub open spec fn gather<R>(
    batches: Seq<Batch>,
    rows_of: spec_fn(Batch) -> Result<Seq<R>, Seq<char>>,
) -> Result<Seq<R>, Seq<char>>
    decreases batches.len(),
{
    if batches.len() == 0 {
        Ok(Seq::empty())
    } else {
        match gather(batches.drop_last(), rows_of) {
            Err(m) => Err(m),
            Ok(rows) => match rows_of(batches.last()) {
                Err(m) => Err(m),
                Ok(more) => Ok(rows + more),
            },
        }
    }
}

proof fn lemma_gather_next<R>(
    batches: Seq<Batch>,
    i: int,
    rows_of: spec_fn(Batch) -> Result<Seq<R>, Seq<char>>,
)
    requires
        0 <= i < batches.len(),
        gather(batches.take(i), rows_of) is Ok,
    ensures
        gather(batches.take(i + 1), rows_of) == match rows_of(batches[i]) {
            Err(m) => Err::<Seq<R>, Seq<char>>(m),
            Ok(more) => Ok(gather(batches.take(i), rows_of)->Ok_0 + more),
        },
{
    assert(batches.take(i + 1).drop_last() =~= batches.take(i));
    assert(batches.take(i + 1).last() == batches[i]);
}

proof fn lemma_gather_stops<R>(
    batches: Seq<Batch>,
    i: int,
    rows_of: spec_fn(Batch) -> Result<Seq<R>, Seq<char>>,
)
    requires
        0 <= i <= batches.len(),
        gather(batches.take(i), rows_of) is Err,
    ensures
        gather(batches, rows_of) == gather(batches.take(i), rows_of),
    decreases batches.len() - i,
{
    if i == batches.len() {
        assert(batches.take(i) =~= batches);
    } else {
        assert(batches.take(i + 1).drop_last() =~= batches.take(i));
        lemma_gather_stops(batches, i + 1, rows_of);
    }
}

/// The first row of the first batch that has one, by its `val` column.
pub open spec fn first_val(batches: Seq<Batch>) -> Result<Option<Seq<u8>>, Seq<char>>
    decreases batches.len(),
{
    if batches.len() == 0 {
        Ok(None)
    } else if columns::batch_rows(batches[0]) == 0 {
        first_val(batches.drop_first())
    } else {
        match columns::binary_of(
            batches[0],
            "val"@,
            "lance scan: missing val column"@,
            "lance scan: val column type mismatch"@,
        ) {
            Ok(v) => Ok(Some(v[0])),
            Err(m) => Err(m),
        }
    }
}

/// The value that a point read finds.
pub fn first_value(batches: &Vec<Batch>) -> (found: Result<Option<Val>, Error>)
    ensures
        match found {
            Ok(Some(v)) => first_val(batches@) == Ok::<Option<Seq<u8>>, Seq<char>>(Some(v@)),
            Ok(None) => first_val(batches@) == Ok::<Option<Seq<u8>>, Seq<char>>(None),
            Err(e) => first_val(batches@) is Err && e@ == ErrorView::Datastore(
                first_val(batches@)->Err_0,
            ),
        },
{
    let mut i: usize = 0;
    proof {
        assert(batches@.skip(0) =~= batches@);
    }
    while i < batches.len()
        invariant
            i <= batches@.len(),
            first_val(batches@) == first_val(batches@.skip(i as int)),
        decreases batches@.len() - i,
    {
        proof {
            assert(batches@.skip(i as int)[0] == batches@[i as int]);
            assert(batches@.skip(i as int).drop_first() =~= batches@.skip(i + 1));
        }
        if num_rows(&batches[i]) > 0 {
            return match binary_column(
                &batches[i],
                "val",
                "lance scan: missing val column",
                "lance scan: val column type mismatch",
            ) {
                Ok(v) => Ok(Some(copy_bytes(&v[0]))),
                Err(e) => Err(e),
            };
        }
        i += 1;
    }
    Ok(None)
}

/// Two columns side by side.
pub open spec fn zipped<A, B>(a: Seq<A>, b: Seq<B>) -> Seq<(A, B)> {
    Seq::new(a.len(), |i: int| (a[i], b[i]))
}

/// The keys and values of a batch.
pub open spec fn pairs_of(batch: Batch) -> Result<Seq<(Seq<u8>, Seq<u8>)>, Seq<char>> {
    match columns::binary_of(
        batch,
        "key"@,
        "lance scan_impl: missing key column"@,
        "lance scan_impl: key column type mismatch"@,
    ) {
        Err(m) => Err(m),
        Ok(keys) => match columns::binary_of(
            batch,
            "val"@,
            "lance scan_impl: missing val column"@,
            "lance scan_impl: val column type mismatch"@,
        ) {
            Err(m) => Err(m),
            Ok(vals) => Ok(zipped(keys, vals)),
        },
    }
}

/// The keys and values of all batches.
pub open spec fn scanned_pairs(batches: Seq<Batch>) -> Result<
    Seq<(Seq<u8>, Seq<u8>)>,
    Seq<char>,
> {
    gather(batches, |b: Batch| pairs_of(b))
}

fn read_pairs(batch: &Batch) -> (pairs: Result<(Vec<Key>, Vec<Val>), Error>)
    ensures
        match pairs {
            Ok(p) => {
                &&& p.0@.len() == p.1@.len()
                &&& pairs_of(*batch) == Ok::<Seq<(Seq<u8>, Seq<u8>)>, Seq<char>>(
                    zipped(order::key_views(p.0@), order::key_views(p.1@)),
                )
            },
            Err(e) => pairs_of(*batch) is Err && e@ == ErrorView::Datastore(
                pairs_of(*batch)->Err_0,
            ),
        },
{
    let keys = match binary_column(
        batch,
        "key",
        "lance scan_impl: missing key column",
        "lance scan_impl: key column type mismatch",
    ) {
        Ok(v) => v,
        Err(e) => {
            return Err(e);
        },
    };
    match binary_column(
        batch,
        "val",
        "lance scan_impl: missing val column",
        "lance scan_impl: val column type mismatch",
    ) {
        Ok(vals) => Ok((keys, vals)),
        Err(e) => Err(e),
    }
}

/// The keys and values that a range scan yields, in its order.
pub fn scan_pairs(batches: &Vec<Batch>) -> (out: Result<Vec<(Key, Val)>, Error>)
    ensures
        match out {
            Ok(rows) => scanned_pairs(batches@) == Ok::<Seq<(Seq<u8>, Seq<u8>)>, Seq<char>>(
                order::pair_views(rows@),
            ),
            Err(e) => scanned_pairs(batches@) is Err && e@ == ErrorView::Datastore(
                scanned_pairs(batches@)->Err_0,
            ),
        },
{
    let ghost f = |b: Batch| pairs_of(b);
    let mut out: Vec<(Key, Val)> = Vec::new();
    let mut i: usize = 0;
    proof {
        assert(order::pair_views(out@) =~= Seq::empty());
    }
    while i < batches.len()
        invariant
            i <= batches@.len(),
            f == (|b: Batch| pairs_of(b)),
            gather(batches@.take(i as int), f) == Ok::<Seq<(Seq<u8>, Seq<u8>)>, Seq<char>>(
                order::pair_views(out@),
            ),
        decreases batches@.len() - i,
    {
        proof {
            lemma_gather_next(batches@, i as int, f);
        }
        let (keys, vals) = match read_pairs(&batches[i]) {
            Ok(p) => p,
            Err(e) => {
                proof {
                    lemma_gather_stops(batches@, i + 1, f);
                }
                return Err(e);
            },
        };
        let ghost before = order::pair_views(out@);
        let ghost more = zipped(order::key_views(keys@), order::key_views(vals@));
        let mut j: usize = 0;
        proof {
            assert(before + more.take(0) =~= before);
        }
        while j < keys.len()
            invariant
                j <= keys@.len(),
                keys@.len() == vals@.len(),
                more == zipped(order::key_views(keys@), order::key_views(vals@)),
                order::pair_views(out@) == before + more.take(j as int),
            decreases keys@.len() - j,
        {
            let ghost now = order::pair_views(out@);
            out.push((copy_bytes(&keys[j]), copy_bytes(&vals[j])));
            proof {
                assert(order::pair_views(out@) =~= now.push(more[j as int]));
                assert(before + more.take(j + 1) =~= (before + more.take(j as int)).push(
                    more[j as int],
                ));
            }
            j += 1;
        }
        proof {
            assert(more.take(keys@.len() as int) =~= more);
        }
        i += 1;
    }
    proof {
        assert(batches@.take(batches@.len() as int) =~= batches@);
    }
    Ok(out)
}

/// The first row of the first batch that has one, unless it marks a deletion.
pub open spec fn view_val(batches: Seq<Batch>) -> Result<Option<Seq<u8>>, Seq<char>>
    decreases batches.len(),
{
    if batches.len() == 0 {
        Ok(None)
    } else if columns::batch_rows(batches[0]) == 0 {
        view_val(batches.drop_first())
    } else {
        match columns::boolean_of(
            batches[0],
            "tombstone"@,
            "lance timeline get: missing tombstone"@,
            "lance timeline get: tombstone type mismatch"@,
        ) {
            Err(m) => Err(m),
            Ok(tombstones) => if tombstones[0] {
                Ok(None)
            } else {
                match columns::binary_of(
                    batches[0],
                    "val"@,
                    "lance timeline get: missing val"@,
                    "lance timeline get: val type mismatch"@,
                ) {
                    Err(m) => Err(m),
                    Ok(v) => Ok(Some(v[0])),
                }
            },
        }
    }
}

/// The value that a point read of a pinned version finds.
pub fn view_value(batches: &Vec<Batch>) -> (found: Result<Option<Val>, Error>)
    ensures
        match found {
            Ok(Some(v)) => view_val(batches@) == Ok::<Option<Seq<u8>>, Seq<char>>(Some(v@)),
            Ok(None) => view_val(batches@) == Ok::<Option<Seq<u8>>, Seq<char>>(None),
            Err(e) => view_val(batches@) is Err && e@ == ErrorView::Datastore(
                view_val(batches@)->Err_0,
            ),
        },
{
    let mut i: usize = 0;
    proof {
        assert(batches@.skip(0) =~= batches@);
    }
    while i < batches.len()
        invariant
            i <= batches@.len(),
            view_val(batches@) == view_val(batches@.skip(i as int)),
        decreases batches@.len() - i,
    {
        proof {
            assert(batches@.skip(i as int)[0] == batches@[i as int]);
            assert(batches@.skip(i as int).drop_first() =~= batches@.skip(i + 1));
        }
        if num_rows(&batches[i]) > 0 {
            let tombstones = match boolean_column(
                &batches[i],
                "tombstone",
                "lance timeline get: missing tombstone",
                "lance timeline get: tombstone type mismatch",
            ) {
                Ok(v) => v,
                Err(e) => {
                    return Err(e);
                },
            };
            if tombstones[0] {
                return Ok(None);
            }
            return match binary_column(
                &batches[i],
                "val",
                "lance timeline get: missing val",
                "lance timeline get: val type mismatch",
            ) {
                Ok(v) => Ok(Some(copy_bytes(&v[0]))),
                Err(e) => Err(e),
            };
        }
        i += 1;
    }
    Ok(None)
}

/// The first `n` rows, without those that mark a deletion.
pub open spec fn live_prefix(
    keys: Seq<Seq<u8>>,
    vals: Seq<Seq<u8>>,
    tombstones: Seq<bool>,
    n: nat,
) -> Seq<(Seq<u8>, Seq<u8>)>
    decreases n,
{
    if n == 0 {
        Seq::empty()
    } else {
        let rows = live_prefix(keys, vals, tombstones, (n - 1) as nat);
        if tombstones[n - 1] {
            rows
        } else {
            rows.push((keys[n - 1], vals[n - 1]))
        }
    }
}

/// The keys and values of the live rows of a batch.
pub open spec fn live_pairs_of(batch: Batch) -> Result<Seq<(Seq<u8>, Seq<u8>)>, Seq<char>> {
    match columns::binary_of(
        batch,
        "key"@,
        "lance timeline scan: missing key"@,
        "lance timeline scan: key type mismatch"@,
    ) {
        Err(m) => Err(m),
        Ok(keys) => match columns::binary_of(
            batch,
            "val"@,
            "lance timeline scan: missing val"@,
            "lance timeline scan: val type mismatch"@,
        ) {
            Err(m) => Err(m),
            Ok(vals) => match columns::boolean_of(
                batch,
                "tombstone"@,
                "lance timeline scan: missing tombstone"@,
                "lance timeline scan: tombstone type mismatch"@,
            ) {
                Err(m) => Err(m),
                Ok(tombstones) => Ok(live_prefix(keys, vals, tombstones, keys.len())),
            },
        },
    }
}

/// The live rows of all batches, in the order of the scan.
pub open spec fn live_pairs(batches: Seq<Batch>) -> Result<Seq<(Seq<u8>, Seq<u8>)>, Seq<char>> {
    gather(batches, |b: Batch| live_pairs_of(b))
}

fn read_live_pairs(batch: &Batch) -> (parts: Result<(Vec<Key>, Vec<Val>, Vec<bool>), Error>)
    ensures
        match parts {
            Ok(p) => {
                &&& p.0@.len() == p.1@.len()
                &&& p.0@.len() == p.2@.len()
                &&& live_pairs_of(*batch) == Ok::<Seq<(Seq<u8>, Seq<u8>)>, Seq<char>>(
                    live_prefix(
                        order::key_views(p.0@),
                        order::key_views(p.1@),
                        p.2@,
                        p.0@.len(),
                    ),
                )
            },
            Err(e) => live_pairs_of(*batch) is Err && e@ == ErrorView::Datastore(
                live_pairs_of(*batch)->Err_0,
            ),
        },
{
    let keys = match binary_column(
        batch,
        "key",
        "lance timeline scan: missing key",
        "lance timeline scan: key type mismatch",
    ) {
        Ok(v) => v,
        Err(e) => {
            return Err(e);
        },
    };
    let vals = match binary_column(
        batch,
        "val",
        "lance timeline scan: missing val",
        "lance timeline scan: val type mismatch",
    ) {
        Ok(v) => v,
        Err(e) => {
            return Err(e);
        },
    };
    match boolean_column(
        batch,
        "tombstone",
        "lance timeline scan: missing tombstone",
        "lance timeline scan: tombstone type mismatch",
    ) {
        Ok(tombstones) => Ok((keys, vals, tombstones)),
        Err(e) => Err(e),
    }
}

/// The live rows that a scan of a pinned version yields, in its order.
pub fn live_scan(batches: &Vec<Batch>) -> (out: Result<Vec<(Key, Val)>, Error>)
    ensures
        match out {
            Ok(rows) => live_pairs(batches@) == Ok::<Seq<(Seq<u8>, Seq<u8>)>, Seq<char>>(
                order::pair_views(rows@),
            ),
            Err(e) => live_pairs(batches@) is Err && e@ == ErrorView::Datastore(
                live_pairs(batches@)->Err_0,
            ),
        },
{
    let ghost f = |b: Batch| live_pairs_of(b);
    let mut out: Vec<(Key, Val)> = Vec::new();
    let mut i: usize = 0;
    proof {
        assert(order::pair_views(out@) =~= Seq::empty());
    }
    while i < batches.len()
        invariant
            i <= batches@.len(),
            f == (|b: Batch| live_pairs_of(b)),
            gather(batches@.take(i as int), f) == Ok::<Seq<(Seq<u8>, Seq<u8>)>, Seq<char>>(
                order::pair_views(out@),
            ),
        decreases batches@.len() - i,
    {
        proof {
            lemma_gather_next(batches@, i as int, f);
        }
        let (keys, vals, tombstones) = match read_live_pairs(&batches[i]) {
            Ok(p) => p,
            Err(e) => {
                proof {
                    lemma_gather_stops(batches@, i + 1, f);
                }
                return Err(e);
            },
        };
        let ghost before = order::pair_views(out@);
        let ghost ks = order::key_views(keys@);
        let ghost vs = order::key_views(vals@);
        let mut j: usize = 0;
        proof {
            assert(before + live_prefix(ks, vs, tombstones@, 0) =~= before);
        }
        while j < keys.len()
            invariant
                j <= keys@.len(),
                keys@.len() == vals@.len(),
                keys@.len() == tombstones@.len(),
                ks == order::key_views(keys@),
                vs == order::key_views(vals@),
                order::pair_views(out@) == before + live_prefix(ks, vs, tombstones@, j as nat),
            decreases keys@.len() - j,
        {
            if !tombstones[j] {
                let ghost now = order::pair_views(out@);
                out.push((copy_bytes(&keys[j]), copy_bytes(&vals[j])));
                proof {
                    assert(order::pair_views(out@) =~= now.push((ks[j as int], vs[j as int])));
                    assert(now.push((ks[j as int], vs[j as int])) =~= before + live_prefix(
                        ks,
                        vs,
                        tombstones@,
                        (j + 1) as nat,
                    ));
                }
            }
            j += 1;
        }
        i += 1;
    }
    proof {
        assert(batches@.take(batches@.len() as int) =~= batches@);
    }
    Ok(out)
}

/// The rows of the batches of a point read: the value of each, and whether it
/// marks a deletion.
pub open spec fn marked_rows(batches: Seq<Batch>) -> Result<Seq<(Seq<u8>, bool)>, Seq<char>>
    decreases batches.len(),
{
    if batches.len() == 0 {
        Ok(Seq::empty())
    } else if columns::batch_rows(batches[0]) == 0 {
        marked_rows(batches.drop_first())
    } else {
        match columns::boolean_of(
            batches[0],
            "tombstone"@,
            "lance timeline get: missing tombstone"@,
            "lance timeline get: tombstone type mismatch"@,
        ) {
            Err(m) => Err(m),
            Ok(tombstones) => match columns::binary_of(
                batches[0],
                "val"@,
                "lance timeline get: missing val"@,
                "lance timeline get: val type mismatch"@,
            ) {
                Err(m) => Err(m),
                Ok(vals) => match marked_rows(batches.drop_first()) {
                    Err(m) => Err(m),
                    Ok(more) => Ok(
                        Seq::new(
                            columns::batch_rows(batches[0]),
                            |i: int| (vals[i], tombstones[i]),
                        ) + more,
                    ),
                },
            },
        }
    }
}

/// A point read finds the value of the first row, unless it marks a deletion.
pub proof fn lemma_view_val(batches: Seq<Batch>)
    requires
        marked_rows(batches) is Ok,
    ensures
        view_val(batches) == Ok::<Option<Seq<u8>>, Seq<char>>(
            if marked_rows(batches)->Ok_0.len() == 0 || marked_rows(batches)->Ok_0[0].1 {
                None
            } else {
                Some(marked_rows(batches)->Ok_0[0].0)
            },
        ),
    decreases batches.len(),
{
    if batches.len() > 0 && columns::batch_rows(batches[0]) == 0 {
        lemma_view_val(batches.drop_first());
    }
}

/// The rows of a batch of a scan: the key of each, its value, and whether it
/// marks a deletion.
pub open spec fn stored_of(batch: Batch) -> Result<Seq<(Seq<u8>, (Seq<u8>, bool))>, Seq<char>> {
    match columns::binary_of(
        batch,
        "key"@,
        "lance timeline scan: missing key"@,
        "lance timeline scan: key type mismatch"@,
    ) {
        Err(m) => Err(m),
        Ok(keys) => match columns::binary_of(
            batch,
            "val"@,
            "lance timeline scan: missing val"@,
            "lance timeline scan: val type mismatch"@,
        ) {
            Err(m) => Err(m),
            Ok(vals) => match columns::boolean_of(
                batch,
                "tombstone"@,
                "lance timeline scan: missing tombstone"@,
                "lance timeline scan: tombstone type mismatch"@,
            ) {
                Err(m) => Err(m),
                Ok(tombstones) => Ok(
                    Seq::new(keys.len(), |i: int| (keys[i], (vals[i], tombstones[i]))),
                ),
            },
        },
    }
}

/// The rows of the batches of a scan.
pub open spec fn stored_rows(batches: Seq<Batch>) -> Result<
    Seq<(Seq<u8>, (Seq<u8>, bool))>,
    Seq<char>,
> {
    gather(batches, |b: Batch| stored_of(b))
}

/// The rows that mark no deletion, in their order.
pub open spec fn unmarked(rows: Seq<(Seq<u8>, (Seq<u8>, bool))>) -> Seq<(Seq<u8>, Seq<u8>)>
    decreases rows.len(),
{
    if rows.len() == 0 {
        Seq::empty()
    } else if rows.last().1.1 {
        unmarked(rows.drop_last())
    } else {
        unmarked(rows.drop_last()).push((rows.last().0, rows.last().1.0))
    }
}

proof fn lemma_unmarked_joined(
    a: Seq<(Seq<u8>, (Seq<u8>, bool))>,
    b: Seq<(Seq<u8>, (Seq<u8>, bool))>,
)
    ensures
        unmarked(a + b) == unmarked(a) + unmarked(b),
    decreases b.len(),
{
    if b.len() == 0 {
        assert(a + b =~= a);
        assert(unmarked(a) + unmarked(b) =~= unmarked(a));
    } else {
        lemma_unmarked_joined(a, b.drop_last());
        assert((a + b).drop_last() =~= a + b.drop_last());
        assert(unmarked(a + b) =~= unmarked(a) + unmarked(b));
    }
}

proof fn lemma_unmarked_prefix(
    keys: Seq<Seq<u8>>,
    vals: Seq<Seq<u8>>,
    tombstones: Seq<bool>,
    n: nat,
)
    ensures
        live_prefix(keys, vals, tombstones, n) == unmarked(
            Seq::new(n, |i: int| (keys[i], (vals[i], tombstones[i]))),
        ),
    decreases n,
{
    let rows = Seq::new(n, |i: int| (keys[i], (vals[i], tombstones[i])));
    if n > 0 {
        let m = (n - 1) as nat;
        lemma_unmarked_prefix(keys, vals, tombstones, m);
        assert(rows.drop_last() =~= Seq::new(m, |i: int| (keys[i], (vals[i], tombstones[i]))));
    }
}

/// The live rows of a scan are its rows without those that mark a deletion.
pub proof fn lemma_live_pairs(batches: Seq<Batch>)
    requires
        stored_rows(batches) is Ok,
    ensures
        live_pairs(batches) == Ok::<Seq<(Seq<u8>, Seq<u8>)>, Seq<char>>(
            unmarked(stored_rows(batches)->Ok_0),
        ),
    decreases batches.len(),
{
    let f = |b: Batch| live_pairs_of(b);
    let g = |b: Batch| stored_of(b);
    if batches.len() > 0 {
        let rest = batches.drop_last();
        assert(stored_rows(rest) == gather(rest, g));
        assert(live_pairs(rest) == gather(rest, f));
        lemma_live_pairs(rest);
        let stored = stored_of(batches.last())->Ok_0;
        lemma_unmarked_joined(stored_rows(rest)->Ok_0, stored);
        let c = columns::batch_columns(batches.last());
        let keys = c["key"@]->Binary_0;
        let vals = c["val"@]->Binary_0;
        let tombstones = c["tombstone"@]->Boolean_0;
        lemma_unmarked_prefix(keys, vals, tombstones, keys.len());
    }
}

/// The values of the keys whose row marks no deletion.
pub open spec fn shown(m: Map<Seq<u8>, (Seq<u8>, bool)>) -> Map<Seq<u8>, Seq<u8>> {
    Map::new(|k: Seq<u8>| m.contains_key(k) && !m[k].1, |k: Seq<u8>| m[k].0)
}

/// Rows that hold each key of `m` once hold, without the deletions, each key
/// once that is shown.
pub proof fn lemma_unmarked_each_once(
    rows: Seq<(Seq<u8>, (Seq<u8>, bool))>,
    m: Map<Seq<u8>, (Seq<u8>, bool)>,
)
    requires
        key_map::holds_each_once(rows, m),
    ensures
        key_map::holds_each_once(unmarked(rows), shown(m)),
    decreases rows.len(),
{
    if rows.len() == 0 {
        assert forall|k: Seq<u8>| shown(m).contains_key(k) implies #[trigger] key_map::has_row(
            unmarked(rows),
            k,
        ) by {
            assert(key_map::has_row(rows, k));
        }
    } else {
        key_map::lemma_each_once_pop(rows, m);
        let k = rows.last().0;
        let rest = m.remove(k);
        lemma_unmarked_each_once(rows.drop_last(), rest);
        if rows.last().1.1 {
            assert(shown(m) =~= shown(rest));
        } else {
            key_map::lemma_each_once_push(
                unmarked(rows.drop_last()),
                shown(rest),
                k,
                rows.last().1.0,
            );
            assert(shown(m) =~= shown(rest).insert(k, rows.last().1.0));
        }
    }
}

/// The largest of the values, and of `floor`.
pub open spec fn largest(values: Seq<u64>, floor: u64) -> u64
    decreases values.len(),
{
    if values.len() == 0 {
        floor
    } else {
        let rest = largest(values.drop_last(), floor);
        if values.last() > rest {
            values.last()
        } else {
            rest
        }
    }
}

/// The `seq` values of a batch; none where it has no such integer column.
pub open spec fn seqs_of(batch: Batch) -> Seq<u64> {
    if columns::batch_columns(batch).contains_key("seq"@) {
        match columns::batch_columns(batch)["seq"@] {
            ColumnView::UInt64(v) => v,
            _ => Seq::empty(),
        }
    } else {
        Seq::empty()
    }
}

/// The largest `seq` value in the batches, 0 where there is none.
pub open spec fn largest_seq(batches: Seq<Batch>) -> u64
    decreases batches.len(),
{
    if batches.len() == 0 {
        0
    } else {
        largest(seqs_of(batches.last()), largest_seq(batches.drop_last()))
    }
}

/// Nothing in a column exceeds its largest value.
pub proof fn largest_bounds(values: Seq<u64>, floor: u64)
    ensures
        largest(values, floor) >= floor,
        forall|i: int| 0 <= i < values.len() ==> values[i] <= largest(values, floor),
    decreases values.len(),
{
    if values.len() > 0 {
        largest_bounds(values.drop_last(), floor);
        assert forall|i: int| 0 <= i < values.len() implies values[i] <= largest(values, floor) by {
            if i < values.len() - 1 {
                assert(values.drop_last()[i] == values[i]);
            }
        }
    }
}

/// No persisted row has a sequence number above the largest.
pub proof fn largest_seq_bounds(batches: Seq<Batch>, b: int, i: int)
    requires
        0 <= b < batches.len(),
        0 <= i < seqs_of(batches[b]).len(),
    ensures
        seqs_of(batches[b])[i] <= largest_seq(batches),
    decreases batches.len(),
{
    largest_bounds(seqs_of(batches.last()), largest_seq(batches.drop_last()));
    if b < batches.len() - 1 {
        assert(batches.drop_last()[b] == batches[b]);
        largest_seq_bounds(batches.drop_last(), b, i);
    }
}

/// The largest `seq` value that a scan of the dataset yields.
pub fn max_seq(batches: &Vec<Batch>) -> (max: u64)
    ensures
        max == largest_seq(batches@),
{
    let mut max: u64 = 0;
    let mut i: usize = 0;
    while i < batches.len()
        invariant
            i <= batches@.len(),
            max == largest_seq(batches@.take(i as int)),
        decreases batches@.len() - i,
    {
        let ghost floor = max;
        let ghost values = seqs_of(batches@[i as int]);
        proof {
            assert(batches@.take(i + 1).drop_last() =~= batches@.take(i as int));
            assert(batches@.take(i + 1).last() == batches@[i as int]);
        }
        match read_column(&batches[i], "seq") {
            Some(Column::UInt64(v)) => {
                let mut j: usize = 0;
                proof {
                    assert(values.take(0) =~= Seq::empty());
                }
                while j < v.len()
                    invariant
                        j <= v@.len(),
                        v@ == values,
                        max == largest(values.take(j as int), floor),
                    decreases v@.len() - j,
                {
                    proof {
                        assert(values.take(j + 1).drop_last() =~= values.take(j as int));
                        assert(values.take(j + 1).last() == values[j as int]);
                    }
                    if v[j] > max {
                        max = v[j];
                    }
                    j += 1;
                }
                proof {
                    assert(values.take(values.len() as int) =~= values);
                }
            },
            _ => {},
        }
        i += 1;
    }
    proof {
        assert(batches@.take(batches@.len() as int) =~= batches@);
    }
    max
}

/// The keys and versions of a batch.
pub open spec fn versions_of(batch: Batch) -> Result<Seq<(Seq<u8>, u64)>, Seq<char>> {
    match columns::binary_of(batch, "key"@, "ver scan: key column"@, "ver scan: key column"@) {
        Err(m) => Err(m),
        Ok(keys) => match columns::u64_of(
            batch,
            "version"@,
            "ver scan: version column"@,
            "ver scan: version column"@,
        ) {
            Err(m) => Err(m),
            Ok(versions) => Ok(zipped(keys, versions)),
        },
    }
}

/// The view of rows of a key and a number.
pub open spec fn number_views(rows: Seq<(Vec<u8>, u64)>) -> Seq<(Seq<u8>, u64)> {
    Seq::new(rows.len(), |i: int| (rows[i].0@, rows[i].1))
}

/// The key and the `version` of every row, deletion marks among them.
pub fn scan_versions(batches: &Vec<Batch>) -> (out: Result<Vec<(Key, u64)>, Error>)
    ensures
        match out {
            Ok(rows) => gather(batches@, |b: Batch| versions_of(b)) == Ok::<
                Seq<(Seq<u8>, u64)>,
                Seq<char>,
            >(number_views(rows@)),
            Err(e) => gather(batches@, |b: Batch| versions_of(b)) is Err && e@
                == ErrorView::Datastore(gather(batches@, |b: Batch| versions_of(b))->Err_0),
        },
{
    let ghost f = |b: Batch| versions_of(b);
    let mut out: Vec<(Key, u64)> = Vec::new();
    let mut i: usize = 0;
    proof {
        assert(number_views(out@) =~= Seq::empty());
    }
    while i < batches.len()
        invariant
            i <= batches@.len(),
            f == (|b: Batch| versions_of(b)),
            gather(batches@.take(i as int), f) == Ok::<Seq<(Seq<u8>, u64)>, Seq<char>>(
                number_views(out@),
            ),
        decreases batches@.len() - i,
    {
        proof {
            lemma_gather_next(batches@, i as int, f);
        }
        let keys = match binary_column(
            &batches[i],
            "key",
            "ver scan: key column",
            "ver scan: key column",
        ) {
            Ok(v) => v,
            Err(e) => {
                proof {
                    lemma_gather_stops(batches@, i + 1, f);
                }
                return Err(e);
            },
        };
        let versions = match u64_column(
            &batches[i],
            "version",
            "ver scan: version column",
            "ver scan: version column",
        ) {
            Ok(v) => v,
            Err(e) => {
                proof {
                    lemma_gather_stops(batches@, i + 1, f);
                }
                return Err(e);
            },
        };
        let ghost before = number_views(out@);
        let ghost more = zipped(order::key_views(keys@), versions@);
        let mut j: usize = 0;
        proof {
            assert(before + more.take(0) =~= before);
        }
        while j < keys.len()
            invariant
                j <= keys@.len(),
                keys@.len() == versions@.len(),
                more == zipped(order::key_views(keys@), versions@),
                number_views(out@) == before + more.take(j as int),
            decreases keys@.len() - j,
        {
            let ghost now = number_views(out@);
            out.push((copy_bytes(&keys[j]), versions[j]));
            proof {
                assert(number_views(out@) =~= now.push(more[j as int]));
                assert(before + more.take(j + 1) =~= (before + more.take(j as int)).push(
                    more[j as int],
                ));
            }
            j += 1;
        }
        proof {
            assert(more.take(keys@.len() as int) =~= more);
        }
        i += 1;
    }
    proof {
        assert(batches@.take(batches@.len() as int) =~= batches@);
    }
    Ok(out)
}

/// The keys, sequence numbers and deletion marks of a batch.
pub open spec fn marks_of(batch: Batch) -> Result<Seq<(Seq<u8>, (u64, bool))>, Seq<char>> {
    match columns::binary_of(batch, "key"@, "seq scan: key column"@, "seq scan: key column"@) {
        Err(m) => Err(m),
        Ok(keys) => match columns::u64_of(
            batch,
            "seq"@,
            "seq scan: seq column"@,
            "seq scan: seq column"@,
        ) {
            Err(m) => Err(m),
            Ok(seqs) => match columns::boolean_of(
                batch,
                "tombstone"@,
                "seq scan: tombstone column"@,
                "seq scan: tombstone column"@,
            ) {
                Err(m) => Err(m),
                Ok(tombstones) => Ok(zipped(keys, zipped(seqs, tombstones))),
            },
        },
    }
}

/// The view of rows of a key, a number and a mark.
pub open spec fn mark_views(rows: Seq<(Vec<u8>, u64, bool)>) -> Seq<(Seq<u8>, (u64, bool))> {
    Seq::new(rows.len(), |i: int| (rows[i].0@, (rows[i].1, rows[i].2)))
}

/// The key, the `seq` and the deletion mark of every row.
pub fn scan_seqs(batches: &Vec<Batch>) -> (out: Result<Vec<(Key, u64, bool)>, Error>)
    ensures
        match out {
            Ok(rows) => gather(batches@, |b: Batch| marks_of(b)) == Ok::<
                Seq<(Seq<u8>, (u64, bool))>,
                Seq<char>,
            >(mark_views(rows@)),
            Err(e) => gather(batches@, |b: Batch| marks_of(b)) is Err && e@
                == ErrorView::Datastore(gather(batches@, |b: Batch| marks_of(b))->Err_0),
        },
{
    let ghost f = |b: Batch| marks_of(b);
    let mut out: Vec<(Key, u64, bool)> = Vec::new();
    let mut i: usize = 0;
    proof {
        assert(mark_views(out@) =~= Seq::empty());
    }
    while i < batches.len()
        invariant
            i <= batches@.len(),
            f == (|b: Batch| marks_of(b)),
            gather(batches@.take(i as int), f) == Ok::<Seq<(Seq<u8>, (u64, bool))>, Seq<char>>(
                mark_views(out@),
            ),
        decreases batches@.len() - i,
    {
        proof {
            lemma_gather_next(batches@, i as int, f);
        }
        let keys = match binary_column(
            &batches[i],
            "key",
            "seq scan: key column",
            "seq scan: key column",
        ) {
            Ok(v) => v,
            Err(e) => {
                proof {
                    lemma_gather_stops(batches@, i + 1, f);
                }
                return Err(e);
            },
        };
        let seqs = match u64_column(
            &batches[i],
            "seq",
            "seq scan: seq column",
            "seq scan: seq column",
        ) {
            Ok(v) => v,
            Err(e) => {
                proof {
                    lemma_gather_stops(batches@, i + 1, f);
                }
                return Err(e);
            },
        };
        let tombstones = match boolean_column(
            &batches[i],
            "tombstone",
            "seq scan: tombstone column",
            "seq scan: tombstone column",
        ) {
            Ok(v) => v,
            Err(e) => {
                proof {
                    lemma_gather_stops(batches@, i + 1, f);
                }
                return Err(e);
            },
        };
        let ghost before = mark_views(out@);
        let ghost more = zipped(order::key_views(keys@), zipped(seqs@, tombstones@));
        let mut j: usize = 0;
        proof {
            assert(before + more.take(0) =~= before);
        }
        while j < keys.len()
            invariant
                j <= keys@.len(),
                keys@.len() == seqs@.len(),
                keys@.len() == tombstones@.len(),
                more == zipped(order::key_views(keys@), zipped(seqs@, tombstones@)),
                mark_views(out@) == before + more.take(j as int),
            decreases keys@.len() - j,
        {
            let ghost now = mark_views(out@);
            out.push((copy_bytes(&keys[j]), seqs[j], tombstones[j]));
            proof {
                assert(mark_views(out@) =~= now.push(more[j as int]));
                assert(before + more.take(j + 1) =~= (before + more.take(j as int)).push(
                    more[j as int],
                ));
            }
            j += 1;
        }
        proof {
            assert(more.take(keys@.len() as int) =~= more);
        }
        i += 1;
    }
    proof {
        assert(batches@.take(batches@.len() as int) =~= batches@);
    }
    Ok(out)
}

} // verus!
