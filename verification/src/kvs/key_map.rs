//! An ordered map from binary keys.

use vstd::prelude::*;

use crate::kvs::order;
use crate::kvs::order::{compare_keys, Side};

verus! {

/// The rows stand in strictly ascending key order.
pub open spec fn ascending<V>(rows: Seq<(Seq<u8>, V)>) -> bool {
    forall|i: int, j: int| 0 <= i < j < rows.len() ==> order::key_lt(rows[i].0, rows[j].0)
}

/// Row `i` has the key `k`.
pub open spec fn row_at<V>(rows: Seq<(Seq<u8>, V)>, k: Seq<u8>, i: int) -> bool {
    0 <= i < rows.len() && rows[i].0 == k
}

/// Some row has the key `k`.
pub open spec fn has_row<V>(rows: Seq<(Seq<u8>, V)>, k: Seq<u8>) -> bool {
    exists|i: int| row_at(rows, k, i)
}

/// What the rows say of each key.
pub open spec fn row_map<V>(rows: Seq<(Seq<u8>, V)>) -> Map<Seq<u8>, V> {
    Map::new(|k: Seq<u8>| has_row(rows, k), |k: Seq<u8>| rows[choose|i: int| row_at(rows, k, i)].1)
}

/// `rows` is the contents of `m`, each key once, in ascending order.
pub open spec fn lists<V>(rows: Seq<(Seq<u8>, V)>, m: Map<Seq<u8>, V>) -> bool {
    ascending(rows) && row_map(rows) == m
}

/// The contents of `m` in ascending key order.
pub open spec fn listing<V>(m: Map<Seq<u8>, V>) -> Seq<(Seq<u8>, V)> {
    choose|rows: Seq<(Seq<u8>, V)>| lists(rows, m)
}

/// Rows that list a map stand in strictly ascending key order, each says of its
/// key what the map says, and every key of the map has a row.
pub proof fn listed_rows_are_the_map<V>(rows: Seq<(Seq<u8>, V)>, m: Map<Seq<u8>, V>, i: int)
    requires
        lists(rows, m),
        0 <= i < rows.len(),
    ensures
        m.contains_key(rows[i].0),
        m[rows[i].0] == rows[i].1,
        forall|j: int| i < j < rows.len() ==> order::key_lt(rows[i].0, (#[trigger] rows[j]).0),
        forall|k: Seq<u8>| #[trigger]
            m.contains_key(k) ==> exists|j: int| 0 <= j < rows.len() && rows[j].0 == k,
{
    lemma_row(rows, i);
    assert forall|k: Seq<u8>| #[trigger] m.contains_key(k) implies exists|j: int|
        0 <= j < rows.len() && rows[j].0 == k by {
        assert(row_map(rows).contains_key(k));
        let j = choose|j: int| row_at(rows, k, j);
        assert(rows[j].0 == k);
    }
}

/// `keys` is the set `s`, each key once, in ascending order.
pub open spec fn lists_keys(keys: Seq<Seq<u8>>, s: Set<Seq<u8>>) -> bool {
    &&& forall|i: int, j: int| 0 <= i < j < keys.len() ==> order::key_lt(keys[i], keys[j])
    &&& forall|k: Seq<u8>| s.contains(k) <==> keys.contains(k)
}

/// The map of rows has each of them.
pub proof fn lemma_row<V>(rows: Seq<(Seq<u8>, V)>, i: int)
    requires
        ascending(rows),
        0 <= i < rows.len(),
    ensures
        row_map(rows).contains_key(rows[i].0),
        row_map(rows)[rows[i].0] == rows[i].1,
{
    let k = rows[i].0;
    assert(row_at(rows, k, i));
    let j = choose|j: int| row_at(rows, k, j);
    if j != i {
        order::key_lt_irreflexive(k);
    }
}

/// A map has at most one listing.
pub proof fn listing_unique<V>(a: Seq<(Seq<u8>, V)>, b: Seq<(Seq<u8>, V)>)
    requires
        ascending(a),
        ascending(b),
        row_map(a) == row_map(b),
    ensures
        a == b,
    decreases a.len(),
{
    if a.len() == 0 {
        if b.len() > 0 {
            lemma_row(b, 0);
            assert(has_row(a, b[0].0));
        }
        assert(a =~= b);
    } else {
        lemma_row(a, 0);
        assert(has_row(b, a[0].0));
        let j = choose|j: int| row_at(b, a[0].0, j);
        lemma_row(b, 0);
        assert(has_row(a, b[0].0));
        let i = choose|i: int| row_at(a, b[0].0, i);
        if j != 0 {
            if i != 0 {
                order::key_lt_asymmetric(a[0].0, a[i].0);
            } else {
                order::key_lt_irreflexive(a[0].0);
            }
        }
        assert(a[0] == b[0]);
        lemma_tail(a);
        lemma_tail(b);
        listing_unique(a.drop_first(), b.drop_first());
        assert(a =~= seq![a[0]] + a.drop_first());
        assert(b =~= seq![b[0]] + b.drop_first());
    }
}

proof fn lemma_tail<V>(rows: Seq<(Seq<u8>, V)>)
    requires
        ascending(rows),
        rows.len() > 0,
    ensures
        ascending(rows.drop_first()),
        row_map(rows.drop_first()) == row_map(rows).remove(rows[0].0),
{
    let tail = rows.drop_first();
    assert forall|i: int, j: int| 0 <= i < j < tail.len() implies order::key_lt(
        tail[i].0,
        tail[j].0,
    ) by {
        assert(order::key_lt(rows[i + 1].0, rows[j + 1].0));
    }
    assert forall|k: Seq<u8>| #[trigger]
        row_map(tail).contains_key(k) == row_map(rows).remove(rows[0].0).contains_key(k) by {
        if has_row(tail, k) {
            let i = choose|i: int| row_at(tail, k, i);
            assert(row_at(rows, k, i + 1));
            assert(order::key_lt(rows[0].0, rows[i + 1].0));
            order::key_lt_irreflexive(k);
        }
        if row_map(rows).remove(rows[0].0).contains_key(k) {
            let i = choose|i: int| row_at(rows, k, i);
            assert(row_at(tail, k, i - 1));
        }
    }
    assert forall|k: Seq<u8>| row_map(tail).contains_key(k) implies #[trigger] row_map(tail)[k]
        == row_map(rows)[k] by {
        let i = choose|i: int| row_at(tail, k, i);
        lemma_row(tail, i);
        lemma_row(rows, i + 1);
    }
    assert(row_map(tail) =~= row_map(rows).remove(rows[0].0));
}

/// A listing is the listing.
pub proof fn lemma_listing<V>(rows: Seq<(Seq<u8>, V)>, m: Map<Seq<u8>, V>)
    requires
        lists(rows, m),
    ensures
        listing(m) == rows,
{
    listing_unique(listing(m), rows);
}

/// The rows before `place` have smaller keys than `k`, those from it on larger
/// ones.
spec fn goes_at<V>(rows: Seq<(Seq<u8>, V)>, k: Seq<u8>, place: int) -> bool {
    &&& 0 <= place <= rows.len()
    &&& forall|i: int| 0 <= i < place ==> order::key_lt(rows[i].0, k)
    &&& forall|i: int| place <= i < rows.len() ==> order::key_lt(k, rows[i].0)
}

/// Where a new key goes among sorted rows.
proof fn lemma_place<V>(rows: Seq<(Seq<u8>, V)>, k: Seq<u8>, at: int)
    requires
        ascending(rows),
        !has_row(rows, k),
        0 <= at <= rows.len(),
        forall|i: int| 0 <= i < at ==> order::key_lt(rows[i].0, k),
    ensures
        exists|place: int| goes_at(rows, k, place),
    decreases rows.len() - at,
{
    if at < rows.len() {
        order::key_lt_total(rows[at].0, k);
        if rows[at].0 == k {
            assert(row_at(rows, k, at));
        } else if order::key_lt(rows[at].0, k) {
            lemma_place(rows, k, at + 1);
        } else {
            assert forall|i: int| at <= i < rows.len() implies order::key_lt(k, rows[i].0) by {
                if i > at {
                    order::key_lt_transitive(k, rows[at].0, rows[i].0);
                }
            }
            assert(goes_at(rows, k, at));
        }
    } else {
        assert(goes_at(rows, k, at));
    }
}

/// Every finite map has a listing.
pub proof fn listing_exists<V>(m: Map<Seq<u8>, V>)
    requires
        m.dom().finite(),
    ensures
        lists(listing(m), m),
    decreases m.len(),
{
    if m.len() == 0 {
        let none = Seq::<(Seq<u8>, V)>::empty();
        assert(m.dom() =~= Set::empty());
        assert(row_map(none) =~= m);
        assert(lists(none, m));
    } else {
        let k = m.dom().choose();
        let rest = m.remove(k);
        listing_exists(rest);
        let rows = listing(rest);
        if has_row(rows, k) {
            assert(row_map(rows).contains_key(k));
        }
        lemma_place(rows, k, 0);
        let place = choose|place: int| goes_at(rows, k, place);
        lemma_insert_row(rows, place, k, m[k]);
        assert(rest.insert(k, m[k]) =~= m);
        assert(lists(rows.insert(place, (k, m[k])), m));
    }
}

/// Replacing the value of row `i`.
proof fn lemma_overwrite<V>(rows: Seq<(Seq<u8>, V)>, i: int, v: V)
    requires
        ascending(rows),
        0 <= i < rows.len(),
    ensures
        ascending(rows.update(i, (rows[i].0, v))),
        row_map(rows.update(i, (rows[i].0, v))) == row_map(rows).insert(rows[i].0, v),
{
    let key = rows[i].0;
    let new = rows.update(i, (key, v));
    assert(ascending(new));
    assert forall|k: Seq<u8>| #[trigger] row_map(new).contains_key(k) == row_map(rows).insert(
        key,
        v,
    ).contains_key(k) by {
        if has_row(new, k) {
            let j = choose|j: int| row_at(new, k, j);
            assert(row_at(rows, k, j));
        }
        if has_row(rows, k) {
            let j = choose|j: int| row_at(rows, k, j);
            assert(row_at(new, k, j));
        }
        assert(row_at(new, key, i));
    }
    assert forall|k: Seq<u8>| row_map(new).contains_key(k) implies #[trigger] row_map(new)[k]
        == row_map(rows).insert(key, v)[k] by {
        let j = choose|j: int| row_at(new, k, j);
        lemma_row(new, j);
        lemma_row(rows, j);
        if j != i {
            if j < i {
                assert(order::key_lt(rows[j].0, rows[i].0));
            } else {
                assert(order::key_lt(rows[i].0, rows[j].0));
            }
            order::key_lt_irreflexive(key);
        }
    }
    assert(row_map(new) =~= row_map(rows).insert(key, v));
}

/// Putting a new row between its neighbours.
pub proof fn lemma_insert_row<V>(rows: Seq<(Seq<u8>, V)>, at: int, k: Seq<u8>, v: V)
    requires
        ascending(rows),
        0 <= at <= rows.len(),
        forall|i: int| 0 <= i < at ==> order::key_lt(rows[i].0, k),
        forall|i: int| at <= i < rows.len() ==> order::key_lt(k, rows[i].0),
    ensures
        ascending(rows.insert(at, (k, v))),
        row_map(rows.insert(at, (k, v))) == row_map(rows).insert(k, v),
        !row_map(rows).contains_key(k),
{
    let new = rows.insert(at, (k, v));
    assert(ascending(new));
    if has_row(rows, k) {
        let i = choose|i: int| row_at(rows, k, i);
        order::key_lt_irreflexive(k);
    }
    assert forall|q: Seq<u8>| #[trigger] row_map(new).contains_key(q) == row_map(rows).insert(
        k,
        v,
    ).contains_key(q) by {
        if has_row(new, q) {
            let j = choose|j: int| row_at(new, q, j);
            if j < at {
                assert(row_at(rows, q, j));
            } else if j > at {
                assert(row_at(rows, q, j - 1));
            }
        }
        if has_row(rows, q) {
            let j = choose|j: int| row_at(rows, q, j);
            if j < at {
                assert(row_at(new, q, j));
            } else {
                assert(row_at(new, q, j + 1));
            }
        }
        assert(row_at(new, k, at));
    }
    assert forall|q: Seq<u8>| row_map(new).contains_key(q) implies #[trigger] row_map(new)[q]
        == row_map(rows).insert(k, v)[q] by {
        let j = choose|j: int| row_at(new, q, j);
        lemma_row(new, j);
        if j < at {
            lemma_row(rows, j);
            order::key_lt_irreflexive(k);
        } else if j > at {
            lemma_row(rows, j - 1);
            order::key_lt_irreflexive(k);
        }
    }
    assert(row_map(new) =~= row_map(rows).insert(k, v));
}

/// Putting a new row behind all others.
pub proof fn lemma_push_row<V>(rows: Seq<(Seq<u8>, V)>, k: Seq<u8>, v: V)
    requires
        ascending(rows),
        forall|i: int| 0 <= i < rows.len() ==> order::key_lt(rows[i].0, k),
    ensures
        ascending(rows.push((k, v))),
        row_map(rows.push((k, v))) == row_map(rows).insert(k, v),
        !row_map(rows).contains_key(k),
{
    lemma_insert_row(rows, rows.len() as int, k, v);
    assert(rows.insert(rows.len() as int, (k, v)) =~= rows.push((k, v)));
}

/// The rows before row `i` together with row `i`.
pub proof fn lemma_take_next<V>(rows: Seq<(Seq<u8>, V)>, i: int)
    requires
        ascending(rows),
        0 <= i < rows.len(),
    ensures
        ascending(rows.take(i)),
        ascending(rows.take(i + 1)),
        row_map(rows.take(i + 1)) == row_map(rows.take(i)).insert(rows[i].0, rows[i].1),
        !row_map(rows.take(i)).contains_key(rows[i].0),
        forall|k: Seq<u8>| #[trigger]
            row_map(rows.take(i)).contains_key(k) ==> order::key_lt(k, rows[i].0),
{
    assert forall|a: int, b: int| 0 <= a < b < i implies order::key_lt(
        rows.take(i)[a].0,
        rows.take(i)[b].0,
    ) by {
        assert(order::key_lt(rows[a].0, rows[b].0));
    }
    lemma_push_row(rows.take(i), rows[i].0, rows[i].1);
    assert(rows.take(i).push(rows[i]) =~= rows.take(i + 1));
    assert forall|k: Seq<u8>| #[trigger]
        row_map(rows.take(i)).contains_key(k) implies order::key_lt(k, rows[i].0) by {
        let j = choose|j: int| row_at(rows.take(i), k, j);
        assert(order::key_lt(rows[j].0, rows[i].0));
    }
}

/// A map has as many keys as its listing has rows.
pub proof fn lemma_listing_len<V>(rows: Seq<(Seq<u8>, V)>)
    requires
        ascending(rows),
    ensures
        row_map(rows).dom().finite(),
        row_map(rows).len() == rows.len(),
    decreases rows.len(),
{
    if rows.len() == 0 {
        assert(row_map(rows).dom() =~= Set::empty());
    } else {
        lemma_tail(rows);
        lemma_listing_len(rows.drop_first());
        lemma_row(rows, 0);
        let k = rows[0].0;
        assert(row_map(rows).remove(k).insert(k, rows[0].1) =~= row_map(rows));
    }
}

/// `rows` is the contents of `m`, each key once, in any order.
pub open spec fn holds_each_once<V>(rows: Seq<(Seq<u8>, V)>, m: Map<Seq<u8>, V>) -> bool {
    &&& forall|i: int, j: int| 0 <= i < j < rows.len() ==> rows[i].0 != rows[j].0
    &&& forall|i: int|
        0 <= i < rows.len() ==> m.contains_key((#[trigger] rows[i]).0) && m[rows[i].0] == rows[i].1
    &&& forall|k: Seq<u8>| m.contains_key(k) ==> #[trigger] has_row(rows, k)
}

/// Taking the last row away.
pub proof fn lemma_each_once_pop<V>(rows: Seq<(Seq<u8>, V)>, m: Map<Seq<u8>, V>)
    requires
        holds_each_once(rows, m),
        rows.len() > 0,
    ensures
        m.contains_key(rows.last().0),
        m[rows.last().0] == rows.last().1,
        holds_each_once(rows.drop_last(), m.remove(rows.last().0)),
{
    let rest = m.remove(rows.last().0);
    assert forall|k: Seq<u8>| rest.contains_key(k) implies #[trigger] has_row(
        rows.drop_last(),
        k,
    ) by {
        assert(has_row(rows, k));
        let i = choose|i: int| row_at(rows, k, i);
        assert(row_at(rows.drop_last(), k, i));
    }
}

/// Putting a new row behind the others.
pub proof fn lemma_each_once_push<V>(
    rows: Seq<(Seq<u8>, V)>,
    m: Map<Seq<u8>, V>,
    k: Seq<u8>,
    v: V,
)
    requires
        holds_each_once(rows, m),
        !m.contains_key(k),
    ensures
        holds_each_once(rows.push((k, v)), m.insert(k, v)),
{
    let new = rows.push((k, v));
    assert forall|q: Seq<u8>| m.insert(k, v).contains_key(q) implies #[trigger] has_row(
        new,
        q,
    ) by {
        if q == k {
            assert(row_at(new, q, rows.len() as int));
        } else {
            assert(has_row(rows, q));
            let i = choose|i: int| row_at(rows, q, i);
            assert(row_at(new, q, i));
        }
    }
}

/// A map has as many keys as there are rows that hold each once.
pub proof fn lemma_each_once_len<V>(rows: Seq<(Seq<u8>, V)>, m: Map<Seq<u8>, V>)
    requires
        holds_each_once(rows, m),
    ensures
        m.dom().finite(),
        m.len() == rows.len(),
    decreases rows.len(),
{
    if rows.len() == 0 {
        assert forall|k: Seq<u8>| !m.contains_key(k) by {
            if m.contains_key(k) {
                assert(has_row(rows, k));
            }
        }
        assert(m.dom() =~= Set::empty());
    } else {
        lemma_each_once_pop(rows, m);
        let k = rows.last().0;
        lemma_each_once_len(rows.drop_last(), m.remove(k));
        assert(m.remove(k).insert(k, m[k]) =~= m);
    }
}

/// An ordered map from binary keys, held as a sorted vector.
#[derive(Debug)]
pub struct KeyMap<V> {
    rows: Vec<(Vec<u8>, V)>,
}

impl<V: View> KeyMap<V> {
    /// The rows in ascending key order.
    pub closed spec fn listing(&self) -> Seq<(Seq<u8>, V::V)> {
        Seq::new(self.rows@.len(), |i: int| (self.rows@[i].0@, self.rows@[i].1@))
    }

    /// The rows are sorted and no key occurs twice.
    pub open spec fn wf(&self) -> bool {
        ascending(self.listing())
    }
}

impl<V: View> View for KeyMap<V> {
    type V = Map<Seq<u8>, V::V>;

    open spec fn view(&self) -> Map<Seq<u8>, V::V> {
        row_map(self.listing())
    }
}

impl<V: View> KeyMap<V> {
    pub fn new() -> (m: Self)
        ensures
            m.wf(),
            m.listing().len() == 0,
            m@ == Map::<Seq<u8>, V::V>::empty(),
    {
        let m = KeyMap { rows: Vec::new() };
        assert(m@ =~= Map::<Seq<u8>, V::V>::empty());
        m
    }

    pub fn len(&self) -> (n: usize)
        requires
            self.wf(),
        ensures
            n == self@.len(),
            n == self.listing().len(),
            self@.dom().finite(),
    {
        proof {
            lemma_listing_len(self.listing());
        }
        self.rows.len()
    }

    /// Row `i` of the listing.
    pub fn row(&self, i: usize) -> (row: (&Vec<u8>, &V))
        requires
            i < self.listing().len(),
        ensures
            row.0@ == self.listing()[i as int].0,
            row.1@ == self.listing()[i as int].1,
    {
        (&self.rows[i].0, &self.rows[i].1)
    }

    /// Where `key` stands, or where it would.
    fn find(&self, key: &[u8]) -> (at: (bool, usize))
        requires
            self.wf(),
        ensures
            at.1 <= self.listing().len(),
            at.0 ==> at.1 < self.listing().len() && self.listing()[at.1 as int].0 == key@,
            !at.0 ==> (forall|i: int| 0 <= i < at.1 ==> order::key_lt(self.listing()[i].0, key@)),
            !at.0 ==> (forall|i: int|
                at.1 <= i < self.listing().len() ==> order::key_lt(key@, self.listing()[i].0)),
    {
        let ghost rows = self.listing();
        let mut lo: usize = 0;
        let mut hi: usize = self.rows.len();
        while lo < hi
            invariant
                rows == self.listing(),
                ascending(rows),
                lo <= hi <= rows.len(),
                rows.len() == self.rows@.len(),
                forall|i: int| 0 <= i < lo ==> order::key_lt(rows[i].0, key@),
                forall|i: int| hi <= i < rows.len() ==> order::key_lt(key@, rows[i].0),
            decreases hi - lo,
        {
            let mid: usize = lo + (hi - lo) / 2;
            match compare_keys(self.rows[mid].0.as_slice(), key) {
                Side::Same => {
                    return (true, mid);
                },
                Side::Before => {
                    assert forall|i: int| 0 <= i < mid + 1 implies order::key_lt(rows[i].0, key@) by {
                        if i < mid {
                            order::key_lt_transitive(rows[i].0, rows[mid as int].0, key@);
                        }
                    }
                    lo = mid + 1;
                },
                Side::After => {
                    assert forall|i: int| mid <= i < rows.len() implies order::key_lt(key@, rows[i].0) by {
                        if i > mid {
                            order::key_lt_transitive(key@, rows[mid as int].0, rows[i].0);
                        }
                    }
                    hi = mid;
                },
            }
        }
        (false, lo)
    }

    /// The value of `key`.
    pub fn get(&self, key: &[u8]) -> (found: Option<&V>)
        requires
            self.wf(),
        ensures
            match found {
                Some(v) => self@.contains_key(key@) && self@[key@] == v@,
                None => !self@.contains_key(key@),
            },
    {
        let (found, at) = self.find(key);
        if found {
            proof {
                lemma_row(self.listing(), at as int);
            }
            Some(&self.rows[at].1)
        } else {
            proof {
                let rows = self.listing();
                if has_row(rows, key@) {
                    let i = choose|i: int| row_at(rows, key@, i);
                    order::key_lt_irreflexive(key@);
                }
            }
            None
        }
    }

    /// Sets the value of `key`, whether or not it had one.
    pub fn insert(&mut self, key: Vec<u8>, v: V)
        requires
            old(self).wf(),
        ensures
            final(self).wf(),
            final(self)@ == old(self)@.insert(key@, v@),
    {
        let (found, at) = self.find(key.as_slice());
        let ghost rows = self.listing();
        let ghost k = key@;
        let ghost value = v@;
        if found {
            self.rows[at] = (key, v);
            proof {
                lemma_overwrite(rows, at as int, value);
                assert(self.listing() =~= rows.update(at as int, (k, value)));
            }
        } else {
            self.rows.insert(at, (key, v));
            proof {
                lemma_insert_row(rows, at as int, k, value);
                assert(self.listing() =~= rows.insert(at as int, (k, value)));
            }
        }
    }
}

} // verus!
