//! The order of binary keys: byte by byte, a proper prefix first.

use vstd::prelude::*;

verus! {

/// A binary key.
pub type Key = Vec<u8>;

/// A binary value.
pub type Val = Vec<u8>;

/// `a` and `b` agree before `i`, and at `i` either `a` has ended or its byte
/// is the smaller one.
pub open spec fn parts_at(a: Seq<u8>, b: Seq<u8>, i: int) -> bool {
    &&& 0 <= i <= a.len()
    &&& i < b.len()
    &&& forall|j: int| 0 <= j < i ==> a[j] == b[j]
    &&& i < a.len() ==> a[i] < b[i]
}

/// `a` comes strictly before `b`.
pub open spec fn key_lt(a: Seq<u8>, b: Seq<u8>) -> bool {
    exists|i: int| parts_at(a, b, i)
}

/// `a` comes before `b` or is `b`.
pub open spec fn key_le(a: Seq<u8>, b: Seq<u8>) -> bool {
    a == b || key_lt(a, b)
}

/// `k` lies in the half-open range from `start` to `end`.
pub open spec fn in_range(k: Seq<u8>, start: Seq<u8>, end: Seq<u8>) -> bool {
    key_le(start, k) && key_lt(k, end)
}

/// No key comes before itself.
pub proof fn key_lt_irreflexive(a: Seq<u8>)
    ensures
        !key_lt(a, a),
{
}

/// The order is transitive.
pub proof fn key_lt_transitive(a: Seq<u8>, b: Seq<u8>, c: Seq<u8>)
    requires
        key_lt(a, b),
        key_lt(b, c),
    ensures
        key_lt(a, c),
{
    let i = choose|i: int| parts_at(a, b, i);
    let j = choose|j: int| parts_at(b, c, j);
    let k = if i < j { i } else { j };
    assert(parts_at(a, c, k));
}

/// A key comes before every longer one that begins with it, and where two keys
/// part, the smaller byte comes first, whatever follows.
pub proof fn order_is_lexicographic(
    head: Seq<u8>,
    tail: Seq<u8>,
    x: u8,
    y: u8,
    a: Seq<u8>,
    b: Seq<u8>,
)
    requires
        tail.len() > 0,
        x < y,
    ensures
        key_lt(head, head + tail),
        key_lt(head + seq![x] + a, head + seq![y] + b),
{
    assert(parts_at(head, head + tail, head.len() as int));
    assert(parts_at(head + seq![x] + a, head + seq![y] + b, head.len() as int));
}

/// A range holds its start, where it is not empty, and every key behind it, up
/// to its end, which it does not hold.
pub proof fn range_is_half_open(k: Seq<u8>, start: Seq<u8>, end: Seq<u8>)
    ensures
        in_range(k, start, end) <==> !key_lt(k, start) && key_lt(k, end),
        !in_range(end, start, end),
        key_lt(start, end) ==> in_range(start, start, end),
{
    key_lt_irreflexive(end);
    key_lt_irreflexive(k);
    if key_lt(start, k) {
        if key_lt(k, start) {
            key_lt_asymmetric(k, start);
        }
    } else if k != start {
        key_lt_total(start, k);
    }
}

/// Two keys never come before each other.
pub proof fn key_lt_asymmetric(a: Seq<u8>, b: Seq<u8>)
    requires
        key_lt(a, b),
    ensures
        !key_lt(b, a),
{
    if key_lt(b, a) {
        key_lt_transitive(a, b, a);
        key_lt_irreflexive(a);
    }
}

/// Of two different keys one comes first.
pub proof fn key_lt_total(a: Seq<u8>, b: Seq<u8>)
    ensures
        key_lt(a, b) || a == b || key_lt(b, a),
{
    lemma_total_from(a, b, 0);
}

proof fn lemma_total_from(a: Seq<u8>, b: Seq<u8>, i: int)
    requires
        0 <= i <= a.len(),
        i <= b.len(),
        forall|j: int| 0 <= j < i ==> a[j] == b[j],
    ensures
        key_lt(a, b) || a == b || key_lt(b, a),
    decreases a.len() - i,
{
    if i < a.len() && i < b.len() && a[i] == b[i] {
        lemma_total_from(a, b, i + 1);
    } else if i == a.len() && i == b.len() {
        assert(a =~= b);
    } else if i == a.len() || (i < b.len() && a[i] < b[i]) {
        assert(parts_at(a, b, i));
    } else {
        assert(parts_at(b, a, i));
    }
}

/// How one key stands to another.
#[derive(Clone, Copy, Debug, PartialEq, Eq, Structural)]
pub enum Side {
    Before,
    Same,
    After,
}

/// Compares two keys.
pub fn compare_keys(a: &[u8], b: &[u8]) -> (side: Side)
    ensures
        match side {
            Side::Before => key_lt(a@, b@),
            Side::Same => a@ == b@,
            Side::After => key_lt(b@, a@),
        },
{
    let mut i: usize = 0;
    while i < a.len() && i < b.len() && a[i] == b[i]
        invariant
            i <= a.len(),
            i <= b.len(),
            forall|j: int| 0 <= j < i ==> a@[j] == b@[j],
        decreases a.len() - i,
    {
        i += 1;
    }
    if i == a.len() && i == b.len() {
        assert(a@ =~= b@);
        Side::Same
    } else if i == a.len() || (i < b.len() && a[i] < b[i]) {
        assert(parts_at(a@, b@, i as int));
        Side::Before
    } else {
        assert(parts_at(b@, a@, i as int));
        Side::After
    }
}

/// Whether two byte strings are the same.
pub fn same_bytes(a: &Vec<u8>, b: &Vec<u8>) -> (same: bool)
    ensures
        same == (a@ == b@),
{
    match compare_keys(a.as_slice(), b.as_slice()) {
        Side::Same => true,
        Side::Before => {
            proof {
                key_lt_irreflexive(a@);
            }
            false
        },
        Side::After => {
            proof {
                key_lt_irreflexive(a@);
            }
            false
        },
    }
}

/// Whether `k` lies in the half-open range from `start` to `end`.
pub fn key_in_range(k: &Vec<u8>, start: &Vec<u8>, end: &Vec<u8>) -> (inside: bool)
    ensures
        inside == in_range(k@, start@, end@),
{
    let below = compare_keys(k.as_slice(), start.as_slice());
    let above = compare_keys(k.as_slice(), end.as_slice());
    proof {
        if key_lt(k@, start@) {
            key_lt_asymmetric(k@, start@);
            key_lt_irreflexive(k@);
        }
        if key_lt(end@, k@) {
            key_lt_asymmetric(end@, k@);
        }
        key_lt_irreflexive(k@);
    }
    below != Side::Before && above == Side::Before
}

/// The byte strings of a vector of keys.
pub open spec fn key_views(keys: Seq<Vec<u8>>) -> Seq<Seq<u8>> {
    Seq::new(keys.len(), |i: int| keys[i]@)
}

/// The byte strings of a vector of key-value pairs.
pub open spec fn pair_views(pairs: Seq<(Vec<u8>, Vec<u8>)>) -> Seq<(Seq<u8>, Seq<u8>)> {
    Seq::new(pairs.len(), |i: int| (pairs[i].0@, pairs[i].1@))
}

/// A copy of a byte string.
pub fn copy_bytes(v: &Vec<u8>) -> (copy: Vec<u8>)
    ensures
        copy@ == v@,
{
    let copy = v.clone();
    assert(copy@ =~= v@);
    copy
}

} // verus!
