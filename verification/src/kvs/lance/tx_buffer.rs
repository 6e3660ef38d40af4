//! The writes and deletions of a transaction that is still open.
//!
//! Nothing reaches the store before commit: a transaction's writes gather
//! here, and its reads look here first.

use vstd::prelude::*;

use crate::kvs::key_map;
use crate::kvs::key_map::KeyMap;
use crate::kvs::order;
use crate::kvs::order::{copy_bytes, Key, Val};

verus! {

/// What is pending for a key: a new value, or its deletion.
#[derive(Debug)]
pub enum PendingEntry {
    Write(Val),
    Delete,
}

impl View for PendingEntry {
    type V = Option<Seq<u8>>;

    /// The value that a reader sees: none where the key is deleted.
    open spec fn view(&self) -> Option<Seq<u8>> {
        match *self {
            PendingEntry::Write(v) => Some(v@),
            PendingEntry::Delete => None,
        }
    }
}

impl Clone for PendingEntry {
    fn clone(&self) -> (copy: Self)
        ensures
            copy@ == self@,
    {
        match self {
            PendingEntry::Write(v) => PendingEntry::Write(copy_bytes(v)),
            PendingEntry::Delete => PendingEntry::Delete,
        }
    }
}

/// The keys of `m` that have a value, with it.
pub open spec fn live(m: Map<Seq<u8>, Option<Seq<u8>>>) -> Map<Seq<u8>, Seq<u8>> {
    Map::new(|k: Seq<u8>| m.contains_key(k) && m[k] is Some, |k: Seq<u8>| m[k]->0)
}

/// The keys of `m` that are marked as deleted.
pub open spec fn dead(m: Map<Seq<u8>, Option<Seq<u8>>>) -> Set<Seq<u8>> {
    Set::new(|k: Seq<u8>| m.contains_key(k) && m[k] is None)
}

/// The live rows of `entries`, in key order.
pub fn live_rows(entries: &KeyMap<PendingEntry>) -> (out: Vec<(Key, Val)>)
    requires
        entries.wf(),
    ensures
        key_map::lists(order::pair_views(out@), live(entries@)),
{
    let ghost rows = entries.listing();
    let n: usize = entries.len();
    let mut out: Vec<(Key, Val)> = Vec::new();
    let mut i: usize = 0;
    proof {
        assert(live(key_map::row_map(rows.take(0))) =~= key_map::row_map(
            order::pair_views(out@),
        ));
    }
    while i < n
        invariant
            entries.wf(),
            rows == entries.listing(),
            n == rows.len(),
            i <= n,
            key_map::lists(order::pair_views(out@), live(key_map::row_map(rows.take(i as int)))),
        decreases n - i,
    {
        let ghost before = order::pair_views(out@);
        let ghost seen = key_map::row_map(rows.take(i as int));
        proof {
            key_map::lemma_take_next(rows, i as int);
        }
        let row = entries.row(i);
        match row.1 {
            PendingEntry::Write(v) => {
                proof {
                    assert forall|j: int| 0 <= j < before.len() implies order::key_lt(
                        before[j].0,
                        rows[i as int].0,
                    ) by {
                        key_map::lemma_row(before, j);
                        assert(seen.contains_key(before[j].0));
                    }
                    key_map::lemma_push_row(before, rows[i as int].0, v@);
                }
                out.push((copy_bytes(row.0), copy_bytes(v)));
                proof {
                    assert(order::pair_views(out@) =~= before.push((rows[i as int].0, v@)));
                    assert(live(key_map::row_map(rows.take(i + 1))) =~= live(seen).insert(
                        rows[i as int].0,
                        v@,
                    ));
                }
            },
            PendingEntry::Delete => {
                proof {
                    assert(live(key_map::row_map(rows.take(i + 1))) =~= live(seen));
                }
            },
        }
        i += 1;
    }
    proof {
        assert(rows.take(n as int) =~= rows);
    }
    out
}

/// The deleted keys of `entries`, in key order.
pub fn dead_keys(entries: &KeyMap<PendingEntry>) -> (out: Vec<Key>)
    requires
        entries.wf(),
    ensures
        key_map::lists_keys(order::key_views(out@), dead(entries@)),
{
    let ghost rows = entries.listing();
    let n: usize = entries.len();
    let mut out: Vec<Key> = Vec::new();
    let mut i: usize = 0;
    while i < n
        invariant
            entries.wf(),
            rows == entries.listing(),
            n == rows.len(),
            i <= n,
            key_map::lists_keys(
                order::key_views(out@),
                dead(key_map::row_map(rows.take(i as int))),
            ),
        decreases n - i,
    {
        let ghost before = order::key_views(out@);
        let ghost seen = key_map::row_map(rows.take(i as int));
        proof {
            key_map::lemma_take_next(rows, i as int);
        }
        let row = entries.row(i);
        match row.1 {
            PendingEntry::Write(_v) => {
                proof {
                    assert(dead(key_map::row_map(rows.take(i + 1))) =~= dead(seen));
                }
            },
            PendingEntry::Delete => {
                out.push(copy_bytes(row.0));
                proof {
                    let k = rows[i as int].0;
                    let after = order::key_views(out@);
                    assert(after =~= before.push(k));
                    assert forall|j: int| 0 <= j < before.len() implies order::key_lt(
                        before[j],
                        k,
                    ) by {
                        assert(before.contains(before[j]));
                        assert(seen.contains_key(before[j]));
                    }
                    assert(dead(key_map::row_map(rows.take(i + 1))) =~= dead(seen).insert(k));
                    assert forall|q: Seq<u8>| dead(seen).insert(k).contains(q)
                        <==> after.contains(q) by {
                        if before.contains(q) {
                            let j = choose|j: int| 0 <= j < before.len() && before[j] == q;
                            assert(after[j] == q);
                        }
                        assert(after[before.len() as int] == k);
                        if after.contains(q) && q != k {
                            let j = choose|j: int| 0 <= j < after.len() && after[j] == q;
                            assert(before[j] == q);
                        }
                    }
                }
            },
        }
        i += 1;
    }
    proof {
        assert(rows.take(n as int) =~= rows);
    }
    out
}

/// The pending writes and deletions of one open transaction, one entry per
/// key.
#[derive(Debug)]
pub struct PendingBuffer {
    entries: KeyMap<PendingEntry>,
}

impl View for PendingBuffer {
    type V = Map<Seq<u8>, Option<Seq<u8>>>;

    /// The pending value of each key, none where the key is to be deleted.
    closed spec fn view(&self) -> Map<Seq<u8>, Option<Seq<u8>>> {
        self.entries@
    }
}

impl Default for PendingBuffer {
    fn default() -> (buffer: Self)
        ensures
            buffer@ == Map::<Seq<u8>, Option<Seq<u8>>>::empty(),
    {
        PendingBuffer { entries: KeyMap::new() }
    }
}

impl Clone for PendingBuffer {
    /// A deep copy: later changes of either side leave the other alone.
    fn clone(&self) -> (copy: Self)
        ensures
            copy@ == self@,
    {
        proof {
            use_type_invariant(self);
        }
        let ghost rows = self.entries.listing();
        let n: usize = self.entries.len();
        let mut entries: KeyMap<PendingEntry> = KeyMap::new();
        let mut i: usize = 0;
        proof {
            assert(key_map::row_map(rows.take(0)) =~= entries@);
        }
        while i < n
            invariant
                self.entries.wf(),
                rows == self.entries.listing(),
                n == rows.len(),
                i <= n,
                entries.wf(),
                entries@ == key_map::row_map(rows.take(i as int)),
            decreases n - i,
        {
            proof {
                key_map::lemma_take_next(rows, i as int);
            }
            let row = self.entries.row(i);
            entries.insert(copy_bytes(row.0), row.1.clone());
            i += 1;
        }
        proof {
            assert(rows.take(n as int) =~= rows);
        }
        PendingBuffer { entries }
    }
}

impl PendingBuffer {
    #[verifier::type_invariant]
    spec fn sorted(&self) -> bool {
        self.entries.wf()
    }

    pub fn new() -> (buffer: Self)
        ensures
            buffer@ == Map::<Seq<u8>, Option<Seq<u8>>>::empty(),
    {
        PendingBuffer { entries: KeyMap::new() }
    }

    /// Sets the entry of `key` to a write of `val`.
    pub fn set(&mut self, key: Key, val: Val)
        ensures
            final(self)@ == old(self)@.insert(key@, Some(val@)),
    {
        proof {
            use_type_invariant(&*self);
        }
        let mut entries = KeyMap::new();
        std::mem::swap(&mut entries, &mut self.entries);
        entries.insert(key, PendingEntry::Write(val));
        self.entries = entries;
    }

    /// Sets the entry of `key` to a deletion.
    pub fn delete(&mut self, key: Key)
        ensures
            final(self)@ == old(self)@.insert(key@, None),
    {
        proof {
            use_type_invariant(&*self);
        }
        let mut entries = KeyMap::new();
        std::mem::swap(&mut entries, &mut self.entries);
        entries.insert(key, PendingEntry::Delete);
        self.entries = entries;
    }

    /// The entry of `key`, where there is one.
    pub fn get(&self, key: &Key) -> (entry: Option<&PendingEntry>)
        ensures
            match entry {
                Some(e) => self@.contains_key(key@) && self@[key@] == e@,
                None => !self@.contains_key(key@),
            },
    {
        proof {
            use_type_invariant(self);
        }
        self.entries.get(key.as_slice())
    }

    /// Drops every entry.
    pub fn clear(&mut self)
        ensures
            final(self)@ == Map::<Seq<u8>, Option<Seq<u8>>>::empty(),
    {
        self.entries = KeyMap::new();
    }

    /// How many keys have an entry.
    pub fn len(&self) -> (n: usize)
        ensures
            n == self@.len(),
            self@.dom().finite(),
    {
        proof {
            use_type_invariant(self);
        }
        self.entries.len()
    }

    pub fn is_empty(&self) -> (empty: bool)
        ensures
            empty == (self@ == Map::<Seq<u8>, Option<Seq<u8>>>::empty()),
    {
        proof {
            use_type_invariant(self);
        }
        let n: usize = self.entries.len();
        proof {
            if n == 0 {
                assert(self@.dom() =~= Set::empty());
                assert(self@ =~= Map::empty());
            }
        }
        n == 0
    }

    /// The writes and the deletions apart, each in key order.
    pub fn partition(&self) -> (parts: (Vec<(Key, Val)>, Vec<Key>))
        ensures
            key_map::lists(order::pair_views(parts.0@), live(self@)),
            key_map::lists_keys(order::key_views(parts.1@), dead(self@)),
    {
        proof {
            use_type_invariant(self);
        }
        (live_rows(&self.entries), dead_keys(&self.entries))
    }

    /// Every entry, in key order.
    pub fn iter(&self) -> (entries: Vec<(&Key, &PendingEntry)>)
        ensures
            key_map::lists(
                Seq::new(entries@.len(), |i: int| (entries@[i].0@, entries@[i].1@)),
                self@,
            ),
    {
        proof {
            use_type_invariant(self);
        }
        let ghost rows = self.entries.listing();
        let n: usize = self.entries.len();
        let mut out: Vec<(&Key, &PendingEntry)> = Vec::new();
        let mut i: usize = 0;
        while i < n
            invariant
                rows == self.entries.listing(),
                n == rows.len(),
                i <= n,
                out@.len() == i,
                forall|j: int|
                    0 <= j < i ==> (#[trigger] out@[j]).0@ == rows[j].0 && out@[j].1@ == rows[j].1,
            decreases n - i,
        {
            let row = self.entries.row(i);
            out.push(row);
            i += 1;
        }
        proof {
            assert(Seq::new(out@.len(), |j: int| (out@[j].0@, out@[j].1@)) =~= rows);
        }
        out
    }
}

} // verus!
