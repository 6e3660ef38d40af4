//! The in-memory write buffer in front of the dataset.
//!
//! A commit lands here once its log record is durable. Reads look here before
//! they scan the dataset, and a background flush moves the entries into the
//! dataset in batches. A deletion stays in the table as a tombstone, so that
//! it hides the row that the dataset still holds.

use std::ops::Range;

use dashmap::DashMap;
use vstd::prelude::*;

use crate::kvs::key_map;
use crate::kvs::order;
use crate::kvs::order::{copy_bytes, key_in_range, Key, Val};

verus! {

/// What happened to a key.
#[derive(Debug)]
pub enum Op {
    Write(Val),
    Delete,
}

impl View for Op {
    type V = Option<Seq<u8>>;

    /// The value that a reader sees: none where the key is deleted.
    open spec fn view(&self) -> Option<Seq<u8>> {
        match *self {
            Op::Write(v) => Some(v@),
            Op::Delete => None,
        }
    }
}

impl Clone for Op {
    fn clone(&self) -> (copy: Self)
        ensures
            copy@ == self@,
    {
        match self {
            Op::Write(v) => Op::Write(copy_bytes(v)),
            Op::Delete => Op::Delete,
        }
    }
}

/// One key's entry.
#[derive(Debug)]
pub struct MemtableEntry {
    pub op: Op,
    /// The commit order: decides which write of a key stands, and paces the
    /// flushes and the log.
    pub generation: u64,
    /// The number of the committing transaction, shared by all its rows. It
    /// goes into the dataset's `seq` column.
    pub seq: u64,
}

/// What an entry says.
pub struct EntryView {
    /// The value, none for a tombstone.
    pub value: Option<Seq<u8>>,
    pub generation: u64,
    pub seq: u64,
}

impl View for MemtableEntry {
    type V = EntryView;

    open spec fn view(&self) -> EntryView {
        EntryView { value: self.op@, generation: self.generation, seq: self.seq }
    }
}

impl Clone for MemtableEntry {
    fn clone(&self) -> (copy: Self)
        ensures
            copy@ == self@,
    {
        MemtableEntry { op: self.op.clone(), generation: self.generation, seq: self.seq }
    }
}

/// The entry that stands after `new` was written over `old_entry`: the one of
/// the higher generation, the older one on a tie.
pub open spec fn superseded(old_entry: EntryView, new: EntryView) -> EntryView {
    if new.generation > old_entry.generation {
        new
    } else {
        old_entry
    }
}

/// The table after an entry was written to `k`.
pub open spec fn upserted(
    m: Map<Seq<u8>, EntryView>,
    k: Seq<u8>,
    new: EntryView,
) -> Map<Seq<u8>, EntryView> {
    m.insert(
        k,
        if m.contains_key(k) {
            superseded(m[k], new)
        } else {
            new
        },
    )
}

/// Replaces an entry by a newer one, where it is newer.
pub fn supersede(existing: &mut MemtableEntry, new: &MemtableEntry)
    ensures
        final(existing)@ == superseded(old(existing)@, new@),
{
    if new.generation > existing.generation {
        existing.op = new.op.clone();
        existing.generation = new.generation;
        existing.seq = new.seq;
    }
}

/// Whether an entry was written by generation `generation` or before.
pub fn written_by(entry: &MemtableEntry, generation: u64) -> (written: bool)
    ensures
        written == (entry@.generation <= generation),
{
    entry.generation <= generation
}

/// The concurrent hash map of the `dashmap` crate.
#[verifier::external_type_specification]
#[verifier::external_body]
#[verifier::reject_recursive_types(K)]
#[verifier::reject_recursive_types(V)]
#[verifier::reject_recursive_types(S)]
pub struct ExDashMap<K, V, S>(dashmap::DashMap<K, V, S>);

/// A table without entries.
pub open spec fn no_rows() -> Map<Seq<u8>, EntryView> {
    Map::empty()
}

/// The contents of a map: the entry of each key.
pub uninterp spec fn table_rows(table: DashMap<Vec<u8>, MemtableEntry>) -> Map<
    Seq<u8>,
    EntryView,
>;

/// `DashMap::new`: the new map is empty.
#[verifier::external_body]
fn table_new() -> (table: DashMap<Vec<u8>, MemtableEntry>)
    ensures
        table_rows(table) == no_rows(),
{
    DashMap::new()
}

/// `DashMap::entry`, with `and_modify` and `or_insert` on what it returns: an
/// entry that is there is changed by [`supersede`], and a key without one gets
/// the new entry. No other key is touched.
#[verifier::external_body]
fn table_upsert(table: &mut DashMap<Vec<u8>, MemtableEntry>, key: Key, entry: MemtableEntry)
    ensures
        table_rows(*final(table)) == upserted(table_rows(*old(table)), key@, entry@),
{
    table.entry(key).and_modify(|existing| supersede(existing, &entry)).or_insert(entry);
}

/// `DashMap::get`: the entry of `key`, copied out.
#[verifier::external_body]
fn table_get(table: &DashMap<Vec<u8>, MemtableEntry>, key: &[u8]) -> (entry: Option<MemtableEntry>)
    ensures
        match entry {
            Some(e) => table_rows(*table).contains_key(key@) && table_rows(*table)[key@] == e@,
            None => !table_rows(*table).contains_key(key@),
        },
{
    table.get(key).map(|e| e.value().clone())
}

/// The key and the contents of each entry of a vector.
pub open spec fn entry_views(entries: Seq<(Vec<u8>, MemtableEntry)>) -> Seq<(Seq<u8>, EntryView)> {
    Seq::new(entries.len(), |i: int| (entries[i].0@, entries[i].1@))
}

/// `DashMap::iter`: every entry once, copied out, in an order that the map's
/// hasher decides.
#[verifier::external_body]
fn table_entries(table: &DashMap<Vec<u8>, MemtableEntry>) -> (entries: Vec<(Key, MemtableEntry)>)
    ensures
        key_map::holds_each_once(entry_views(entries@), table_rows(*table)),
{
    table.iter().map(|kv| (kv.key().clone(), kv.value().clone())).collect()
}

/// `DashMap::remove_if`, with [`written_by`] as its test: the entry of `key`
/// goes if it is there and the test holds of it. No other key is touched.
#[verifier::external_body]
fn table_remove_written_by(
    table: &mut DashMap<Vec<u8>, MemtableEntry>,
    key: &Key,
    generation: u64,
)
    ensures
        table_rows(*final(table)) == (if table_rows(*old(table)).contains_key(key@) && table_rows(
            *old(table),
        )[key@].generation <= generation {
            table_rows(*old(table)).remove(key@)
        } else {
            table_rows(*old(table))
        }),
{
    table.remove_if(key, |_k, v| written_by(v, generation));
}

/// `DashMap::len`: the number of entries.
#[verifier::external_body]
fn table_len(table: &DashMap<Vec<u8>, MemtableEntry>) -> (n: usize)
    ensures
        n == table_rows(*table).len(),
{
    table.len()
}

/// `DashMap::is_empty`: whether there is no entry.
#[verifier::external_body]
fn table_is_empty(table: &DashMap<Vec<u8>, MemtableEntry>) -> (empty: bool)
    ensures
        empty == (table_rows(*table) == no_rows()),
{
    table.is_empty()
}

/// The bytes that an entry of `k` holds: its key, and its value where it has
/// one.
pub open spec fn entry_bytes(k: Seq<u8>, e: EntryView) -> nat {
    match e.value {
        Some(v) => k.len() + v.len(),
        None => k.len(),
    }
}

/// The bytes that all entries hold together.
pub open spec fn table_bytes(m: Map<Seq<u8>, EntryView>) -> nat
    decreases m.len(),
    when m.dom().finite()
{
    if m.len() == 0 {
        0
    } else {
        let k = m.dom().choose();
        entry_bytes(k, m[k]) + table_bytes(m.remove(k))
    }
}

/// The bytes of a table are those of any one entry and of the rest.
pub proof fn table_bytes_split(m: Map<Seq<u8>, EntryView>, k: Seq<u8>)
    requires
        m.dom().finite(),
        m.contains_key(k),
    ensures
        table_bytes(m) == entry_bytes(k, m[k]) + table_bytes(m.remove(k)),
    decreases m.len(),
{
    let c = m.dom().choose();
    assert(m.len() > 0);
    if c != k {
        table_bytes_split(m.remove(c), k);
        table_bytes_split(m.remove(k), c);
        assert(m.remove(c).remove(k) =~= m.remove(k).remove(c));
    }
}

/// The entries of the table that were written by `generation` or before.
pub open spec fn rows_up_to(
    m: Map<Seq<u8>, EntryView>,
    generation: u64,
) -> Map<Seq<u8>, EntryView> {
    m.restrict(Set::new(|k: Seq<u8>| m.contains_key(k) && m[k].generation <= generation))
}

/// The entries of the table whose keys lie between `start` and `end`.
pub open spec fn rows_between(
    m: Map<Seq<u8>, EntryView>,
    start: Seq<u8>,
    end: Seq<u8>,
) -> Map<Seq<u8>, EntryView> {
    m.restrict(Set::new(|k: Seq<u8>| order::in_range(k, start, end)))
}

/// Pair `i` of `flushed` covers the entry `e` of `k`.
pub open spec fn covered_by(
    flushed: Seq<(Vec<u8>, u64)>,
    k: Seq<u8>,
    e: EntryView,
    i: int,
) -> bool {
    0 <= i < flushed.len() && flushed[i].0@ == k && e.generation <= flushed[i].1
}

/// The table without the entries that `flushed` covers.
pub open spec fn rows_without(
    m: Map<Seq<u8>, EntryView>,
    flushed: Seq<(Vec<u8>, u64)>,
) -> Map<Seq<u8>, EntryView> {
    m.restrict(
        Set::new(
            |k: Seq<u8>|
                m.contains_key(k) && !(exists|i: int| covered_by(flushed, k, m[k], i)),
        ),
    )
}

/// The write buffer.
pub struct Memtable {
    entries: DashMap<Key, MemtableEntry>,
    generation: u64,
}

impl View for Memtable {
    type V = Map<Seq<u8>, EntryView>;

    closed spec fn view(&self) -> Map<Seq<u8>, EntryView> {
        table_rows(self.entries)
    }
}

impl Memtable {
    /// The generation of the latest commit.
    pub closed spec fn last_generation(&self) -> u64 {
        self.generation
    }

    pub fn new() -> (table: Self)
        ensures
            table@ == no_rows(),
            table.last_generation() == 0,
    {
        Memtable { entries: table_new(), generation: 0 }
    }

    /// Takes the next generation number; after the largest comes 0.
    pub fn next_generation(&mut self) -> (generation: u64)
        ensures
            generation as int == (old(self).last_generation() + 1) % 0x1_0000_0000_0000_0000,
            final(self).last_generation() == generation,
            final(self)@ == old(self)@,
    {
        self.generation = self.generation.wrapping_add(1);
        self.generation
    }

    /// Moves the generation counter up to `generation`, where it is below.
    pub fn advance_generation(&mut self, generation: u64)
        ensures
            final(self).last_generation() == (if old(self).last_generation() < generation {
                generation
            } else {
                old(self).last_generation()
            }),
            final(self)@ == old(self)@,
    {
        if self.generation < generation {
            self.generation = generation;
        }
    }

    /// Writes an entry whose `seq` is its generation.
    pub fn insert(&mut self, key: Key, op: Op, generation: u64)
        ensures
            final(self)@ == upserted(
                old(self)@,
                key@,
                (EntryView { value: op@, generation, seq: generation }),
            ),
            final(self).last_generation() == old(self).last_generation(),
    {
        self.insert_with_seq(key, op, generation, generation);
    }

    /// Writes an entry. Where the key has one already, the entry of the higher
    /// generation stands, with its own `seq`.
    pub fn insert_with_seq(&mut self, key: Key, op: Op, generation: u64, seq: u64)
        ensures
            final(self)@ == upserted(
                old(self)@,
                key@,
                (EntryView { value: op@, generation, seq }),
            ),
            final(self).last_generation() == old(self).last_generation(),
    {
        table_upsert(&mut self.entries, key, MemtableEntry { op, generation, seq });
    }

    /// The entry of `key`. Without one, the dataset has the answer.
    pub fn get(&self, key: &[u8]) -> (entry: Option<MemtableEntry>)
        ensures
            match entry {
                Some(e) => self@.contains_key(key@) && self@[key@] == e@,
                None => !self@.contains_key(key@),
            },
    {
        table_get(&self.entries, key)
    }

    /// The entries whose keys lie in the half-open `range`, each once. Their
    /// order is open.
    pub fn scan_range(&self, range: &Range<Key>) -> (out: Vec<(Key, MemtableEntry)>)
        ensures
            key_map::holds_each_once(
                entry_views(out@),
                rows_between(self@, range.start@, range.end@),
            ),
            self@.dom().finite(),
    {
        let ghost wanted = rows_between(self@, range.start@, range.end@);
        let mut rest = table_entries(&self.entries);
        let mut out: Vec<(Key, MemtableEntry)> = Vec::new();
        let ghost mut left: Map<Seq<u8>, EntryView> = self@;
        proof {
            key_map::lemma_each_once_len(entry_views(rest@), self@);
            assert(wanted.remove_keys(left.dom()) =~= Map::empty());
        }
        while rest.len() > 0
            invariant
                wanted == rows_between(self@, range.start@, range.end@),
                key_map::holds_each_once(entry_views(rest@), left),
                left.submap_of(self@),
                key_map::holds_each_once(entry_views(out@), wanted.remove_keys(left.dom())),
            decreases rest.len(),
        {
            let ghost rest_before = entry_views(rest@);
            let ghost out_before = entry_views(out@);
            let ghost left_before = left;
            match rest.pop() {
                Some((k, e)) => {
                    let ghost key = k@;
                    let ghost entry = e@;
                    proof {
                        assert(rest_before.last() == (key, entry));
                        key_map::lemma_each_once_pop(rest_before, left_before);
                        assert(entry_views(rest@) =~= rest_before.drop_last());
                        left = left_before.remove(key);
                    }
                    if key_in_range(&k, &range.start, &range.end) {
                        out.push((k, e));
                        proof {
                            let got = wanted.remove_keys(left_before.dom());
                            key_map::lemma_each_once_push(out_before, got, key, entry);
                            assert(entry_views(out@) =~= out_before.push((key, entry)));
                            assert(wanted.remove_keys(left.dom()) =~= got.insert(key, entry));
                        }
                    } else {
                        proof {
                            assert(wanted.remove_keys(left.dom()) =~= wanted.remove_keys(
                                left_before.dom(),
                            ));
                        }
                    }
                },
                None => {},
            }
        }
        proof {
            key_map::lemma_each_once_len(entry_views(rest@), left);
            assert(left.dom() =~= Set::empty());
            assert(wanted.remove_keys(left.dom()) =~= wanted);
        }
        out
    }

    /// The entries of generation `up_to_generation` or below, each once. They
    /// stay in the table: a flush drops them by [`Self::drop_committed`] when
    /// the dataset has them.
    pub fn snapshot_up_to(&self, up_to_generation: u64) -> (out: Vec<(Key, MemtableEntry)>)
        ensures
            key_map::holds_each_once(entry_views(out@), rows_up_to(self@, up_to_generation)),
    {
        let ghost wanted = rows_up_to(self@, up_to_generation);
        let mut rest = table_entries(&self.entries);
        let mut out: Vec<(Key, MemtableEntry)> = Vec::new();
        let ghost mut left: Map<Seq<u8>, EntryView> = self@;
        proof {
            assert(wanted.remove_keys(left.dom()) =~= Map::empty());
        }
        while rest.len() > 0
            invariant
                wanted == rows_up_to(self@, up_to_generation),
                key_map::holds_each_once(entry_views(rest@), left),
                left.submap_of(self@),
                key_map::holds_each_once(entry_views(out@), wanted.remove_keys(left.dom())),
            decreases rest.len(),
        {
            let ghost rest_before = entry_views(rest@);
            let ghost out_before = entry_views(out@);
            let ghost left_before = left;
            match rest.pop() {
                Some((k, e)) => {
                    let ghost key = k@;
                    let ghost entry = e@;
                    proof {
                        assert(rest_before.last() == (key, entry));
                        key_map::lemma_each_once_pop(rest_before, left_before);
                        assert(entry_views(rest@) =~= rest_before.drop_last());
                        left = left_before.remove(key);
                    }
                    if written_by(&e, up_to_generation) {
                        out.push((k, e));
                        proof {
                            let got = wanted.remove_keys(left_before.dom());
                            key_map::lemma_each_once_push(out_before, got, key, entry);
                            assert(entry_views(out@) =~= out_before.push((key, entry)));
                            assert(wanted.remove_keys(left.dom()) =~= got.insert(key, entry));
                        }
                    } else {
                        proof {
                            assert(wanted.remove_keys(left.dom()) =~= wanted.remove_keys(
                                left_before.dom(),
                            ));
                        }
                    }
                },
                None => {},
            }
        }
        proof {
            key_map::lemma_each_once_len(entry_views(rest@), left);
            assert(left.dom() =~= Set::empty());
            assert(wanted.remove_keys(left.dom()) =~= wanted);
        }
        out
    }

    /// Drops what a flush has made durable: of each pair the entry of its key,
    /// unless a commit newer than the pair's generation has written it since.
    pub fn drop_committed(&mut self, flushed: &[(Key, u64)])
        ensures
            final(self)@ == rows_without(old(self)@, flushed@),
            final(self).last_generation() == old(self).last_generation(),
    {
        let ghost before = self@;
        let ghost counter = self.last_generation();
        let mut i: usize = 0;
        proof {
            assert(rows_without(before, flushed@.take(0)) =~= before);
        }
        while i < flushed.len()
            invariant
                i <= flushed@.len(),
                self@ == rows_without(before, flushed@.take(i as int)),
                self.last_generation() == counter,
            decreases flushed@.len() - i,
        {
            let ghost current = self@;
            table_remove_written_by(&mut self.entries, &flushed[i].0, flushed[i].1);
            proof {
                let now = flushed@.take(i as int);
                let next = flushed@.take(i + 1);
                let at = flushed@[i as int].0@;
                assert(next =~= now.push(flushed@[i as int]));
                assert forall|k: Seq<u8>, e: EntryView, j: int| #[trigger]
                    covered_by(now, k, e, j) implies covered_by(next, k, e, j) by {}
                assert forall|k: Seq<u8>, e: EntryView, j: int|
                    #[trigger] covered_by(next, k, e, j) && j < i implies covered_by(
                    now,
                    k,
                    e,
                    j,
                ) by {}
                if before.contains_key(at) && before[at].generation <= flushed@[i as int].1 {
                    assert(covered_by(next, at, before[at], i as int));
                }
                assert(self@ =~= rows_without(before, next));
            }
            i += 1;
        }
        proof {
            assert(flushed@.take(flushed@.len() as int) =~= flushed@);
        }
    }

    /// The number of entries.
    pub fn len(&self) -> (n: usize)
        ensures
            n == self@.len(),
    {
        table_len(&self.entries)
    }

    pub fn is_empty(&self) -> (empty: bool)
        ensures
            empty == (self@ == no_rows()),
    {
        table_is_empty(&self.entries)
    }

    /// The bytes of all keys and values, or the largest `usize` where they
    /// are more. A tombstone counts with its key alone.
    pub fn pending_bytes(&self) -> (n: usize)
        ensures
            n as nat == (if table_bytes(self@) <= usize::MAX {
                table_bytes(self@)
            } else {
                usize::MAX as nat
            }),
    {
        let mut rest = table_entries(&self.entries);
        let mut total: usize = 0;
        let ghost mut left: Map<Seq<u8>, EntryView> = self@;
        let ghost mut sum: nat = 0;
        proof {
            key_map::lemma_each_once_len(entry_views(rest@), left);
        }
        while rest.len() > 0
            invariant
                left.dom().finite(),
                key_map::holds_each_once(entry_views(rest@), left),
                sum + table_bytes(left) == table_bytes(self@),
                total as nat == (if sum <= usize::MAX {
                    sum
                } else {
                    usize::MAX as nat
                }),
            decreases rest.len(),
        {
            let ghost rest_before = entry_views(rest@);
            match rest.pop() {
                Some((k, e)) => {
                    proof {
                        assert(rest_before.last() == (k@, e@));
                        key_map::lemma_each_once_pop(rest_before, left);
                        assert(entry_views(rest@) =~= rest_before.drop_last());
                        table_bytes_split(left, k@);
                        sum = sum + entry_bytes(k@, e@);
                        left = left.remove(k@);
                    }
                    total = total.saturating_add(k.len());
                    match &e.op {
                        Op::Write(v) => {
                            total = total.saturating_add(v.len());
                        },
                        Op::Delete => {},
                    }
                },
                None => {},
            }
        }
        proof {
            key_map::lemma_each_once_len(entry_views(rest@), left);
        }
        total
    }

    /// The generation of the latest commit, whether or not the table still
    /// holds an entry of it.
    pub fn current_generation(&self) -> (generation: u64)
        ensures
            generation == self.last_generation(),
    {
        self.generation
    }
}

} // verus!
