//! Reads of the dataset's past.
//!
//! The dataset keeps its versions. A timeline lists them, and a view reads the
//! rows as they stood at one of them. Neither has a way to write.

use vstd::prelude::*;

use crate::kvs::err::{Error, ErrorView};
use crate::kvs::key_map;
use crate::kvs::lance::columns::Batch;
use crate::kvs::lance::rows;
use crate::kvs::lance::rows::{live_scan, view_value};
use crate::kvs::lance::schema;
use crate::kvs::lance::schema::KvSchema;
use crate::kvs::lance::transaction;
use crate::kvs::lance::transaction::{ScanPlan, Snapshot};
use crate::kvs::order;
use crate::kvs::order::{Key, Val};
use crate::text;
use crate::text::{decimal_text, joined};

verus! {

/// A version of the dataset.
#[derive(Clone, Copy, Debug, PartialEq, Eq)]
pub struct VersionInfo {
    /// The number of the version. It does not fall from one version to the
    /// next, and numbers may be left out.
    pub version: u64,
    /// When the version was made, in microseconds since the Unix epoch, where
    /// that is known.
    pub timestamp_us: Option<i64>,
}

/// The version existed at the instant, given in milliseconds since the Unix
/// epoch.
pub open spec fn existed_at(v: VersionInfo, instant_ms: u64) -> bool {
    v.timestamp_us matches Some(us) && us <= instant_ms * 1000
}

/// `version` is the number of the latest version that existed at the instant.
pub open spec fn latest_at(history: Seq<VersionInfo>, instant_ms: u64, version: u64) -> bool {
    &&& exists|i: int|
        0 <= i < history.len() && existed_at(#[trigger] history[i], instant_ms)
            && history[i].version == version
    &&& forall|i: int|
        0 <= i < history.len() && existed_at(#[trigger] history[i], instant_ms)
            ==> history[i].version <= version
}

/// The version of the dataset as of an instant; none where the dataset is
/// younger.
pub fn lance_version_as_of(history: &[VersionInfo], instant_ms: u64) -> (found: Option<u64>)
    ensures
        match found {
            Some(version) => latest_at(history@, instant_ms, version),
            None => forall|i: int|
                0 <= i < history@.len() ==> !existed_at(#[trigger] history@[i], instant_ms),
        },
{
    let mut found: Option<u64> = None;
    let mut i: usize = 0;
    while i < history.len()
        invariant
            i <= history@.len(),
            match found {
                Some(version) => latest_at(history@.take(i as int), instant_ms, version),
                None => forall|j: int|
                    0 <= j < i ==> !existed_at(#[trigger] history@[j], instant_ms),
            },
        decreases history@.len() - i,
    {
        let v: VersionInfo = history[i];
        let existed: bool = match v.timestamp_us {
            Some(us) => us as i128 <= instant_ms as i128 * 1000,
            None => false,
        };
        let ghost before = history@.take(i as int);
        let ghost after = history@.take(i + 1);
        proof {
            assert(existed == existed_at(v, instant_ms));
            assert(after[i as int] == v);
            assert forall|j: int| 0 <= j < i implies after[j] == #[trigger] before[j] by {}
        }
        if existed {
            let newer: bool = match found {
                Some(version) => v.version >= version,
                None => true,
            };
            if newer {
                found = Some(v.version);
                proof {
                    assert forall|j: int|
                        0 <= j < after.len() && existed_at(
                            #[trigger] after[j],
                            instant_ms,
                        ) implies after[j].version <= v.version by {
                        if j < i {
                            assert(before[j] == after[j]);
                            assert(history@[j] == after[j]);
                        }
                    }
                    assert(latest_at(after, instant_ms, v.version));
                }
            } else {
                proof {
                    let version = found->0;
                    let w = choose|w: int|
                        0 <= w < before.len() && existed_at(#[trigger] before[w], instant_ms)
                            && before[w].version == version;
                    assert(after[w] == before[w]);
                    assert forall|j: int|
                        0 <= j < after.len() && existed_at(
                            #[trigger] after[j],
                            instant_ms,
                        ) implies after[j].version <= version by {
                        if j < i {
                            assert(before[j] == after[j]);
                        }
                    }
                    assert(latest_at(after, instant_ms, version));
                }
            }
        } else {
            proof {
                if found is Some {
                    let version = found->0;
                    let w = choose|w: int|
                        0 <= w < before.len() && existed_at(#[trigger] before[w], instant_ms)
                            && before[w].version == version;
                    assert(after[w] == before[w]);
                    assert forall|j: int|
                        0 <= j < after.len() && existed_at(
                            #[trigger] after[j],
                            instant_ms,
                        ) implies after[j].version <= version by {
                        if j < i {
                            assert(before[j] == after[j]);
                        }
                    }
                    assert(latest_at(after, instant_ms, version));
                }
            }
        }
        i += 1;
    }
    proof {
        assert(history@.take(history@.len() as int) =~= history@);
    }
    found
}

/// Which version a read as of an instant goes to: one that the history lists
/// with a time at or before the instant, and none that is listed so has a
/// higher number. A history that lists none so has no answer. Times are in
/// microseconds, instants in milliseconds.
pub proof fn an_instant_reads_the_newest_version_made_by_then(
    history: Seq<VersionInfo>,
    instant_ms: u64,
    version: u64,
)
    ensures
        latest_at(history, instant_ms, version) <==> {
            &&& exists|i: int|
                0 <= i < history.len() && (#[trigger] history[i]).timestamp_us is Some
                    && history[i].timestamp_us->0 <= 1000 * instant_ms && history[i].version
                    == version
            &&& forall|i: int|
                0 <= i < history.len() && (#[trigger] history[i]).timestamp_us is Some
                    && history[i].timestamp_us->0 <= 1000 * instant_ms ==> history[i].version
                    <= version
        },
        forall|v: VersionInfo| #[trigger]
            existed_at(v, instant_ms) <==> v.timestamp_us is Some && v.timestamp_us->0 <= 1000
                * instant_ms,
{
    if latest_at(history, instant_ms, version) {
        let i = choose|i: int|
            0 <= i < history.len() && existed_at(#[trigger] history[i], instant_ms)
                && history[i].version == version;
        assert(history[i].timestamp_us is Some);
        assert forall|j: int|
            0 <= j < history.len() && (#[trigger] history[j]).timestamp_us is Some
                && history[j].timestamp_us->0 <= 1000 * instant_ms implies history[j].version
            <= version by {
            assert(existed_at(history[j], instant_ms));
        }
    }
    if exists|i: int|
        0 <= i < history.len() && (#[trigger] history[i]).timestamp_us is Some
            && history[i].timestamp_us->0 <= 1000 * instant_ms && history[i].version == version {
        let i = choose|i: int|
            0 <= i < history.len() && (#[trigger] history[i]).timestamp_us is Some
                && history[i].timestamp_us->0 <= 1000 * instant_ms && history[i].version
                == version;
        assert(existed_at(history[i], instant_ms));
    }
}

/// A read as of an instant sees no version that was made later.
pub proof fn time_travel_sees_no_future(
    history: Seq<VersionInfo>,
    instant_ms: u64,
    version: u64,
    i: int,
)
    requires
        latest_at(history, instant_ms, version),
        0 <= i < history.len(),
        history[i].version == version,
        forall|a: int, b: int|
            0 <= a < history.len() && 0 <= b < history.len() && (#[trigger] history[a]).version
                == (#[trigger] history[b]).version ==> history[a] == history[b],
    ensures
        existed_at(history[i], instant_ms),
{
    let w = choose|w: int|
        0 <= w < history.len() && existed_at(#[trigger] history[w], instant_ms)
            && history[w].version == version;
    assert(history[w] == history[i]);
}

/// A later instant reads the same version or a later one.
pub proof fn time_travel_is_monotone(
    history: Seq<VersionInfo>,
    early_ms: u64,
    late_ms: u64,
    early: u64,
    late: u64,
)
    requires
        early_ms <= late_ms,
        latest_at(history, early_ms, early),
        latest_at(history, late_ms, late),
    ensures
        early <= late,
{
    let w = choose|w: int|
        0 <= w < history.len() && existed_at(#[trigger] history[w], early_ms)
            && history[w].version == early;
    assert(existed_at(history[w], late_ms));
}

/// The versions of the dataset.
#[derive(Debug)]
pub struct Timeline {
    latest: u64,
}

/// The listed versions, with the time of each.
pub open spec fn version_infos(listed: Seq<(u64, i64)>) -> Seq<VersionInfo> {
    Seq::new(
        listed.len(),
        |i: int| VersionInfo { version: listed[i].0, timestamp_us: Some(listed[i].1) },
    )
}

/// Every listed version comes back at its place, with the number and the time
/// that the dataset reported; so one that was made by an instant, by that time,
/// existed then, and one that was made later did not.
pub proof fn the_history_is_what_was_listed(listed: Seq<(u64, i64)>, i: int, instant_ms: u64)
    requires
        0 <= i < listed.len(),
    ensures
        version_infos(listed).len() == listed.len(),
        version_infos(listed)[i].version == listed[i].0,
        version_infos(listed)[i].timestamp_us == Some(listed[i].1),
        existed_at(version_infos(listed)[i], instant_ms) <==> listed[i].1 <= 1000 * instant_ms,
{
}

impl Timeline {
    pub closed spec fn latest(&self) -> u64 {
        self.latest
    }

    /// The timeline of a dataset whose latest version is `latest`.
    pub fn new(latest: u64) -> (timeline: Self)
        ensures
            timeline.latest() == latest,
    {
        Timeline { latest }
    }

    /// The number of the latest version.
    pub fn latest_version(&self) -> (version: u64)
        ensures
            version == self.latest(),
    {
        self.latest
    }

    /// The version history, the oldest first, from what the dataset listed.
    pub fn versions(&self, listed: Result<Vec<(u64, i64)>, String>) -> (history: Result<
        Vec<VersionInfo>,
        Error,
    >)
        ensures
            match history {
                Ok(h) => {
                    &&& listed matches Ok(l) && h@ == version_infos(l@)
                    &&& h@.len() == listed->Ok_0@.len()
                    &&& forall|i: int|
                        0 <= i < h@.len() ==> (#[trigger] h@[i]).version == listed->Ok_0@[i].0
                            && h@[i].timestamp_us == Some(listed->Ok_0@[i].1)
                },
                Err(e) => listed matches Err(m) && e@ == ErrorView::Datastore(
                    "lance timeline versions: "@ + m@,
                ),
            },
    {
        match listed {
            Err(m) => Err(Error::Datastore(joined("lance timeline versions: ", m.as_str()))),
            Ok(l) => {
                let mut history: Vec<VersionInfo> = Vec::new();
                let mut i: usize = 0;
                while i < l.len()
                    invariant
                        i <= l@.len(),
                        history@ == version_infos(l@.take(i as int)),
                    decreases l@.len() - i,
                {
                    history.push(VersionInfo { version: l[i].0, timestamp_us: Some(l[i].1) });
                    i += 1;
                    proof {
                        assert(history@ =~= version_infos(l@.take(i as int)));
                    }
                }
                proof {
                    assert(l@.take(l@.len() as int) =~= l@);
                }
                Ok(history)
            },
        }
    }

    /// A view of the version, or the reason why it could not be checked out.
    pub fn view_at(&self, version: u64, checkout: Result<(), String>) -> (view: Result<
        TimelineView,
        Error,
    >)
        ensures
            match view {
                Ok(v) => checkout is Ok && v.pinned() == version,
                Err(e) => checkout matches Err(m) && e@ == ErrorView::Datastore(
                    "lance timeline checkout "@ + text::decimal(version as nat) + ": "@ + m@,
                ),
            },
    {
        match checkout {
            Ok(()) => Ok(TimelineView { version }),
            Err(m) => {
                let mut message = joined(
                    "lance timeline checkout ",
                    decimal_text(version).as_str(),
                );
                message.append(": ");
                message.append(m.as_str());
                Err(Error::Datastore(message))
            },
        }
    }

    /// A view of the latest version.
    pub fn view_latest(&self, checkout: Result<(), String>) -> (view: Result<TimelineView, Error>)
        ensures
            match view {
                Ok(v) => checkout is Ok && v.pinned() == self.latest(),
                Err(e) => checkout matches Err(m) && e@ == ErrorView::Datastore(
                    "lance timeline checkout "@ + text::decimal(self.latest() as nat) + ": "@ + m@,
                ),
            },
    {
        self.view_at(self.latest, checkout)
    }
}

/// The test for the rows of a key.
pub open spec fn has_key(k: Seq<u8>) -> spec_fn((Seq<u8>, Seq<u8>)) -> bool {
    |r: (Seq<u8>, Seq<u8>)| r.0 == k
}

/// The rows of a key.
pub open spec fn rows_of_key(
    rows: Seq<(Seq<u8>, Seq<u8>)>,
    k: Seq<u8>,
) -> Seq<(Seq<u8>, Seq<u8>)> {
    rows.filter(has_key(k))
}

/// `after` is `before` sorted by key, the rows of one key in their order.
pub open spec fn sorted_from(
    before: Seq<(Seq<u8>, Seq<u8>)>,
    after: Seq<(Seq<u8>, Seq<u8>)>,
) -> bool {
    &&& forall|i: int, j: int| 0 <= i < j < after.len() ==> order::key_le(after[i].0, after[j].0)
    &&& forall|k: Seq<u8>| #[trigger] rows_of_key(after, k) == rows_of_key(before, k)
}

/// `slice::sort_by_key` on the key of each pair: a stable sort. Keys are byte
/// vectors, which compare lexicographically.
#[verifier::external_body]
fn sort_by_key(pairs: &mut Vec<(Key, Val)>)
    ensures
        sorted_from(order::pair_views(old(pairs)@), order::pair_views(final(pairs)@)),
{
    pairs.sort_by_key(|pair| pair.0.clone());
}

proof fn lemma_filter_len<A>(s: Seq<A>, keep: spec_fn(A) -> bool, i: int, j: int)
    requires
        0 <= i < j < s.len(),
        keep(s[i]),
        keep(s[j]),
    ensures
        s.filter(keep).len() >= 2,
    decreases s.len(),
{
    reveal(Seq::filter);
    let rest = s.drop_last();
    if j < s.len() - 1 {
        lemma_filter_len(rest, keep, i, j);
    } else {
        lemma_filter_some(rest, keep, i);
    }
}

proof fn lemma_filter_some<A>(s: Seq<A>, keep: spec_fn(A) -> bool, i: int)
    requires
        0 <= i < s.len(),
        keep(s[i]),
    ensures
        s.filter(keep).len() >= 1,
        exists|j: int| 0 <= j < s.filter(keep).len() && s.filter(keep)[j] == s[i],
    decreases s.len(),
{
    reveal(Seq::filter);
    let rest = s.drop_last();
    if i < s.len() - 1 {
        lemma_filter_some(rest, keep, i);
        let j = choose|j: int| 0 <= j < rest.filter(keep).len() && rest.filter(keep)[j] == rest[i];
        assert(s.filter(keep)[j] == s[i]);
    } else {
        let f = s.filter(keep);
        assert(f[f.len() - 1] == s[i]);
    }
}

proof fn lemma_filter_none<A>(s: Seq<A>, keep: spec_fn(A) -> bool)
    requires
        forall|i: int| 0 <= i < s.len() ==> !keep(#[trigger] s[i]),
    ensures
        s.filter(keep) == Seq::<A>::empty(),
    decreases s.len(),
{
    reveal(Seq::filter);
    if s.len() > 0 {
        let rest = s.drop_last();
        assert forall|i: int| 0 <= i < rest.len() implies !keep(#[trigger] rest[i]) by {
            assert(rest[i] == s[i]);
        }
        lemma_filter_none(rest, keep);
    }
}

proof fn lemma_filter_one<A>(s: Seq<A>, keep: spec_fn(A) -> bool, at: int)
    requires
        0 <= at < s.len(),
        keep(s[at]),
        forall|i: int| 0 <= i < s.len() && i != at ==> !keep(#[trigger] s[i]),
    ensures
        s.filter(keep) == seq![s[at]],
    decreases s.len(),
{
    reveal(Seq::filter);
    let rest = s.drop_last();
    if at < s.len() - 1 {
        assert forall|i: int| 0 <= i < rest.len() && i != at implies !keep(#[trigger] rest[i]) by {
            assert(rest[i] == s[i]);
        }
        lemma_filter_one(rest, keep, at);
    } else {
        assert forall|i: int| 0 <= i < rest.len() implies !keep(#[trigger] rest[i]) by {
            assert(rest[i] == s[i]);
        }
        lemma_filter_none(rest, keep);
        assert(s.filter(keep) =~= seq![s[at]]);
    }
}

/// Where every live key has one row, a scan of a view lists the live rows in
/// ascending key order.
pub proof fn view_scan_is_the_listing(
    before: Seq<(Seq<u8>, Seq<u8>)>,
    after: Seq<(Seq<u8>, Seq<u8>)>,
    m: Map<Seq<u8>, Seq<u8>>,
)
    requires
        key_map::holds_each_once(before, m),
        sorted_from(before, after),
    ensures
        after == key_map::listing(m),
{
    assert forall|i: int, j: int| 0 <= i < j < after.len() implies order::key_lt(
        after[i].0,
        after[j].0,
    ) by {
        assert(order::key_le(after[i].0, after[j].0));
        if after[i].0 == after[j].0 {
            let k = after[i].0;
            let keep = has_key(k);
            lemma_filter_len(after, keep, i, j);
            assert(rows_of_key(after, k) == rows_of_key(before, k));
            lemma_at_most_one(before, k);
        }
    }
    assert(key_map::ascending(after));
    let found = key_map::row_map(after);
    assert forall|k: Seq<u8>| #[trigger] found.contains_key(k) == m.contains_key(k) by {
        let keep = has_key(k);
        assert(rows_of_key(after, k) == rows_of_key(before, k));
        if found.contains_key(k) {
            let i = choose|i: int| key_map::row_at(after, k, i);
            lemma_filter_some(after, keep, i);
            if !m.contains_key(k) {
                assert forall|j: int| 0 <= j < before.len() implies !keep(#[trigger] before[j]) by {
                    assert(m.contains_key(before[j].0));
                }
                lemma_filter_none(before, keep);
            }
        }
        if m.contains_key(k) {
            assert(key_map::has_row(before, k));
            let i = choose|i: int| key_map::row_at(before, k, i);
            lemma_filter_some(before, keep, i);
            if !found.contains_key(k) {
                assert forall|j: int| 0 <= j < after.len() implies !keep(#[trigger] after[j]) by {
                    if after[j].0 == k {
                        assert(key_map::row_at(after, k, j));
                    }
                }
                lemma_filter_none(after, keep);
            }
        }
    }
    assert forall|k: Seq<u8>| found.contains_key(k) implies #[trigger] found[k] == m[k] by {
        let keep = has_key(k);
        assert(rows_of_key(after, k) == rows_of_key(before, k));
        let i = choose|i: int| key_map::row_at(after, k, i);
        key_map::lemma_row(after, i);
        assert forall|j: int| 0 <= j < after.len() && j != i implies !keep(#[trigger] after[j]) by {
            order::key_lt_irreflexive(k);
            if j < i {
                assert(order::key_lt(after[j].0, after[i].0));
            } else {
                assert(order::key_lt(after[i].0, after[j].0));
            }
        }
        lemma_filter_one(after, keep, i);
        assert(m.contains_key(k));
        assert(key_map::has_row(before, k));
        let b = choose|b: int| key_map::row_at(before, k, b);
        assert forall|j: int| 0 <= j < before.len() && j != b implies !keep(
            #[trigger] before[j],
        ) by {
            if j < b {
                assert(before[j].0 != before[b].0);
            } else {
                assert(before[b].0 != before[j].0);
            }
        }
        lemma_filter_one(before, keep, b);
        assert(seq![after[i]][0] == seq![before[b]][0]);
    }
    assert(found =~= m);
    key_map::lemma_listing(after, m);
}

/// A scan of a view lists exactly what point reads of the view find. The
/// version holds one row of each key of `m`: its value, and whether it marks a
/// deletion. `scanned` are the batches of a scan of it, listed as `after`;
/// `point` are the batches of a read of `key`, which holds the live row of the
/// key, where there is one. Then the key stands in the listing exactly if the
/// read finds a value, and with that value; the keys ascend.
pub proof fn view_scan_lists_what_get_finds(
    m: Map<Seq<u8>, (Seq<u8>, bool)>,
    scanned: Seq<Batch>,
    after: Seq<(Seq<u8>, Seq<u8>)>,
    key: Seq<u8>,
    point: Seq<Batch>,
)
    requires
        rows::stored_rows(scanned) is Ok,
        key_map::holds_each_once(rows::stored_rows(scanned)->Ok_0, m),
        rows::live_pairs(scanned) is Ok,
        sorted_from(rows::live_pairs(scanned)->Ok_0, after),
        rows::marked_rows(point) == Ok::<Seq<(Seq<u8>, bool)>, Seq<char>>(
            if m.contains_key(key) && !m[key].1 {
                seq![m[key]]
            } else {
                Seq::empty()
            },
        ),
    ensures
        key_map::lists(after, rows::shown(m)),
        rows::view_val(point) is Ok,
        key_map::has_row(after, key) <==> rows::view_val(point)->Ok_0 is Some,
        forall|i: int| #[trigger]
            key_map::row_at(after, key, i) ==> rows::view_val(point)->Ok_0 == Some(after[i].1),
{
    let live = rows::shown(m);
    rows::lemma_live_pairs(scanned);
    rows::lemma_unmarked_each_once(rows::stored_rows(scanned)->Ok_0, m);
    key_map::lemma_each_once_len(rows::live_pairs(scanned)->Ok_0, live);
    view_scan_is_the_listing(rows::live_pairs(scanned)->Ok_0, after, live);
    key_map::listing_exists(live);
    rows::lemma_view_val(point);
    assert(key_map::row_map(after).contains_key(key) == live.contains_key(key));
    assert forall|i: int| #[trigger] key_map::row_at(after, key, i) implies rows::view_val(
        point,
    )->Ok_0 == Some(after[i].1) by {
        key_map::lemma_row(after, i);
        assert(live.contains_key(key));
    }
}

proof fn lemma_at_most_one(rows: Seq<(Seq<u8>, Seq<u8>)>, k: Seq<u8>)
    requires
        forall|i: int, j: int| 0 <= i < j < rows.len() ==> rows[i].0 != rows[j].0,
    ensures
        rows_of_key(rows, k).len() <= 1,
{
    let keep = has_key(k);
    if exists|i: int| 0 <= i < rows.len() && keep(#[trigger] rows[i]) {
        let i = choose|i: int| 0 <= i < rows.len() && keep(#[trigger] rows[i]);
        assert forall|j: int| 0 <= j < rows.len() && j != i implies !keep(#[trigger] rows[j]) by {
            if j < i {
                assert(rows[j].0 != rows[i].0);
            } else {
                assert(rows[i].0 != rows[j].0);
            }
        }
        lemma_filter_one(rows, keep, i);
    } else {
        lemma_filter_none(rows, keep);
    }
}

/// The rows of the dataset as they stood at one version.
#[derive(Debug)]
pub struct TimelineView {
    version: u64,
}

impl TimelineView {
    /// The number of the version that the view is pinned to.
    pub closed spec fn pinned(&self) -> u64 {
        self.version
    }

    pub fn version(&self) -> (version: u64)
        ensures
            version == self.pinned(),
    {
        self.version
    }

    /// The scan that a read of `key` needs.
    pub fn get_plan(&self, key: &Key) -> (plan: ScanPlan)
        ensures
            plan.snapshot == Snapshot::Version(self.pinned()),
            plan.filter matches Some(f) && f@ == schema::get_predicate(key@),
            plan.columns@ == seq!["val", "tombstone"],
            plan.limit == Some(1u64),
            plan.direction is None,
    {
        let mut columns: Vec<&'static str> = Vec::new();
        columns.push("val");
        columns.push("tombstone");
        proof {
            assert(columns@ =~= seq!["val", "tombstone"]);
        }
        ScanPlan {
            snapshot: Snapshot::Version(self.version),
            filter: Some(KvSchema::build_get_predicate(key)),
            columns,
            limit: Some(1),
            direction: None,
        }
    }

    /// The value of a key at this version, from the batches of
    /// [`Self::get_plan`]; none where the key was deleted.
    pub fn get(&self, batches: &Vec<Batch>) -> (value: Result<Option<Val>, Error>)
        ensures
            transaction::read_view(value) == (match rows::view_val(batches@) {
                Ok(v) => Ok::<Option<Seq<u8>>, ErrorView>(v),
                Err(m) => Err(ErrorView::Datastore(m)),
            }),
    {
        view_value(batches)
    }

    /// The scan that [`Self::scan`] needs.
    pub fn scan_plan(&self) -> (plan: ScanPlan)
        ensures
            plan.snapshot == Snapshot::Version(self.pinned()),
            plan.filter is None,
            plan.columns@ == seq!["key", "val", "tombstone"],
            plan.limit is None,
            plan.direction is None,
    {
        let mut columns: Vec<&'static str> = Vec::new();
        columns.push("key");
        columns.push("val");
        columns.push("tombstone");
        proof {
            assert(columns@ =~= seq!["key", "val", "tombstone"]);
        }
        ScanPlan {
            snapshot: Snapshot::Version(self.version),
            filter: None,
            columns,
            limit: None,
            direction: None,
        }
    }

    /// All live rows at this version by ascending key, from the batches of
    /// [`Self::scan_plan`].
    pub fn scan(&self, batches: &Vec<Batch>) -> (out: Result<Vec<(Key, Val)>, Error>)
        ensures
            match out {
                Ok(pairs) => rows::live_pairs(batches@) is Ok && sorted_from(
                    rows::live_pairs(batches@)->Ok_0,
                    order::pair_views(pairs@),
                ),
                Err(e) => rows::live_pairs(batches@) is Err && e@ == ErrorView::Datastore(
                    rows::live_pairs(batches@)->Err_0,
                ),
            },
    {
        match live_scan(batches) {
            Ok(found) => {
                let mut pairs = found;
                sort_by_key(&mut pairs);
                Ok(pairs)
            },
            Err(e) => Err(e),
        }
    }
}

} // verus!
