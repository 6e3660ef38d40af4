//! The commit gate: concurrent commits go into the dataset together.
//!
//! A coordinator gathers the commits that arrive within a short window and
//! applies them as one merge, so that they share one version of the dataset.
//! Where two of them touch one key, the later one stands.

use vstd::prelude::*;

use crate::kvs::err;
use crate::kvs::err::{Error, ErrorView};
use crate::kvs::key_map;
use crate::kvs::key_map::KeyMap;
use crate::kvs::lance::columns;
use crate::kvs::lance::columns::Batch;
use crate::kvs::lance::schema;
use crate::kvs::lance::schema::KvSchema;
use crate::kvs::lance::tx_buffer;
use crate::kvs::lance::tx_buffer::{dead_keys, live_rows, PendingEntry};
use crate::kvs::order;
use crate::kvs::order::{Key, Val};
use crate::text::joined;

verus! {

/// How long the coordinator waits for more commits after the first, in
/// microseconds.
pub const BATCH_WINDOW_MICROS: u64 = 500;

/// How many commits go into one batch at most.
pub const MAX_BATCH_SIZE: usize = 64;

/// How many commits may wait for the coordinator.
pub const CHANNEL_CAPACITY: usize = 256;

/// One transaction's commit.
#[derive(Debug)]
pub struct Submission {
    pub writes: Vec<(Key, Val)>,
    pub deletes: Vec<Key>,
    /// The version to stamp on the rows.
    pub version: u64,
}

/// What a [`Submission`] says.
pub struct SubmissionView {
    pub writes: Seq<(Seq<u8>, Seq<u8>)>,
    pub deletes: Seq<Seq<u8>>,
    pub version: u64,
}

impl View for Submission {
    type V = SubmissionView;

    open spec fn view(&self) -> SubmissionView {
        SubmissionView {
            writes: order::pair_views(self.writes@),
            deletes: order::key_views(self.deletes@),
            version: self.version,
        }
    }
}

/// The views of a vector of submissions.
pub open spec fn submission_views(batch: Seq<Submission>) -> Seq<SubmissionView> {
    Seq::new(batch.len(), |i: int| batch[i]@)
}

/// `m` with the writes laid over it, one after the other.
pub open spec fn with_writes(
    m: Map<Seq<u8>, Option<Seq<u8>>>,
    writes: Seq<(Seq<u8>, Seq<u8>)>,
) -> Map<Seq<u8>, Option<Seq<u8>>>
    decreases writes.len(),
{
    if writes.len() == 0 {
        m
    } else {
        with_writes(m, writes.drop_last()).insert(writes.last().0, Some(writes.last().1))
    }
}

/// `m` with the deletions laid over it.
pub open spec fn with_deletes(
    m: Map<Seq<u8>, Option<Seq<u8>>>,
    deletes: Seq<Seq<u8>>,
) -> Map<Seq<u8>, Option<Seq<u8>>>
    decreases deletes.len(),
{
    if deletes.len() == 0 {
        m
    } else {
        with_deletes(m, deletes.drop_last()).insert(deletes.last(), None)
    }
}

/// What the commits of a batch make of each key that they touch, in the order
/// in which they were submitted.
pub open spec fn coalesced(batch: Seq<SubmissionView>) -> Map<Seq<u8>, Option<Seq<u8>>>
    decreases batch.len(),
{
    if batch.len() == 0 {
        Map::empty()
    } else {
        with_deletes(
            with_writes(coalesced(batch.drop_last()), batch.last().writes),
            batch.last().deletes,
        )
    }
}

/// The largest version of a batch, 0 where it is empty.
pub open spec fn max_version(batch: Seq<SubmissionView>) -> u64
    decreases batch.len(),
{
    if batch.len() == 0 {
        0
    } else if batch.last().version > max_version(batch.drop_last()) {
        batch.last().version
    } else {
        max_version(batch.drop_last())
    }
}

/// What became of a batch.
#[derive(Debug)]
pub enum BatchOutcome {
    Landed,
    Conflict(String),
    Datastore(String),
}

/// What a [`BatchOutcome`] says.
pub enum OutcomeView {
    Landed,
    Conflict(Seq<char>),
    Datastore(Seq<char>),
}

impl View for BatchOutcome {
    type V = OutcomeView;

    open spec fn view(&self) -> OutcomeView {
        match *self {
            BatchOutcome::Landed => OutcomeView::Landed,
            BatchOutcome::Conflict(s) => OutcomeView::Conflict(s@),
            BatchOutcome::Datastore(s) => OutcomeView::Datastore(s@),
        }
    }
}

impl Clone for BatchOutcome {
    fn clone(&self) -> (copy: Self)
        ensures
            copy@ == self@,
    {
        match self {
            BatchOutcome::Landed => BatchOutcome::Landed,
            BatchOutcome::Conflict(s) => BatchOutcome::Conflict(s.clone()),
            BatchOutcome::Datastore(s) => BatchOutcome::Datastore(s.clone()),
        }
    }
}

/// An error as an outcome: a conflict stays one, so that its commit may be
/// tried again, and anything else is a failure of the store.
pub open spec fn outcome_of_error(e: ErrorView) -> OutcomeView {
    match e {
        ErrorView::TransactionConflict(s) => OutcomeView::Conflict(s),
        other => OutcomeView::Datastore(err::error_text(other)),
    }
}

/// An outcome as each of the batch's commits reports it.
pub open spec fn reported(outcome: OutcomeView) -> Result<(), ErrorView> {
    match outcome {
        OutcomeView::Landed => Ok(()),
        OutcomeView::Conflict(s) => Err(ErrorView::TransactionConflict(s)),
        OutcomeView::Datastore(s) => Err(ErrorView::Datastore(s)),
    }
}

impl BatchOutcome {
    pub fn from_err(e: &Error) -> (outcome: Self)
        ensures
            outcome@ == outcome_of_error(e@),
    {
        match e {
            Error::TransactionConflict(s) => BatchOutcome::Conflict(s.clone()),
            other => BatchOutcome::Datastore(other.message()),
        }
    }

    pub fn into_result(self) -> (r: Result<(), Error>)
        ensures
            match r {
                Ok(()) => reported(self@) == Ok::<(), ErrorView>(()),
                Err(e) => reported(self@) == Err::<(), ErrorView>(e@),
            },
    {
        match self {
            BatchOutcome::Landed => Ok(()),
            BatchOutcome::Conflict(s) => Err(Error::TransactionConflict(s)),
            BatchOutcome::Datastore(s) => Err(Error::Datastore(s)),
        }
    }

    /// The outcome of the merge of a batch.
    pub fn of_merge(merged: &Result<(), Error>) -> (outcome: Self)
        ensures
            outcome@ == (match *merged {
                Ok(()) => OutcomeView::Landed,
                Err(e) => outcome_of_error(e@),
            }),
    {
        match merged {
            Ok(()) => BatchOutcome::Landed,
            Err(e) => BatchOutcome::from_err(e),
        }
    }
}

/// A conflict is reported as one, and may be tried again.
pub proof fn conflicts_stay_retryable(s: Seq<char>)
    ensures
        reported(outcome_of_error(ErrorView::TransactionConflict(s))) == Err::<(), ErrorView>(
            ErrorView::TransactionConflict(s),
        ),
{
}

/// How the coordinator answered a commit.
#[derive(Debug)]
pub enum GateReply {
    /// The coordinator takes no more commits.
    Closed,
    /// The coordinator went away without an answer.
    Dropped,
    Answered(BatchOutcome),
}

/// What a commit reports for the coordinator's answer.
pub fn settle(reply: GateReply) -> (r: Result<(), Error>)
    ensures
        match r {
            Ok(()) => reply matches GateReply::Answered(o) && reported(o@) == Ok::<
                (),
                ErrorView,
            >(()),
            Err(e) => match reply {
                GateReply::Closed => e@ == ErrorView::Datastore(
                    "commit gate coordinator shut down"@,
                ),
                GateReply::Dropped => e@ == ErrorView::Datastore(
                    "commit gate coordinator dropped reply"@,
                ),
                GateReply::Answered(o) => reported(o@) == Err::<(), ErrorView>(e@),
            },
        },
{
    match reply {
        GateReply::Closed => Err(Error::datastore("commit gate coordinator shut down")),
        GateReply::Dropped => Err(Error::datastore("commit gate coordinator dropped reply")),
        GateReply::Answered(outcome) => outcome.into_result(),
    }
}

/// Whether a commit has anything to submit.
pub fn needs_gate(writes: &Vec<(Key, Val)>, deletes: &Vec<Key>) -> (needed: bool)
    ensures
        needed == (writes@.len() > 0 || deletes@.len() > 0),
{
    writes.len() > 0 || deletes.len() > 0
}

/// A batch, ready to be merged into the dataset.
#[derive(Debug)]
pub struct MergeSource {
    pub writes: Vec<(Key, Val)>,
    pub write_seqs: Vec<u64>,
    pub deletes: Vec<Key>,
    pub delete_seqs: Vec<u64>,
    pub version: u64,
}

fn lay_submission(merged: &mut KeyMap<PendingEntry>, sub: Submission)
    requires
        old(merged).wf(),
    ensures
        final(merged).wf(),
        final(merged)@ == with_deletes(with_writes(old(merged)@, sub@.writes), sub@.deletes),
{
    let ghost base = merged@;
    let ghost writes = sub@.writes;
    let ghost deletes = sub@.deletes;
    let mut i: usize = 0;
    while i < sub.writes.len()
        invariant
            i <= sub.writes@.len(),
            writes == order::pair_views(sub.writes@),
            merged.wf(),
            merged@ == with_writes(base, writes.take(i as int)),
        decreases sub.writes@.len() - i,
    {
        proof {
            assert(writes.take(i + 1).drop_last() =~= writes.take(i as int));
            assert(writes.take(i + 1).last() == writes[i as int]);
        }
        merged.insert(
            order::copy_bytes(&sub.writes[i].0),
            PendingEntry::Write(order::copy_bytes(&sub.writes[i].1)),
        );
        i += 1;
    }
    proof {
        assert(writes.take(writes.len() as int) =~= writes);
    }
    let ghost written = merged@;
    let mut j: usize = 0;
    while j < sub.deletes.len()
        invariant
            j <= sub.deletes@.len(),
            deletes == order::key_views(sub.deletes@),
            merged.wf(),
            merged@ == with_deletes(written, deletes.take(j as int)),
        decreases sub.deletes@.len() - j,
    {
        proof {
            assert(deletes.take(j + 1).drop_last() =~= deletes.take(j as int));
            assert(deletes.take(j + 1).last() == deletes[j as int]);
        }
        merged.insert(order::copy_bytes(&sub.deletes[j]), PendingEntry::Delete);
        j += 1;
    }
    proof {
        assert(deletes.take(deletes.len() as int) =~= deletes);
    }
}

/// Coalesces a batch: for each key that it touches, the last operation stands,
/// and all rows carry the largest version of the batch.
pub fn execute_batch(batch: Vec<Submission>) -> (source: MergeSource)
    ensures
        key_map::lists(
            order::pair_views(source.writes@),
            tx_buffer::live(coalesced(submission_views(batch@))),
        ),
        key_map::lists_keys(
            order::key_views(source.deletes@),
            tx_buffer::dead(coalesced(submission_views(batch@))),
        ),
        source.version == max_version(submission_views(batch@)),
        source.write_seqs@ == Seq::new(source.writes@.len(), |i: int| source.version),
        source.delete_seqs@ == Seq::new(source.deletes@.len(), |i: int| source.version),
{
    let ghost all = batch@;
    let ghost views = submission_views(batch@);
    let mut rest = batch;
    let mut turned: Vec<Submission> = Vec::new();
    while rest.len() > 0
        invariant
            rest@ == all.take(rest@.len() as int),
            rest@.len() + turned@.len() == all.len(),
            forall|i: int| 0 <= i < turned@.len() ==> turned@[i] == all[all.len() - 1 - i],
        decreases rest.len(),
    {
        match rest.pop() {
            Some(s) => {
                turned.push(s);
            },
            None => {},
        }
    }
    let mut merged: KeyMap<PendingEntry> = KeyMap::new();
    let mut version: u64 = 0;
    let ghost mut done: int = 0;
    while turned.len() > 0
        invariant
            views == submission_views(all),
            0 <= done,
            done + turned@.len() == all.len(),
            forall|i: int| 0 <= i < turned@.len() ==> turned@[i] == all[all.len() - 1 - i],
            merged.wf(),
            merged@ == coalesced(views.take(done)),
            version == max_version(views.take(done)),
        decreases turned.len(),
    {
        proof {
            assert(turned@[turned@.len() - 1] == all[done]);
            assert(views.take(done + 1).drop_last() =~= views.take(done));
            assert(views.take(done + 1).last() == views[done]);
        }
        match turned.pop() {
            Some(sub) => {
                if sub.version > version {
                    version = sub.version;
                }
                lay_submission(&mut merged, sub);
                proof {
                    done = done + 1;
                }
            },
            None => {},
        }
    }
    proof {
        assert(views.take(views.len() as int) =~= views);
    }
    let writes = live_rows(&merged);
    let deletes = dead_keys(&merged);
    let write_seqs: Vec<u64> = vec![version; writes.len()];
    let delete_seqs: Vec<u64> = vec![version; deletes.len()];
    proof {
        assert(write_seqs@ =~= Seq::new(writes@.len(), |i: int| version));
        assert(delete_seqs@ =~= Seq::new(deletes@.len(), |i: int| version));
    }
    MergeSource { writes, write_seqs, deletes, delete_seqs, version }
}

/// The source's bytes fit the batches that are made of it.
pub open spec fn within_limits(source: MergeSource) -> bool {
    &&& columns::total_bytes(schema::pair_keys(source.writes@)) <= i32::MAX
    &&& columns::total_bytes(schema::pair_vals(source.writes@)) <= i32::MAX
    &&& columns::total_bytes(order::key_views(source.deletes@)) <= i32::MAX
}

proof fn lemma_part_of_total(values: Seq<Seq<u8>>, i: int)
    requires
        0 <= i <= values.len(),
    ensures
        columns::total_bytes(values.take(i)) <= columns::total_bytes(values),
    decreases values.len() - i,
{
    if i < values.len() {
        lemma_part_of_total(values, i + 1);
        assert(values.take(i + 1).drop_last() =~= values.take(i));
    } else {
        assert(values.take(i) =~= values);
    }
}

impl MergeSource {
    /// Whether the source's bytes fit the batches that are made of it.
    pub fn fits(&self) -> (fits: bool)
        ensures
            fits == within_limits(*self),
    {
        let ghost keys = schema::pair_keys(self.writes@);
        let ghost vals = schema::pair_vals(self.writes@);
        let ghost dead = order::key_views(self.deletes@);
        let most: usize = i32::MAX as usize;
        let mut key_bytes: usize = 0;
        let mut val_bytes: usize = 0;
        let mut i: usize = 0;
        while i < self.writes.len()
            invariant
                i <= self.writes@.len(),
                most == i32::MAX,
                keys == schema::pair_keys(self.writes@),
                vals == schema::pair_vals(self.writes@),
                key_bytes == columns::total_bytes(keys.take(i as int)),
                val_bytes == columns::total_bytes(vals.take(i as int)),
                key_bytes <= most,
                val_bytes <= most,
            decreases self.writes@.len() - i,
        {
            proof {
                assert(keys.take(i + 1).drop_last() =~= keys.take(i as int));
                assert(vals.take(i + 1).drop_last() =~= vals.take(i as int));
                lemma_part_of_total(keys, i + 1);
                lemma_part_of_total(vals, i + 1);
            }
            if self.writes[i].0.len() > most - key_bytes || self.writes[i].1.len() > most
                - val_bytes {
                return false;
            }
            key_bytes += self.writes[i].0.len();
            val_bytes += self.writes[i].1.len();
            i += 1;
        }
        let mut dead_bytes: usize = 0;
        let mut i: usize = 0;
        while i < self.deletes.len()
            invariant
                i <= self.deletes@.len(),
                most == i32::MAX,
                dead == order::key_views(self.deletes@),
                dead_bytes == columns::total_bytes(dead.take(i as int)),
                dead_bytes <= most,
            decreases self.deletes@.len() - i,
        {
            proof {
                assert(dead.take(i + 1).drop_last() =~= dead.take(i as int));
                lemma_part_of_total(dead, i + 1);
            }
            if self.deletes[i].len() > most - dead_bytes {
                return false;
            }
            dead_bytes += self.deletes[i].len();
            i += 1;
        }
        proof {
            assert(keys.take(keys.len() as int) =~= keys);
            assert(vals.take(vals.len() as int) =~= vals);
            assert(dead.take(dead.len() as int) =~= dead);
        }
        true
    }
}

/// The record batches of one merge: the live rows, and behind them the
/// deletion marks. One merge takes both, so that the commit is one version of
/// the dataset. An empty source has no batches, and nothing is to be merged.
pub fn single_lance_commit(source: &MergeSource) -> (batches: Result<Vec<Batch>, Error>)
    requires
        within_limits(*source),
    ensures
        match batches {
            Ok(b) => {
                &&& source.writes@.len() > 0 ==> source.write_seqs@.len() == source.writes@.len()
                &&& source.deletes@.len() > 0 ==> source.delete_seqs@.len()
                    == source.deletes@.len()
                &&& b@.len() == (if source.writes@.len() > 0 {
                    1int
                } else {
                    0
                }) + (if source.deletes@.len() > 0 {
                    1int
                } else {
                    0
                })
                &&& source.writes@.len() > 0 ==> columns::batch_rows(b@[0])
                    == source.writes@.len() && columns::batch_columns(b@[0])
                    == schema::dataset_columns(
                    schema::pair_keys(source.writes@),
                    schema::pair_vals(source.writes@),
                    source.version,
                    false,
                    source.write_seqs@,
                )
                &&& source.deletes@.len() > 0 ==> columns::batch_rows(b@.last())
                    == source.deletes@.len() && columns::batch_columns(b@.last())
                    == schema::dataset_columns(
                    order::key_views(source.deletes@),
                    schema::no_vals(source.deletes@.len()),
                    source.version,
                    true,
                    source.delete_seqs@,
                )
            },
            Err(e) => if source.writes@.len() > 0 && source.writes@.len()
                != source.write_seqs@.len() {
                e@ == ErrorView::Datastore(
                    "lance build batch: "@ + ("Invalid argument error: "@ + schema::not_parallel(
                        "build_write_batch_lance"@,
                        source.write_seqs@.len(),
                        "writes"@,
                        source.writes@.len(),
                    )),
                )
            } else {
                &&& source.deletes@.len() > 0
                &&& source.deletes@.len() != source.delete_seqs@.len()
                &&& e@ == ErrorView::Datastore(
                    "lance build tombstones: "@ + ("Invalid argument error: "@
                        + schema::not_parallel(
                        "build_tombstone_batch_lance"@,
                        source.delete_seqs@.len(),
                        "deletes"@,
                        source.deletes@.len(),
                    )),
                )
            },
        },
{
    let mut batches: Vec<Batch> = Vec::new();
    if source.writes.len() > 0 {
        match KvSchema::build_write_batch_lance(
            source.writes.as_slice(),
            source.version,
            source.write_seqs.as_slice(),
        ) {
            Ok(b) => {
                batches.push(b);
            },
            Err(e) => {
                return Err(Error::Datastore(joined("lance build batch: ", e.message().as_str())));
            },
        }
    }
    if source.deletes.len() > 0 {
        match KvSchema::build_tombstone_batch_lance(
            source.deletes.as_slice(),
            source.version,
            source.delete_seqs.as_slice(),
        ) {
            Ok(b) => {
                batches.push(b);
            },
            Err(e) => {
                return Err(
                    Error::Datastore(joined("lance build tombstones: ", e.message().as_str())),
                );
            },
        }
    }
    Ok(batches)
}

/// What the coordinator hears.
#[derive(Debug)]
pub enum GateEvent {
    /// A request to shut down.
    Shutdown,
    Submitted(Submission),
    /// No submission will come any more.
    Closed,
    /// The batch window has passed.
    WindowExpired,
}

/// What the coordinator does next.
#[derive(Debug)]
pub enum GateAction {
    /// Wait for the first submission of a batch, and, where asked, for the
    /// shutdown signal.
    AwaitFirst { watch_shutdown: bool },
    /// Refuse new submissions; those that wait already still come.
    CloseSubmissions,
    /// Wait for more submissions until the window has passed.
    AwaitMore,
    /// Merge the batch and answer its submitters.
    Execute(Vec<Submission>),
    Exit,
}

/// The state of the coordinator.
#[derive(Debug)]
pub struct Coordinator {
    shutting_down: bool,
    batch: Vec<Submission>,
}

/// What a [`Coordinator`] has in hand.
pub struct CoordinatorView {
    pub shutting_down: bool,
    pub batch: Seq<SubmissionView>,
}

impl View for Coordinator {
    type V = CoordinatorView;

    closed spec fn view(&self) -> CoordinatorView {
        CoordinatorView {
            shutting_down: self.shutting_down,
            batch: submission_views(self.batch@),
        }
    }
}

/// What a [`GateEvent`] says.
pub enum EventView {
    Shutdown,
    Submitted(SubmissionView),
    Closed,
    WindowExpired,
}

impl View for GateEvent {
    type V = EventView;

    open spec fn view(&self) -> EventView {
        match *self {
            GateEvent::Shutdown => EventView::Shutdown,
            GateEvent::Submitted(s) => EventView::Submitted(s@),
            GateEvent::Closed => EventView::Closed,
            GateEvent::WindowExpired => EventView::WindowExpired,
        }
    }
}

/// What a [`GateAction`] says.
pub enum ActionView {
    AwaitFirst { watch_shutdown: bool },
    CloseSubmissions,
    AwaitMore,
    Execute(Seq<SubmissionView>),
    Exit,
}

impl View for GateAction {
    type V = ActionView;

    open spec fn view(&self) -> ActionView {
        match *self {
            GateAction::AwaitFirst { watch_shutdown } => ActionView::AwaitFirst { watch_shutdown },
            GateAction::CloseSubmissions => ActionView::CloseSubmissions,
            GateAction::AwaitMore => ActionView::AwaitMore,
            GateAction::Execute(b) => ActionView::Execute(submission_views(b@)),
            GateAction::Exit => ActionView::Exit,
        }
    }
}

/// The coordinator's next state and action. An open batch closes when it is
/// full, when its window has passed, or when no submission will come any more.
/// Between batches a shutdown signal ends the intake of submissions, and
/// the coordinator leaves when none is left.
pub open spec fn gate_step(state: CoordinatorView, event: EventView) -> (
    CoordinatorView,
    ActionView,
) {
    let open = state.batch.len() > 0;
    let idle = CoordinatorView { batch: Seq::empty(), ..state };
    match event {
        EventView::Submitted(s) => {
            let batch = state.batch.push(s);
            if batch.len() >= MAX_BATCH_SIZE {
                (idle, ActionView::Execute(batch))
            } else {
                (CoordinatorView { batch, ..state }, ActionView::AwaitMore)
            }
        },
        EventView::Shutdown => if open {
            (state, ActionView::AwaitMore)
        } else if state.shutting_down {
            (state, ActionView::AwaitFirst { watch_shutdown: false })
        } else {
            (CoordinatorView { shutting_down: true, ..state }, ActionView::CloseSubmissions)
        },
        EventView::Closed => if open {
            (idle, ActionView::Execute(state.batch))
        } else {
            (state, ActionView::Exit)
        },
        EventView::WindowExpired => if open {
            (idle, ActionView::Execute(state.batch))
        } else {
            (state, ActionView::AwaitFirst { watch_shutdown: !state.shutting_down })
        },
    }
}

/// The submissions of an action that executes a batch.
pub open spec fn executed(action: ActionView) -> Seq<SubmissionView> {
    match action {
        ActionView::Execute(batch) => batch,
        _ => Seq::empty(),
    }
}

/// The submission that an event brings.
pub open spec fn brought(event: EventView) -> Seq<SubmissionView> {
    match event {
        EventView::Submitted(s) => seq![s],
        _ => Seq::empty(),
    }
}

/// No submission is lost, repeated or taken out of order: what the coordinator
/// had in hand and what came is what it executes and what it still has. It
/// never has a full batch in hand, never executes more than one batch's worth
/// or an empty batch, and leaves with nothing in hand.
pub proof fn gate_loses_nothing(state: CoordinatorView, event: EventView)
    requires
        state.batch.len() < MAX_BATCH_SIZE,
    ensures
        state.batch + brought(event) == executed(gate_step(state, event).1) + gate_step(
            state,
            event,
        ).0.batch,
        gate_step(state, event).0.batch.len() < MAX_BATCH_SIZE,
        gate_step(state, event).1 matches ActionView::Execute(b) ==> 0 < b.len()
            <= MAX_BATCH_SIZE,
        gate_step(state, event).1 is Exit ==> gate_step(state, event).0.batch.len() == 0,
        state.shutting_down ==> gate_step(state, event).0.shutting_down,
{
    let next = gate_step(state, event);
    assert(state.batch + brought(event) =~= executed(next.1) + next.0.batch);
}

impl Coordinator {
    pub fn new() -> (c: Self)
        ensures
            c@ == (CoordinatorView { shutting_down: false, batch: Seq::empty() }),
    {
        let c = Coordinator { shutting_down: false, batch: Vec::new() };
        proof {
            assert(c@.batch =~= Seq::empty());
        }
        c
    }

    /// What to wait for between two batches.
    pub fn between_batches(&self) -> (action: GateAction)
        ensures
            action@ == (ActionView::AwaitFirst { watch_shutdown: !self@.shutting_down }),
    {
        GateAction::AwaitFirst { watch_shutdown: !self.shutting_down }
    }

    /// Takes one event and says what to do next.
    pub fn step(&mut self, event: GateEvent) -> (action: GateAction)
        ensures
            (final(self)@, action@) == gate_step(old(self)@, event@),
    {
        let ghost before = self@;
        match event {
            GateEvent::Submitted(s) => {
                let ghost sub = s@;
                self.batch.push(s);
                proof {
                    assert(submission_views(self.batch@) =~= before.batch.push(sub));
                }
                if self.batch.len() >= MAX_BATCH_SIZE {
                    self.take_batch()
                } else {
                    GateAction::AwaitMore
                }
            },
            GateEvent::Shutdown => if self.batch.len() > 0 {
                GateAction::AwaitMore
            } else if self.shutting_down {
                GateAction::AwaitFirst { watch_shutdown: false }
            } else {
                self.shutting_down = true;
                GateAction::CloseSubmissions
            },
            GateEvent::Closed => if self.batch.len() > 0 {
                self.take_batch()
            } else {
                GateAction::Exit
            },
            GateEvent::WindowExpired => if self.batch.len() > 0 {
                self.take_batch()
            } else {
                GateAction::AwaitFirst { watch_shutdown: !self.shutting_down }
            },
        }
    }

    fn take_batch(&mut self) -> (action: GateAction)
        ensures
            final(self)@ == (CoordinatorView { batch: Seq::empty(), ..old(self)@ }),
            action@ == ActionView::Execute(old(self)@.batch),
    {
        let mut batch: Vec<Submission> = Vec::new();
        std::mem::swap(&mut batch, &mut self.batch);
        proof {
            assert(self@.batch =~= Seq::empty());
        }
        GateAction::Execute(batch)
    }
}

} // verus!
