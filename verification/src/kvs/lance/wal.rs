//! The write-ahead log.
//!
//! The log is a sequence of frames. A frame is the length of its body, as four
//! bytes with the lowest first, followed by the body, which is one encoded
//! record. A crash can leave the last frame incomplete: its commit was never
//! acknowledged, a replay drops it, and the next append takes its place.

use vstd::prelude::*;

use crate::kvs::err::{Error, ErrorView};
use crate::kvs::order;
use crate::kvs::order::{Key, Val};
use crate::text;
use crate::text::{decimal_text, joined};

verus! {

/// The name of the log file in the dataset's directory.
pub const FILE_NAME: &'static str = "kvs_lance.wal";

/// One operation of a record.
#[derive(Debug)]
pub enum WalOp {
    Write { key: Key, val: Val },
    Delete { key: Key },
}

/// The operations of one committed transaction.
#[derive(Debug)]
pub struct WalRecord {
    /// The commit order.
    pub generation: u64,
    pub ops: Vec<WalOp>,
}

impl View for WalOp {
    type V = (Seq<u8>, Option<Seq<u8>>);

    /// The key, and its new value, none for a deletion.
    open spec fn view(&self) -> (Seq<u8>, Option<Seq<u8>>) {
        match *self {
            WalOp::Write { key, val } => (key@, Some(val@)),
            WalOp::Delete { key } => (key@, None),
        }
    }
}

/// What a [`WalRecord`] says.
pub struct RecordView {
    pub generation: u64,
    pub ops: Seq<(Seq<u8>, Option<Seq<u8>>)>,
}

/// The views of a vector of operations.
pub open spec fn op_views(ops: Seq<WalOp>) -> Seq<(Seq<u8>, Option<Seq<u8>>)> {
    Seq::new(ops.len(), |i: int| ops[i]@)
}

impl View for WalRecord {
    type V = RecordView;

    open spec fn view(&self) -> RecordView {
        RecordView { generation: self.generation, ops: op_views(self.ops@) }
    }
}

/// The views of a vector of records.
pub open spec fn record_views(records: Seq<WalRecord>) -> Seq<RecordView> {
    Seq::new(records.len(), |i: int| records[i]@)
}

/// A number as four bytes, the lowest first.
pub open spec fn le32(n: nat) -> Seq<u8> {
    seq![
        (n % 256) as u8,
        (n / 256 % 256) as u8,
        (n / 65536 % 256) as u8,
        (n / 16777216 % 256) as u8,
    ]
}

/// The number that the first four bytes stand for.
pub open spec fn le32_value(b: Seq<u8>) -> nat {
    (b[0] + 256 * b[1] + 65536 * b[2] + 16777216 * b[3]) as nat
}

/// A frame.
pub open spec fn frame(body: Seq<u8>) -> Seq<u8> {
    le32(body.len()) + body
}

/// A body whose length fits the frame's header.
pub open spec fn frameable(body: Seq<u8>) -> bool {
    body.len() <= u32::MAX
}

/// The log that holds exactly these bodies.
pub open spec fn image(bodies: Seq<Seq<u8>>) -> Seq<u8>
    decreases bodies.len(),
{
    if bodies.len() == 0 {
        Seq::empty()
    } else {
        frame(bodies[0]) + image(bodies.drop_first())
    }
}

/// The bodies of the complete frames at the start of a log.
pub open spec fn replayed(log: Seq<u8>) -> Seq<Seq<u8>>
    decreases log.len(),
{
    if log.len() < 4 {
        Seq::empty()
    } else {
        let n = le32_value(log);
        if log.len() < 4 + n {
            Seq::empty()
        } else {
            seq![log.subrange(4, 4 + n as int)] + replayed(log.skip(4 + n as int))
        }
    }
}

/// How many bytes the complete frames at the start of a log take.
pub open spec fn complete_len(log: Seq<u8>) -> nat
    decreases log.len(),
{
    if log.len() < 4 {
        0
    } else {
        let n = le32_value(log);
        if log.len() < 4 + n {
            0
        } else {
            4 + n + complete_len(log.skip(4 + n as int))
        }
    }
}

/// The records of generation `min` or above.
pub open spec fn retained(records: Seq<RecordView>, min: u64) -> Seq<RecordView> {
    records.filter(|r: RecordView| r.generation >= min)
}

proof fn lemma_le32(n: nat)
    requires
        n <= u32::MAX,
    ensures
        le32_value(le32(n)) == n,
{
    assert(n == n % 256 + 256 * (n / 256 % 256) + 65536 * (n / 65536 % 256) + 16777216 * (n
        / 16777216 % 256));
}

proof fn lemma_frame_header(body: Seq<u8>, rest: Seq<u8>)
    requires
        frameable(body),
    ensures
        le32_value(frame(body) + rest) == body.len(),
        (frame(body) + rest).subrange(4, 4 + body.len() as int) == body,
        (frame(body) + rest).skip(4 + body.len() as int) == rest,
{
    lemma_le32(body.len());
    let log = frame(body) + rest;
    assert(log[0] == le32(body.len())[0]);
    assert(log[1] == le32(body.len())[1]);
    assert(log[2] == le32(body.len())[2]);
    assert(log[3] == le32(body.len())[3]);
    assert(log.subrange(4, 4 + body.len() as int) =~= body);
    assert(log.skip(4 + body.len() as int) =~= rest);
}

/// Complete frames replay to their bodies, whatever follows them.
pub proof fn replay_passes_frames(bodies: Seq<Seq<u8>>, tail: Seq<u8>)
    requires
        forall|i: int| 0 <= i < bodies.len() ==> frameable(#[trigger] bodies[i]),
    ensures
        replayed(image(bodies) + tail) == bodies + replayed(tail),
    decreases bodies.len(),
{
    if bodies.len() == 0 {
        assert(image(bodies) + tail =~= tail);
        assert(bodies + replayed(tail) =~= replayed(tail));
    } else {
        let first = bodies[0];
        let rest = bodies.drop_first();
        assert forall|i: int| 0 <= i < rest.len() implies frameable(#[trigger] rest[i]) by {
            assert(rest[i] == bodies[i + 1]);
        }
        replay_passes_frames(rest, tail);
        assert(image(bodies) + tail =~= frame(first) + (image(rest) + tail));
        lemma_frame_header(first, image(rest) + tail);
        assert(bodies + replayed(tail) =~= seq![first] + (rest + replayed(tail)));
    }
}

/// What was appended is what a replay gives back, in order.
pub proof fn replay_gives_back_what_was_appended(bodies: Seq<Seq<u8>>)
    requires
        forall|i: int| 0 <= i < bodies.len() ==> frameable(#[trigger] bodies[i]),
    ensures
        replayed(image(bodies)) == bodies,
{
    replay_passes_frames(bodies, Seq::empty());
    assert(image(bodies) + Seq::<u8>::empty() =~= image(bodies));
    assert(bodies + replayed(Seq::<u8>::empty()) =~= bodies);
}

/// An incomplete frame at the end, cut off anywhere, is dropped; the frames
/// before it are not affected.
pub proof fn torn_tail_is_dropped(bodies: Seq<Seq<u8>>, body: Seq<u8>, cut: int)
    requires
        forall|i: int| 0 <= i < bodies.len() ==> frameable(#[trigger] bodies[i]),
        frameable(body),
        0 <= cut < frame(body).len(),
    ensures
        replayed(image(bodies) + frame(body).take(cut)) == bodies,
{
    let torn = frame(body).take(cut);
    replay_passes_frames(bodies, torn);
    if cut >= 4 {
        lemma_frame_header(body, Seq::empty());
        assert(frame(body) + Seq::<u8>::empty() =~= frame(body));
        assert(le32_value(torn) == le32_value(frame(body)));
    }
    assert(replayed(torn) =~= Seq::empty());
    assert(bodies + replayed(torn) =~= bodies);
}

/// A frame behind complete frames is one more complete frame.
pub proof fn append_adds_one_record(bodies: Seq<Seq<u8>>, body: Seq<u8>)
    requires
        forall|i: int| 0 <= i < bodies.len() ==> frameable(#[trigger] bodies[i]),
        frameable(body),
    ensures
        image(bodies) + frame(body) == image(bodies.push(body)),
        replayed(image(bodies) + frame(body)) == bodies.push(body),
{
    lemma_image_push(bodies, body);
    assert forall|i: int| 0 <= i < bodies.push(body).len() implies frameable(
        #[trigger] bodies.push(body)[i],
    ) by {
        if i < bodies.len() {
            assert(bodies.push(body)[i] == bodies[i]);
        }
    }
    replay_gives_back_what_was_appended(bodies.push(body));
}

/// Cutting a log behind its complete frames takes nothing from a replay, and
/// leaves complete frames alone: what was cut off was the torn tail.
pub proof fn cut_keeps_the_records(log: Seq<u8>)
    ensures
        complete_len(log) <= log.len(),
        log.take(complete_len(log) as int) == image(replayed(log)),
        replayed(log.take(complete_len(log) as int)) == replayed(log),
        forall|i: int| 0 <= i < replayed(log).len() ==> frameable(#[trigger] replayed(log)[i]),
    decreases log.len(),
{
    let bodies = replayed(log);
    if log.len() < 4 || log.len() < 4 + le32_value(log) {
        assert(log.take(0) =~= image(bodies));
        assert(replayed(log.take(0)) =~= bodies);
    } else {
        let n = le32_value(log) as int;
        let body = log.subrange(4, 4 + n);
        let rest = log.skip(4 + n);
        cut_keeps_the_records(rest);
        assert(bodies.drop_first() =~= replayed(rest));
        assert(bodies[0] == body);
        assert(le32(n as nat) =~= log.take(4)) by {
            lemma_le32_bytes(log);
        }
        assert(log.take(complete_len(log) as int) =~= log.take(4) + body + rest.take(
            complete_len(rest) as int,
        ));
        assert(image(bodies) =~= log.take(complete_len(log) as int));
        assert forall|i: int| 0 <= i < bodies.len() implies frameable(#[trigger] bodies[i]) by {
            if i > 0 {
                assert(bodies[i] == replayed(rest)[i - 1]);
            }
        }
        replay_gives_back_what_was_appended(bodies);
    }
}

proof fn lemma_le32_bytes(b: Seq<u8>)
    requires
        b.len() >= 4,
    ensures
        le32(le32_value(b)) == b.take(4),
{
    let n = le32_value(b);
    let b0 = b[0] as nat;
    let b1 = b[1] as nat;
    let b2 = b[2] as nat;
    let b3 = b[3] as nat;
    assert(n == b0 + 256 * (b1 + 256 * (b2 + 256 * b3)));
    assert(n / 256 == b1 + 256 * (b2 + 256 * b3));
    assert(n / 65536 == b2 + 256 * b3);
    assert(n / 16777216 == b3);
    assert(le32(n) =~= b.take(4));
}

/// A log of complete frames ends where they end.
pub proof fn complete_frames_end_the_log(bodies: Seq<Seq<u8>>)
    requires
        forall|i: int| 0 <= i < bodies.len() ==> frameable(#[trigger] bodies[i]),
    ensures
        complete_len(image(bodies)) == image(bodies).len(),
{
    replay_gives_back_what_was_appended(bodies);
    cut_keeps_the_records(image(bodies));
}

/// A record appended behind the complete frames of any log, a torn one too, is
/// replayed after all that the log held, and is a complete frame itself.
pub proof fn append_behind_complete_frames(log: Seq<u8>, body: Seq<u8>)
    requires
        frameable(body),
    ensures
        replayed(log.take(complete_len(log) as int) + frame(body)) == replayed(log).push(body),
        complete_len(log.take(complete_len(log) as int) + frame(body)) == complete_len(log)
            + frame(body).len(),
{
    let bodies = replayed(log);
    cut_keeps_the_records(log);
    append_adds_one_record(bodies, body);
    assert forall|i: int| 0 <= i < bodies.push(body).len() implies frameable(
        #[trigger] bodies.push(body)[i],
    ) by {
        if i < bodies.len() {
            assert(bodies.push(body)[i] == bodies[i]);
        }
    }
    complete_frames_end_the_log(bodies.push(body));
}

proof fn lemma_image_push(bodies: Seq<Seq<u8>>, body: Seq<u8>)
    ensures
        image(bodies.push(body)) == image(bodies) + frame(body),
    decreases bodies.len(),
{
    if bodies.len() == 0 {
        assert(bodies.push(body).drop_first() =~= Seq::empty());
        assert(image(bodies.push(body).drop_first()) =~= Seq::empty());
        assert(image(bodies.push(body)) =~= frame(body));
        assert(image(bodies) + frame(body) =~= frame(body));
    } else {
        lemma_image_push(bodies.drop_first(), body);
        assert(bodies.push(body).drop_first() =~= bodies.drop_first().push(body));
        assert(image(bodies.push(body)) =~= image(bodies) + frame(body));
    }
}

/// The codec encodes `r` in a body that fits a frame, and decodes it from there.
pub open spec fn codes_one(
    encode: spec_fn(RecordView) -> Seq<u8>,
    decode: spec_fn(Seq<u8>) -> RecordView,
    r: RecordView,
) -> bool {
    frameable(encode(r)) && decode(encode(r)) == r
}

/// The codec does so with each of the records.
pub open spec fn codes(
    encode: spec_fn(RecordView) -> Seq<u8>,
    decode: spec_fn(Seq<u8>) -> RecordView,
    records: Seq<RecordView>,
) -> bool {
    forall|i: int| 0 <= i < records.len() ==> codes_one(encode, decode, #[trigger] records[i])
}

/// Truncation: of a log that holds the encoded `records`, the records of
/// generation `min` or above, encoded anew, replay to exactly these, in their
/// order, and records appended later follow them. The codec is any one that
/// decodes what it encoded of these records, in bodies that fit a frame.
pub proof fn truncation_keeps_the_tail(
    encode: spec_fn(RecordView) -> Seq<u8>,
    decode: spec_fn(Seq<u8>) -> RecordView,
    records: Seq<RecordView>,
    min: u64,
    later: Seq<RecordView>,
)
    requires
        codes(encode, decode, records + later),
    ensures
        replayed(image(records.map_values(encode))).map_values(decode) == records,
        replayed(
            image((retained(records, min) + later).map_values(encode)),
        ).map_values(decode) == retained(records, min) + later,
        forall|r: RecordView|
            retained(records, min).contains(r) <==> records.contains(r) && r.generation >= min,
{
    let keep = |r: RecordView| r.generation >= min;
    let kept = retained(records, min);
    assert forall|r: RecordView|
        kept.contains(r) <==> records.contains(r) && r.generation >= min by {
        lemma_filter_members(records, keep, r);
    }
    assert forall|i: int| 0 <= i < records.len() implies codes_one(
        encode,
        decode,
        #[trigger] records[i],
    ) by {
        assert((records + later)[i] == records[i]);
    }
    assert forall|i: int| 0 <= i < (kept + later).len() implies codes_one(
        encode,
        decode,
        #[trigger] (kept + later)[i],
    ) by {
        if i < kept.len() {
            assert(kept.contains(kept[i]));
            let j = choose|j: int| 0 <= j < records.len() && records[j] == kept[i];
            assert((records + later)[j] == records[j]);
        } else {
            assert((records + later)[records.len() + (i - kept.len())] == later[i - kept.len()]);
        }
    }
    lemma_codec(encode, decode, records);
    lemma_codec(encode, decode, kept + later);
}

/// No acknowledged record is lost to a truncation that runs beside appends. It
/// reads the log with the records that were there and those appended `before`
/// it read; those appended `after` follow the image that it puts in place. A
/// restart then finds every one of them that was to stay.
pub proof fn appends_survive_a_truncation(
    encode: spec_fn(RecordView) -> Seq<u8>,
    decode: spec_fn(Seq<u8>) -> RecordView,
    records: Seq<RecordView>,
    before: Seq<RecordView>,
    min: u64,
    after: Seq<RecordView>,
)
    requires
        codes(encode, decode, records + before + after),
    ensures
        ({
            let kept = retained(records + before, min);
            let log = image(kept.map_values(encode)) + image(after.map_values(encode));
            let found = replayed(log).map_values(decode);
            &&& found == kept + after
            &&& forall|r: RecordView|
                (records + before).contains(r) && r.generation >= min || after.contains(r)
                    ==> #[trigger] found.contains(r)
        }),
{
    let all = records + before;
    let keep = |r: RecordView| r.generation >= min;
    let kept = retained(all, min);
    truncation_keeps_the_tail(encode, decode, all, min, after);
    assert forall|i: int| 0 <= i < after.len() implies codes_one(
        encode,
        decode,
        #[trigger] after[i],
    ) by {
        assert((all + after)[all.len() + i] == after[i]);
    }
    assert forall|i: int| 0 <= i < kept.len() implies codes_one(
        encode,
        decode,
        #[trigger] kept[i],
    ) by {
        assert(kept.contains(kept[i]));
        lemma_filter_members(all, keep, kept[i]);
        let j = choose|j: int| 0 <= j < all.len() && all[j] == kept[i];
        assert((all + after)[j] == all[j]);
    }
    lemma_codec(encode, decode, after);
    lemma_codec(encode, decode, kept);
    replay_passes_frames(kept.map_values(encode), image(after.map_values(encode)));
    replay_gives_back_what_was_appended(kept.map_values(encode));
    let found = replayed(
        image(kept.map_values(encode)) + image(after.map_values(encode)),
    ).map_values(decode);
    assert(found =~= kept + after);
    assert forall|r: RecordView|
        all.contains(r) && r.generation >= min || after.contains(r) implies #[trigger] found.contains(
        r,
    ) by {
        if after.contains(r) {
            let i = choose|i: int| 0 <= i < after.len() && after[i] == r;
            assert(found[kept.len() + i] == r);
        } else {
            lemma_filter_members(all, keep, r);
            let i = choose|i: int| 0 <= i < kept.len() && kept[i] == r;
            assert(found[i] == r);
        }
    }
}

proof fn lemma_filter_members<A>(s: Seq<A>, keep: spec_fn(A) -> bool, x: A)
    ensures
        s.filter(keep).contains(x) <==> s.contains(x) && keep(x),
    decreases s.len(),
{
    reveal(Seq::filter);
    if s.len() > 0 {
        let rest = s.drop_last();
        lemma_filter_members(rest, keep, x);
        if s.contains(x) && x != s.last() {
            let i = choose|i: int| 0 <= i < s.len() && s[i] == x;
            assert(rest[i] == x);
        }
        if rest.contains(x) {
            let i = choose|i: int| 0 <= i < rest.len() && rest[i] == x;
            assert(s[i] == x);
        }
        if keep(s.last()) {
            let f = rest.filter(keep);
            assert(s.filter(keep) =~= f.push(s.last()));
            assert(f.push(s.last())[f.len() as int] == s.last());
            if f.contains(x) {
                let i = choose|i: int| 0 <= i < f.len() && f[i] == x;
                assert(f.push(s.last())[i] == x);
            }
            if f.push(s.last()).contains(x) && x != s.last() {
                let i = choose|i: int| 0 <= i < f.push(s.last()).len() && f.push(s.last())[i] == x;
                assert(f[i] == x);
            }
        }
    }
}

proof fn lemma_codec(
    encode: spec_fn(RecordView) -> Seq<u8>,
    decode: spec_fn(Seq<u8>) -> RecordView,
    records: Seq<RecordView>,
)
    requires
        codes(encode, decode, records),
    ensures
        replayed(image(records.map_values(encode))).map_values(decode) == records,
        forall|i: int|
            0 <= i < records.len() ==> frameable(#[trigger] records.map_values(encode)[i]),
{
    let bodies = records.map_values(encode);
    assert forall|i: int| 0 <= i < bodies.len() implies frameable(#[trigger] bodies[i]) by {
        assert(bodies[i] == encode(records[i]));
    }
    replay_gives_back_what_was_appended(bodies);
    assert(bodies.map_values(decode) =~= records) by {
        assert forall|i: int| 0 <= i < records.len() implies bodies.map_values(decode)[i]
            == records[i] by {
            assert(bodies[i] == encode(records[i]));
        }
    }
}

fn header(n: u32) -> (bytes: Vec<u8>)
    ensures
        bytes@ == le32(n as nat),
{
    let mut bytes: Vec<u8> = Vec::new();
    bytes.push((n % 256) as u8);
    bytes.push((n / 256 % 256) as u8);
    bytes.push((n / 65536 % 256) as u8);
    bytes.push((n / 16777216 % 256) as u8);
    proof {
        assert(bytes@ =~= le32(n as nat));
    }
    bytes
}

/// The frame of an encoded record, to be appended to the log.
pub fn frame_record(body: &Vec<u8>) -> (framed: Result<Vec<u8>, Error>)
    ensures
        match framed {
            Ok(f) => frameable(body@) && f@ == frame(body@),
            Err(e) => !frameable(body@) && e@ == ErrorView::Datastore(
                "wal record too large: "@ + text::decimal(body@.len()) + " bytes"@,
            ),
        },
{
    if body.len() as u64 > u32::MAX as u64 {
        let mut message = joined("wal record too large: ", decimal_text(body.len() as u64).as_str());
        message.append(" bytes");
        return Err(Error::Datastore(message));
    }
    let mut framed = header(body.len() as u32);
    framed.extend_from_slice(body.as_slice());
    proof {
        assert(framed@ =~= frame(body@));
    }
    Ok(framed)
}

/// The bodies of the complete frames of a log.
pub fn replay_bodies(log: &Vec<u8>) -> (bodies: Vec<Vec<u8>>)
    ensures
        order::key_views(bodies@) == replayed(log@),
{
    let mut bodies: Vec<Vec<u8>> = Vec::new();
    let mut at: usize = 0;
    proof {
        assert(log@.skip(0) =~= log@);
        assert(order::key_views(bodies@) + replayed(log@) =~= replayed(log@));
    }
    while log.len() - at >= 4
        invariant
            at <= log.len(),
            order::key_views(bodies@) + replayed(log@.skip(at as int)) == replayed(log@),
        ensures
            order::key_views(bodies@) == replayed(log@),
        decreases log.len() - at,
    {
        let ghost rest = log@.skip(at as int);
        let n: u64 = log[at] as u64 + 256 * (log[at + 1] as u64) + 65536 * (log[at + 2] as u64)
            + 16777216 * (log[at + 3] as u64);
        proof {
            assert(rest[0] == log@[at as int]);
            assert(rest[1] == log@[at + 1]);
            assert(rest[2] == log@[at + 2]);
            assert(rest[3] == log@[at + 3]);
            assert(n == le32_value(rest));
        }
        let left: usize = log.len() - at - 4;
        if (left as u64) < n {
            proof {
                assert(replayed(rest) =~= Seq::empty());
                assert(order::key_views(bodies@) + replayed(rest) =~= order::key_views(bodies@));
            }
            break;
        }
        let from: usize = at + 4;
        let to: usize = from + n as usize;
        let body = vstd::slice::slice_to_vec(
            vstd::slice::slice_subrange(log.as_slice(), from, to),
        );
        let ghost before = order::key_views(bodies@);
        bodies.push(body);
        proof {
            assert(body@ =~= rest.subrange(4, 4 + n as int));
            assert(order::key_views(bodies@) =~= before.push(body@));
            assert(rest.skip(4 + n as int) =~= log@.skip(to as int));
            assert(before + replayed(rest) =~= before.push(body@) + replayed(log@.skip(to as int)));
        }
        at = to;
    }
    bodies
}

/// Where the complete frames of a log end. A record is appended there: behind a
/// torn frame a replay would not find it.
pub fn complete_frames(log: &Vec<u8>) -> (n: usize)
    ensures
        n == complete_len(log@),
        n <= log@.len(),
{
    let mut at: usize = 0;
    proof {
        assert(log@.skip(0) =~= log@);
    }
    while log.len() - at >= 4
        invariant
            at <= log.len(),
            at + complete_len(log@.skip(at as int)) == complete_len(log@),
        ensures
            at == complete_len(log@),
            at <= log.len(),
        decreases log.len() - at,
    {
        let ghost rest = log@.skip(at as int);
        let n: u64 = log[at] as u64 + 256 * (log[at + 1] as u64) + 65536 * (log[at + 2] as u64)
            + 16777216 * (log[at + 3] as u64);
        proof {
            assert(rest[0] == log@[at as int]);
            assert(rest[1] == log@[at + 1]);
            assert(rest[2] == log@[at + 2]);
            assert(rest[3] == log@[at + 3]);
            assert(n == le32_value(rest));
        }
        let left: usize = log.len() - at - 4;
        if (left as u64) < n {
            break;
        }
        let to: usize = at + 4 + n as usize;
        proof {
            assert(rest.skip(4 + n as int) =~= log@.skip(to as int));
        }
        at = to;
    }
    at
}

/// Record `i` is the first that could not be decoded.
pub open spec fn first_undecoded(decoded: Seq<Result<WalRecord, String>>, i: int) -> bool {
    &&& 0 <= i < decoded.len()
    &&& decoded[i] is Err
    &&& forall|j: int| 0 <= j < i ==> (#[trigger] decoded[j]) is Ok
}

/// The decoded records, or the fault of the first that could not be decoded.
pub fn collect_records(decoded: Vec<Result<WalRecord, String>>) -> (records: Result<
    Vec<WalRecord>,
    Error,
>)
    ensures
        match records {
            Ok(r) => {
                &&& r@.len() == decoded@.len()
                &&& forall|i: int|
                    0 <= i < decoded@.len() ==> (#[trigger] decoded@[i]) == Ok::<
                        WalRecord,
                        String,
                    >(r@[i])
            },
            Err(e) => exists|i: int|
                {
                    &&& #[trigger] first_undecoded(decoded@, i)
                    &&& e@ == ErrorView::Datastore("wal deserialize: "@ + decoded@[i]->Err_0@)
                },
        },
{
    let ghost all = decoded@;
    let mut rest = decoded;
    let mut turned: Vec<Result<WalRecord, String>> = Vec::new();
    while rest.len() > 0
        invariant
            rest@ == all.take(rest@.len() as int),
            rest@.len() + turned@.len() == all.len(),
            forall|i: int| 0 <= i < turned@.len() ==> turned@[i] == all[all.len() - 1 - i],
        decreases rest.len(),
    {
        match rest.pop() {
            Some(r) => {
                turned.push(r);
            },
            None => {},
        }
    }
    let mut records: Vec<WalRecord> = Vec::new();
    while turned.len() > 0
        invariant
            all == decoded@,
            records@.len() + turned@.len() == all.len(),
            forall|i: int| 0 <= i < turned@.len() ==> turned@[i] == all[all.len() - 1 - i],
            forall|i: int|
                0 <= i < records@.len() ==> (#[trigger] all[i]) == Ok::<WalRecord, String>(
                    records@[i],
                ),
        decreases turned.len(),
    {
        let ghost at = records@.len() as int;
        proof {
            assert(turned@[turned@.len() - 1] == all[at]);
        }
        match turned.pop() {
            Some(Ok(r)) => {
                records.push(r);
            },
            Some(Err(message)) => {
                let e = Error::Datastore(joined("wal deserialize: ", message.as_str()));
                proof {
                    assert(all[at] == Err::<WalRecord, String>(message));
                    assert(e@ == ErrorView::Datastore("wal deserialize: "@ + all[at]->Err_0@));
                    assert(first_undecoded(all, at));
                }
                return Err(e);
            },
            None => {},
        }
    }
    Ok(records)
}

/// The records of generation `min_generation` or above: what the log keeps
/// when everything older is durable in the dataset.
pub fn retain_from(records: Vec<WalRecord>, min_generation: u64) -> (kept: Vec<WalRecord>)
    ensures
        record_views(kept@) == retained(record_views(records@), min_generation),
{
    let ghost all = record_views(records@);
    let ghost keep = |r: RecordView| r.generation >= min_generation;
    let ghost source = records@;
    let mut rest = records;
    let mut turned: Vec<WalRecord> = Vec::new();
    while rest.len() > 0
        invariant
            rest@ == source.take(rest@.len() as int),
            rest@.len() + turned@.len() == source.len(),
            forall|i: int| 0 <= i < turned@.len() ==> turned@[i] == source[source.len() - 1 - i],
        decreases rest.len(),
    {
        match rest.pop() {
            Some(r) => {
                turned.push(r);
            },
            None => {},
        }
    }
    let mut kept: Vec<WalRecord> = Vec::new();
    let ghost mut done: int = 0;
    proof {
        reveal(Seq::filter);
        assert(all.take(0).filter(keep) =~= Seq::empty());
        assert(record_views(kept@) =~= Seq::empty());
    }
    while turned.len() > 0
        invariant
            all == record_views(source),
            keep == (|r: RecordView| r.generation >= min_generation),
            done + turned@.len() == source.len(),
            0 <= done,
            forall|i: int| 0 <= i < turned@.len() ==> turned@[i] == source[source.len() - 1 - i],
            record_views(kept@) == all.take(done).filter(keep),
        decreases turned.len(),
    {
        let ghost before = record_views(kept@);
        proof {
            assert(turned@[turned@.len() - 1] == source[done]);
            reveal(Seq::filter);
            assert(all.take(done + 1).drop_last() =~= all.take(done));
            assert(all.take(done + 1).last() == all[done]);
        }
        match turned.pop() {
            Some(r) => {
                if r.generation >= min_generation {
                    let ghost view = r@;
                    kept.push(r);
                    proof {
                        assert(record_views(kept@) =~= before.push(view));
                    }
                }
                proof {
                    done = done + 1;
                }
            },
            None => {},
        }
    }
    proof {
        assert(all.take(all.len() as int) =~= all);
    }
    kept
}

/// Body `i` is the first that is too long for a frame.
pub open spec fn first_oversized(bodies: Seq<Seq<u8>>, i: int) -> bool {
    &&& 0 <= i < bodies.len()
    &&& !frameable(bodies[i])
    &&& forall|j: int| 0 <= j < i ==> frameable(#[trigger] bodies[j])
}

/// The log that holds exactly these encoded records.
pub fn build_image(bodies: &Vec<Vec<u8>>) -> (log: Result<Vec<u8>, Error>)
    ensures
        match log {
            Ok(l) => {
                &&& forall|i: int| 0 <= i < bodies@.len() ==> frameable((#[trigger] bodies@[i])@)
                &&& l@ == image(order::key_views(bodies@))
            },
            Err(e) => exists|i: int|
                {
                    &&& #[trigger] first_oversized(order::key_views(bodies@), i)
                    &&& e@ == ErrorView::Datastore(
                        "wal truncate: record too large: "@ + text::decimal(bodies@[i]@.len())
                            + " bytes"@,
                    )
                },
        },
{
    let ghost views = order::key_views(bodies@);
    let mut log: Vec<u8> = Vec::new();
    let mut i: usize = 0;
    while i < bodies.len()
        invariant
            i <= bodies@.len(),
            views == order::key_views(bodies@),
            forall|j: int| 0 <= j < i ==> frameable((#[trigger] bodies@[j])@),
            log@ == image(views.take(i as int)),
        decreases bodies@.len() - i,
    {
        proof {
            lemma_image_push(views.take(i as int), views[i as int]);
            assert(views.take(i as int).push(views[i as int]) =~= views.take(i + 1));
        }
        if bodies[i].len() as u64 > u32::MAX as u64 {
            let mut message = joined(
                "wal truncate: record too large: ",
                decimal_text(bodies[i].len() as u64).as_str(),
            );
            message.append(" bytes");
            proof {
                assert forall|j: int| 0 <= j < i implies frameable(#[trigger] views[j]) by {
                    assert(frameable(bodies@[j]@));
                }
                assert(first_oversized(views, i as int));
            }
            return Err(Error::Datastore(message));
        }
        let mut framed = header(bodies[i].len() as u32);
        framed.extend_from_slice(bodies[i].as_slice());
        let ghost before = log@;
        log.extend_from_slice(framed.as_slice());
        proof {
            assert(framed@ =~= frame(views[i as int]));
            assert(log@ =~= before + frame(views[i as int]));
        }
        i += 1;
    }
    proof {
        assert(views.take(views.len() as int) =~= views);
    }
    Ok(log)
}

} // verus!
