//! The whole decoding pipeline as a function of the bytes read: lines, then
//! events, then payloads.
use vstd::prelude::*;
use crate::frame::{NEWLINE, split_bytes, lemma_split_bytes_concat};
use crate::chunk::{DecodeOutcome, FailureKind, is_failure_of, chunk_ok, chunk_matches, decodes_to};
use crate::json::{is_json, json_of};
use crate::event::{
    EventState,
    initial_event_state,
    on_lines,
    lemma_on_lines_concat,
    lemma_on_lines_done,
    terminal_marker,
    data_prefix,
    data_body,
    on_line,
};

verus! {

/// What the pipeline holds between fragments: the unterminated line, the
/// event being assembled, and every payload handed out so far.
pub struct PipelineState {
    pub carry: Seq<u8>,
    pub events: EventState,
    pub payloads: Seq<Seq<u8>>,
}

pub open spec fn initial_pipeline() -> PipelineState {
    PipelineState {
        carry: Seq::<u8>::empty(),
        events: initial_event_state(),
        payloads: Seq::<Seq<u8>>::empty(),
    }
}

/// One fragment through the pipeline. After the sentinel nothing is read:
/// the state stays as it is, with no carry-over kept.
pub open spec fn feed(s: PipelineState, fragment: Seq<u8>) -> PipelineState {
    if s.events.done {
        s
    } else {
        let (lines, carry) = split_bytes(s.carry, fragment);
        let (events, out) = on_lines(s.events, lines);
        PipelineState {
            carry: if events.done {
                Seq::<u8>::empty()
            } else {
                carry
            },
            events,
            payloads: s.payloads + out,
        }
    }
}

/// A sequence of fragments through the pipeline, in order.
pub open spec fn feed_all(s: PipelineState, fragments: Seq<Seq<u8>>) -> PipelineState
    decreases fragments.len(),
{
    if fragments.len() == 0 {
        s
    } else {
        feed(feed_all(s, fragments.drop_last()), fragments.last())
    }
}

/// Feeding `a` then `b` is feeding `a + b`.
pub proof fn lemma_feed_concat(s: PipelineState, a: Seq<u8>, b: Seq<u8>)
    ensures
        feed(feed(s, a), b) == feed(s, a + b),
{
    if !s.events.done {
        lemma_split_bytes_concat(s.carry, a, b);
        let (l1, c1) = split_bytes(s.carry, a);
        let (l2, c2) = split_bytes(c1, b);
        lemma_on_lines_concat(s.events, l1, l2);
        let (e1, o1) = on_lines(s.events, l1);
        if e1.done {
            lemma_on_lines_done(e1, l2);
            assert(o1 + Seq::<Seq<u8>>::empty() =~= o1);
        } else {
            let (e2, o2) = on_lines(e1, l2);
            assert(s.payloads + o1 + o2 =~= s.payloads + (o1 + o2));
        }
    }
}

pub proof fn lemma_feed_empty(s: PipelineState)
    ensures
        feed(s, Seq::<u8>::empty()) == s,
{
    if !s.events.done {
        assert(s.payloads + Seq::<Seq<u8>>::empty() =~= s.payloads);
    }
}

/// Feeding fragments one by one is feeding their concatenation.
pub proof fn lemma_feed_all_flatten(s: PipelineState, fragments: Seq<Seq<u8>>)
    ensures
        feed_all(s, fragments) == feed(s, fragments.flatten()),
    decreases fragments.len(),
{
    if fragments.len() == 0 {
        lemma_feed_empty(s);
    } else {
        let init = fragments.drop_last();
        lemma_feed_all_flatten(s, init);
        init.lemma_flatten_push(fragments.last());
        assert(init.push(fragments.last()) =~= fragments);
        lemma_feed_concat(s, init.flatten(), fragments.last());
    }
}

/// Where a stream is cut into fragments does not change what it decodes to:
/// two fragmentations of the same bytes leave the pipeline in the same state,
/// with the same payloads in the same order.
pub proof fn lemma_fragmentation_invariant(a: Seq<Seq<u8>>, b: Seq<Seq<u8>>)
    requires
        a.flatten() == b.flatten(),
    ensures
        feed_all(initial_pipeline(), a) == feed_all(initial_pipeline(), b),
{
    lemma_feed_all_flatten(initial_pipeline(), a);
    lemma_feed_all_flatten(initial_pipeline(), b);
}

/// Outcomes decoded from two fragmentations of the same bytes agree one for
/// one: as many of them, and each pair decodes the same payload (so both are
/// the same chunk, or failures of the same kind keeping the same bytes).
pub proof fn lemma_fragmentation_outcomes(
    a: Seq<Seq<u8>>,
    b: Seq<Seq<u8>>,
    oa: Seq<DecodeOutcome>,
    ob: Seq<DecodeOutcome>,
)
    requires
        a.flatten() == b.flatten(),
        crate::stream::all_decode(feed_all(initial_pipeline(), a).payloads, oa),
        crate::stream::all_decode(feed_all(initial_pipeline(), b).payloads, ob),
    ensures
        oa.len() == ob.len(),
        forall|i: int|
            0 <= i < oa.len() ==> decodes_to(feed_all(initial_pipeline(), a).payloads[i], #[trigger] oa[i])
                && decodes_to(feed_all(initial_pipeline(), a).payloads[i], ob[i]),
{
    lemma_fragmentation_invariant(a, b);
}

/// The sentinel is never handed out as a payload.
pub proof fn lemma_on_lines_no_marker(s: EventState, lines: Seq<Seq<u8>>)
    ensures
        !on_lines(s, lines).1.contains(terminal_marker()),
    decreases lines.len(),
{
    if lines.len() > 0 {
        lemma_on_lines_no_marker(s, lines.drop_last());
        let (t, events) = on_lines(s, lines.drop_last());
        if !t.done {
            let (u, e) = crate::event::on_line(t, lines.last());
            match e {
                Some(p) => {
                    assert forall|i: int| 0 <= i < events.push(p).len() implies events.push(p)[i]
                        != terminal_marker() by {
                        if i < events.len() {
                            assert(events[i] != terminal_marker()) by {
                                if events[i] == terminal_marker() {
                                    assert(events.contains(terminal_marker()));
                                }
                            }
                        }
                    }
                },
                None => {},
            }
        }
    }
}

/// The terminal sentinel ends the stream without being surfaced: no payload
/// is ever the sentinel, and once it has been seen, any further fragments
/// change nothing, so the payloads are exactly those before it.
pub proof fn lemma_terminal_ends_stream(fragments: Seq<Seq<u8>>, rest: Seq<Seq<u8>>)
    ensures
        !feed_all(initial_pipeline(), fragments).payloads.contains(terminal_marker()),
        feed_all(initial_pipeline(), fragments).events.done ==> feed_all(
            initial_pipeline(),
            fragments + rest,
        ) == feed_all(initial_pipeline(), fragments),
{
    lemma_no_marker_all(initial_pipeline(), fragments);
    if feed_all(initial_pipeline(), fragments).events.done {
        lemma_feed_all_done(initial_pipeline(), fragments, rest);
    }
}

proof fn lemma_no_marker_all(s: PipelineState, fragments: Seq<Seq<u8>>)
    requires
        !s.payloads.contains(terminal_marker()),
    ensures
        !feed_all(s, fragments).payloads.contains(terminal_marker()),
    decreases fragments.len(),
{
    if fragments.len() > 0 {
        lemma_no_marker_all(s, fragments.drop_last());
        let t = feed_all(s, fragments.drop_last());
        if !t.events.done {
            let (lines, carry) = split_bytes(t.carry, fragments.last());
            lemma_on_lines_no_marker(t.events, lines);
            let out = on_lines(t.events, lines).1;
            assert forall|i: int| 0 <= i < (t.payloads + out).len() implies (t.payloads
                + out)[i] != terminal_marker() by {
                if i < t.payloads.len() {
                    if t.payloads[i] == terminal_marker() {
                        assert(t.payloads.contains(terminal_marker()));
                    }
                } else {
                    if out[i - t.payloads.len()] == terminal_marker() {
                        assert(out.contains(terminal_marker()));
                    }
                }
            }
        }
    }
}

proof fn lemma_feed_all_done(s: PipelineState, fragments: Seq<Seq<u8>>, rest: Seq<Seq<u8>>)
    requires
        feed_all(s, fragments).events.done,
    ensures
        feed_all(s, fragments + rest) == feed_all(s, fragments),
    decreases rest.len(),
{
    if rest.len() == 0 {
        assert(fragments + rest =~= fragments);
    } else {
        lemma_feed_all_done(s, fragments, rest.drop_last());
        assert((fragments + rest).drop_last() =~= fragments + rest.drop_last());
        assert((fragments + rest).last() == rest.last());
    }
}

/// The bytes of one event with a single data line: `data: `, the payload, and
/// a blank line.
pub open spec fn data_frame(payload: Seq<u8>) -> Seq<u8> {
    data_prefix() + seq![32u8] + payload + seq![NEWLINE, NEWLINE]
}

proof fn lemma_split_plain(carry: Seq<u8>, bytes: Seq<u8>)
    requires
        !bytes.contains(NEWLINE),
    ensures
        split_bytes(carry, bytes) == (Seq::<Seq<u8>>::empty(), carry + bytes),
    decreases bytes.len(),
{
    if bytes.len() == 0 {
        assert(carry + bytes =~= carry);
    } else {
        let init = bytes.drop_last();
        assert forall|i: int| 0 <= i < init.len() implies init[i] != NEWLINE by {
            assert(init[i] == bytes[i]);
            if bytes[i] == NEWLINE {
                assert(bytes.contains(NEWLINE));
            }
        }
        lemma_split_plain(carry, init);
        assert(bytes.last() != NEWLINE) by {
            if bytes.last() == NEWLINE {
                assert(bytes.contains(NEWLINE));
            }
        }
        assert((carry + init).push(bytes.last()) =~= carry + bytes);
        assert(Seq::<Seq<u8>>::empty() + Seq::<Seq<u8>>::empty() =~= Seq::<Seq<u8>>::empty());
    }
}

/// Between events, one single-line event adds its payload and nothing else.
proof fn lemma_frame_event(s: PipelineState, payload: Seq<u8>)
    requires
        s.carry.len() == 0,
        s.events == initial_event_state(),
        !payload.contains(NEWLINE),
    ensures
        payload != terminal_marker() ==> feed(s, data_frame(payload)) == (PipelineState {
            carry: Seq::<u8>::empty(),
            events: initial_event_state(),
            payloads: s.payloads.push(payload),
        }),
        payload == terminal_marker() ==> feed(s, data_frame(payload)) == (PipelineState {
            carry: Seq::<u8>::empty(),
            events: EventState { payload: None, done: true },
            payloads: s.payloads,
        }),
{
    let line = data_prefix() + seq![32u8] + payload;
    let tail: Seq<u8> = seq![NEWLINE, NEWLINE];
    assert(data_frame(payload) =~= line + tail);
    assert forall|i: int| 0 <= i < line.len() implies line[i] != NEWLINE by {
        if i >= 6 {
            assert(line[i] == payload[i - 6]);
            if payload[i - 6] == NEWLINE {
                assert(payload.contains(NEWLINE));
            }
        }
    }
    lemma_split_plain(s.carry, line);
    assert(s.carry + line =~= line);
    lemma_split_bytes_concat(s.carry, line, tail);
    assert(tail.drop_last() =~= seq![NEWLINE]);
    assert(tail.drop_last().drop_last() =~= Seq::<u8>::empty());
    let lines: Seq<Seq<u8>> = seq![line, Seq::<u8>::empty()];
    assert(split_bytes(line, tail) == (lines, Seq::<u8>::empty())) by {
        let one: Seq<u8> = seq![NEWLINE];
        assert(tail.drop_last() =~= one);
        assert(one.drop_last() =~= Seq::<u8>::empty());
        assert(one.last() == NEWLINE);
        assert(split_bytes(line, Seq::<u8>::empty()) == (Seq::<Seq<u8>>::empty(), line));
        assert(Seq::<Seq<u8>>::empty() + seq![line] =~= seq![line]);
        assert(split_bytes(line, one).0 =~= seq![line]);
        assert(seq![line] + seq![Seq::<u8>::empty()] =~= lines);
    }
    assert(Seq::<Seq<u8>>::empty() + lines =~= lines);
    assert(line.subrange(0, 5) =~= data_prefix());
    assert(line.subrange(5, line.len() as int).subrange(1, line.len() - 5) =~= payload);
    assert(data_body(line) == payload);
    assert(lines.drop_last() =~= seq![line]);
    assert(seq![line].drop_last() =~= Seq::<Seq<u8>>::empty());
    let mid = on_line(initial_event_state(), line).0;
    assert(mid == EventState { payload: Some(payload), done: false });
    assert(seq![line].last() == line);
    assert(on_lines(s.events, Seq::<Seq<u8>>::empty()) == (s.events, Seq::<Seq<u8>>::empty()));
    assert(on_lines(s.events, seq![line]) == (mid, Seq::<Seq<u8>>::empty()));
    assert(Seq::<Seq<u8>>::empty().push(payload) =~= seq![payload]);
    assert(s.payloads + seq![payload] =~= s.payloads.push(payload));
    assert(s.payloads + Seq::<Seq<u8>>::empty() =~= s.payloads);
}

/// The bytes of a run of single-line events.
pub open spec fn data_frames(payloads: Seq<Seq<u8>>) -> Seq<u8>
    decreases payloads.len(),
{
    if payloads.len() == 0 {
        Seq::<u8>::empty()
    } else {
        data_frames(payloads.drop_last()) + data_frame(payloads.last())
    }
}

/// Payloads that single-line events can carry: no newline, not the sentinel.
pub open spec fn plain_payloads(payloads: Seq<Seq<u8>>) -> bool {
    forall|i: int|
        0 <= i < payloads.len() ==> !(#[trigger] payloads[i]).contains(NEWLINE) && payloads[i]
            != terminal_marker()
}

proof fn lemma_frames(s: PipelineState, payloads: Seq<Seq<u8>>)
    requires
        s.carry.len() == 0,
        s.events == initial_event_state(),
        plain_payloads(payloads),
    ensures
        feed(s, data_frames(payloads)) == (PipelineState {
            carry: Seq::<u8>::empty(),
            events: initial_event_state(),
            payloads: s.payloads + payloads,
        }),
    decreases payloads.len(),
{
    if payloads.len() == 0 {
        lemma_feed_empty(s);
        assert(s.carry =~= Seq::<u8>::empty());
        assert(s.payloads + payloads =~= s.payloads);
    } else {
        let init = payloads.drop_last();
        assert(plain_payloads(init)) by {
            assert forall|i: int| 0 <= i < init.len() implies !(#[trigger] init[i]).contains(
                NEWLINE,
            ) && init[i] != terminal_marker() by {
                assert(init[i] == payloads[i]);
            }
        }
        lemma_frames(s, init);
        let t = feed(s, data_frames(init));
        assert(payloads[payloads.len() - 1] == payloads.last());
        lemma_frame_event(t, payloads.last());
        lemma_feed_concat(s, data_frames(init), data_frame(payloads.last()));
        assert((s.payloads + init).push(payloads.last()) =~= s.payloads + payloads);
    }
}

/// Whether `o` is the chunk that `payload` describes, for a payload that is
/// JSON in a chunk's shape.
pub open spec fn chunk_outcome(payload: Seq<u8>, o: DecodeOutcome) -> bool {
    is_json(payload) && chunk_ok(json_of(payload)) ==> match o {
        DecodeOutcome::Chunk(c) => chunk_matches(json_of(payload), c),
        DecodeOutcome::Failure(_) => false,
    }
}

/// A stream whose last event is the sentinel yields exactly the events
/// before it, in order, and ends: nothing for the sentinel itself, and
/// nothing from any bytes that follow it. Each event that holds a chunk comes
/// out as that chunk.
pub proof fn lemma_terminal_after_events(
    payloads: Seq<Seq<u8>>,
    after: Seq<u8>,
    outcomes: Seq<DecodeOutcome>,
)
    requires
        plain_payloads(payloads),
        crate::stream::all_decode(
            feed(
                initial_pipeline(),
                data_frames(payloads) + data_frame(terminal_marker()) + after,
            ).payloads,
            outcomes,
        ),
    ensures
        outcomes.len() == payloads.len(),
        forall|i: int|
            0 <= i < payloads.len() ==> chunk_outcome(payloads[i], #[trigger] outcomes[i]),
        feed(
            initial_pipeline(),
            data_frames(payloads) + data_frame(terminal_marker()) + after,
        ).payloads == payloads,
        feed(
            initial_pipeline(),
            data_frames(payloads) + data_frame(terminal_marker()) + after,
        ).events.done,
{
    let s0 = initial_pipeline();
    lemma_frames(s0, payloads);
    let s1 = feed(s0, data_frames(payloads));
    assert(terminal_marker() =~= seq![91u8, 68u8, 79u8, 78u8, 69u8, 93u8]);
    assert(!terminal_marker().contains(NEWLINE)) by {
        if terminal_marker().contains(NEWLINE) {
            let i = choose|i: int| 0 <= i < terminal_marker().len() && terminal_marker()[i] == NEWLINE;
            assert(terminal_marker()[i] != NEWLINE);
        }
    }
    lemma_frame_event(s1, terminal_marker());
    lemma_feed_concat(s0, data_frames(payloads), data_frame(terminal_marker()));
    let s2 = feed(s0, data_frames(payloads) + data_frame(terminal_marker()));
    lemma_feed_concat(s0, data_frames(payloads) + data_frame(terminal_marker()), after);
    assert(s0.payloads + payloads =~= payloads);
    assert forall|i: int| 0 <= i < payloads.len() implies chunk_outcome(
        payloads[i],
        #[trigger] outcomes[i],
    ) by {
        assert(decodes_to(payloads[i], outcomes[i]));
    }
}

/// A malformed event between two others does not stop the stream: the three
/// events give three outcomes, in order, the stream goes on, the middle one
/// is the failure that keeps the malformed payload, and each outer event that
/// holds a chunk comes out as that chunk.
pub proof fn lemma_malformed_event_isolated(
    first: Seq<u8>,
    bad: Seq<u8>,
    last: Seq<u8>,
    outcomes: Seq<DecodeOutcome>,
)
    requires
        !first.contains(NEWLINE),
        !bad.contains(NEWLINE),
        !last.contains(NEWLINE),
        first != terminal_marker(),
        bad != terminal_marker(),
        last != terminal_marker(),
        !is_json(bad),
        crate::stream::all_decode(
            feed(initial_pipeline(), data_frame(first) + data_frame(bad) + data_frame(last)).payloads,
            outcomes,
        ),
    ensures
        feed(initial_pipeline(), data_frame(first) + data_frame(bad) + data_frame(last)).payloads
            == seq![first, bad, last],
        !feed(initial_pipeline(), data_frame(first) + data_frame(bad) + data_frame(last)).events.done,
        outcomes.len() == 3,
        chunk_outcome(first, outcomes[0]),
        is_failure_of(outcomes[1], FailureKind::InvalidJson, bad),
        chunk_outcome(last, outcomes[2]),
{
    let s0 = initial_pipeline();
    lemma_frame_event(s0, first);
    let s1 = feed(s0, data_frame(first));
    lemma_frame_event(s1, bad);
    let s2 = feed(s1, data_frame(bad));
    lemma_frame_event(s2, last);
    lemma_feed_concat(s0, data_frame(first), data_frame(bad));
    lemma_feed_concat(s0, data_frame(first) + data_frame(bad), data_frame(last));
    assert(Seq::<Seq<u8>>::empty().push(first).push(bad).push(last) =~= seq![first, bad, last]);
    assert(decodes_to(first, outcomes[0]));
    assert(decodes_to(bad, outcomes[1]));
    assert(decodes_to(last, outcomes[2]));
}

} // verus!
