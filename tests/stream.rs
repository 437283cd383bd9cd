use openai_dive::chunk::{
    ChunkChoice, ChunkDelta, CompletionChunk, DecodeFailure, DecodeOutcome, FailureKind,
    FinishReason, ToolCallDelta,
};
use openai_dive::stream::{ByteSource, Poll, SourceEvent, SseStream, StreamItem};

struct Stub {
    fragments: Vec<Vec<u8>>,
    next: usize,
    fault: Option<String>,
    reads: usize,
    closes: usize,
}

impl Stub {
    fn new(fragments: Vec<&[u8]>) -> Stub {
        Stub {
            fragments: fragments.into_iter().map(|f| f.to_vec()).collect(),
            next: 0,
            fault: None,
            reads: 0,
            closes: 0,
        }
    }
}

impl ByteSource for Stub {
    fn next_fragment(&mut self) -> SourceEvent {
        self.reads += 1;
        if self.next < self.fragments.len() {
            self.next += 1;
            SourceEvent::Fragment(self.fragments[self.next - 1].clone())
        } else if let Some(msg) = self.fault.take() {
            SourceEvent::Fault(msg)
        } else {
            SourceEvent::End
        }
    }

    fn close(&mut self) {
        self.closes += 1;
    }
}

fn run(stub: Stub) -> (Vec<StreamItem>, Stub, bool) {
    let mut stream = SseStream::new(stub);
    let mut items = Vec::new();
    for _ in 0..10_000 {
        match stream.poll() {
            Poll::Ready(item) => items.push(item),
            Poll::Pending => {}
            Poll::Finished => {
                let seen = stream.terminal_seen();
                let released_now = stream.cancel();
                assert!(!released_now);
                return (items, stream.into_source(), seen);
            }
        }
    }
    panic!("stream did not finish");
}

fn chunk_json(id: &str, content: &str) -> String {
    format!(
        "{{\"id\":\"{}\",\"object\":\"chat.completion.chunk\",\"created\":1700000000,\"model\":\"gpt\",\"choices\":[{{\"index\":0,\"delta\":{{\"role\":\"assistant\",\"content\":\"{}\"}},\"finish_reason\":null}}]}}",
        id, content
    )
}

fn expected_chunk(id: &str, content: &str) -> StreamItem {
    StreamItem::Outcome(DecodeOutcome::Chunk(CompletionChunk {
        id: id.to_string(),
        created: 1700000000,
        model: "gpt".to_string(),
        choices: vec![ChunkChoice {
            index: 0,
            delta: ChunkDelta {
                role: Some("assistant".to_string()),
                content: Some(content.to_string()),
                tool_calls: None,
            },
            finish_reason: None,
        }],
    }))
}

fn event(payload: &str) -> String {
    format!("data: {}\n\n", payload)
}

#[test]
fn single_chunk_then_terminal() {
    let bytes = event(&chunk_json("1", "Hi")) + "data: [DONE]\n\n";
    let (items, source, seen) = run(Stub::new(vec![bytes.as_bytes()]));
    assert_eq!(items, vec![expected_chunk("1", "Hi")]);
    assert!(seen);
    assert_eq!(source.closes, 1);
}

#[test]
fn split_mid_line_matches_whole() {
    let whole = Stub::new(vec![b"data: {\"id\":\"1\"}\n\n"]);
    let split = Stub::new(vec![b"data: {\"id\":\"", b"1\"}\n\n"]);
    let (a, _, _) = run(whole);
    let (b, _, _) = run(split);
    assert_eq!(a, b);
    assert_eq!(a.len(), 1);
}

#[test]
fn every_split_offset_gives_same_outcomes() {
    let bytes = event(&chunk_json("a", "x")) + ": keep-alive\n\n" + &event("not json")
        + &event(&chunk_json("b", "y")) + "data: [DONE]\n\n";
    let bytes = bytes.as_bytes();
    let (whole, _, _) = run(Stub::new(vec![bytes]));
    assert_eq!(whole.len(), 3);
    for cut in 0..=bytes.len() {
        let (items, source, seen) = run(Stub::new(vec![&bytes[..cut], &bytes[cut..]]));
        assert_eq!(items, whole, "cut at {}", cut);
        assert!(seen);
        assert_eq!(source.closes, 1);
    }
    let singles: Vec<&[u8]> = bytes.chunks(1).collect();
    let (items, _, _) = run(Stub::new(singles));
    assert_eq!(items, whole);
}

#[test]
fn terminal_hides_later_events_and_stops_reading() {
    let first = event(&chunk_json("1", "a")) + &event(&chunk_json("2", "b")) + "data: [DONE]\n\n";
    let later = event(&chunk_json("3", "c"));
    let (items, source, seen) = run(Stub::new(vec![first.as_bytes(), later.as_bytes()]));
    assert_eq!(items, vec![expected_chunk("1", "a"), expected_chunk("2", "b")]);
    assert!(seen);
    assert_eq!(source.reads, 1);
    assert_eq!(source.closes, 1);
}

#[test]
fn malformed_event_between_two_chunks() {
    let bytes = event(&chunk_json("1", "a")) + "data: {\"id\": oops\n\n" + &event(&chunk_json("2", "b"))
        + "data: [DONE]\n\n";
    let (items, _, _) = run(Stub::new(vec![bytes.as_bytes()]));
    assert_eq!(items.len(), 3);
    assert_eq!(items[0], expected_chunk("1", "a"));
    match &items[1] {
        StreamItem::Outcome(DecodeOutcome::Failure(f)) => {
            assert_eq!(f.kind, FailureKind::InvalidJson);
            assert_eq!(f.raw, b"{\"id\": oops".to_vec());
            assert!(!f.cause.is_empty());
        }
        other => panic!("expected a failure, got {:?}", other),
    }
    assert_eq!(items[2], expected_chunk("2", "b"));
}

#[test]
fn empty_stream_yields_nothing() {
    let (items, source, seen) = run(Stub::new(vec![]));
    assert!(items.is_empty());
    assert!(!seen);
    assert_eq!(source.reads, 1);
    assert_eq!(source.closes, 1);
}

#[test]
fn cancel_after_first_outcome_closes_once() {
    let bytes = event(&chunk_json("1", "a")) + &event(&chunk_json("2", "b"));
    let mut stream = SseStream::new(Stub::new(vec![bytes.as_bytes(), b"data: [DONE]\n\n"]));
    assert_eq!(stream.poll(), Poll::Ready(expected_chunk("1", "a")));
    let released_now = stream.cancel();
    assert!(released_now);
    assert_eq!(stream.poll(), Poll::Finished);
    assert!(!stream.cancel());
    let source = stream.into_source();
    assert_eq!(source.closes, 1);
    assert_eq!(source.reads, 1);
}

#[test]
fn transport_fault_is_last_element() {
    let mut stub = Stub::new(vec![event(&chunk_json("1", "a")).as_bytes()]);
    stub.fault = Some("connection reset".to_string());
    let (items, source, seen) = run(stub);
    assert_eq!(
        items,
        vec![
            expected_chunk("1", "a"),
            StreamItem::TransportFault("connection reset".to_string())
        ]
    );
    assert!(!seen);
    assert_eq!(source.closes, 1);
}

#[test]
fn end_without_terminal_is_quiet() {
    let bytes = event(&chunk_json("1", "a")) + "data: {\"partial";
    let (items, source, seen) = run(Stub::new(vec![bytes.as_bytes()]));
    assert_eq!(items, vec![expected_chunk("1", "a")]);
    assert!(!seen);
    assert_eq!(source.closes, 1);
}

#[test]
fn fragment_without_newline_is_pending() {
    let mut stream = SseStream::new(Stub::new(vec![b"data: {", b"}\n", b"\n"]));
    assert_eq!(stream.poll(), Poll::Pending);
    assert_eq!(stream.poll(), Poll::Pending);
    match stream.poll() {
        Poll::Ready(StreamItem::Outcome(DecodeOutcome::Failure(f))) => {
            assert_eq!(f.kind, FailureKind::UnexpectedShape);
            assert_eq!(f.raw, b"{}".to_vec());
        }
        other => panic!("unexpected {:?}", other),
    }
    assert_eq!(stream.poll(), Poll::Finished);
    assert_eq!(stream.poll(), Poll::Finished);
    let released_now = stream.cancel();
    assert!(!released_now);
    let source = stream.into_source();
    assert_eq!(source.reads, 4);
    assert_eq!(source.closes, 1);
}

#[test]
fn finish_reason_decoded() {
    let payload = "{\"id\":\"z\",\"created\":5,\"model\":\"m\",\"choices\":[{\"index\":2,\"delta\":{},\"finish_reason\":\"length\"}]}";
    let bytes = event(payload);
    let (items, _, _) = run(Stub::new(vec![bytes.as_bytes()]));
    assert_eq!(
        items,
        vec![StreamItem::Outcome(DecodeOutcome::Chunk(CompletionChunk {
            id: "z".to_string(),
            created: 5,
            model: "m".to_string(),
            choices: vec![ChunkChoice {
                index: 2,
                delta: ChunkDelta { role: None, content: None, tool_calls: None },
                finish_reason: Some(FinishReason::Length),
            }],
        }))]
    );
}

#[test]
fn unknown_finish_reason_is_shape_failure() {
    let payload = "{\"id\":\"z\",\"created\":5,\"model\":\"m\",\"choices\":[{\"index\":0,\"delta\":{},\"finish_reason\":\"bored\"}]}";
    let (items, _, _) = run(Stub::new(vec![event(payload).as_bytes()]));
    assert_eq!(
        items,
        vec![StreamItem::Outcome(DecodeOutcome::Failure(DecodeFailure {
            kind: FailureKind::UnexpectedShape,
            cause: "not a completion chunk".to_string(),
            raw: payload.as_bytes().to_vec(),
        }))]
    );
}

#[test]
fn tool_call_fragments_decoded() {
    let payload = "{\"id\":\"t\",\"created\":9,\"model\":\"m\",\"choices\":[{\"index\":0,\"delta\":{\"tool_calls\":[{\"index\":0,\"id\":\"call_1\",\"type\":\"function\",\"function\":{\"name\":\"lookup\",\"arguments\":\"{\\\"q\\\"\"}}]},\"finish_reason\":\"tool_calls\"}]}";
    let (items, _, _) = run(Stub::new(vec![event(payload).as_bytes()]));
    assert_eq!(
        items,
        vec![StreamItem::Outcome(DecodeOutcome::Chunk(CompletionChunk {
            id: "t".to_string(),
            created: 9,
            model: "m".to_string(),
            choices: vec![ChunkChoice {
                index: 0,
                delta: ChunkDelta {
                    role: None,
                    content: None,
                    tool_calls: Some(vec![ToolCallDelta {
                        index: 0,
                        id: Some("call_1".to_string()),
                        name: Some("lookup".to_string()),
                        arguments: Some("{\"q\"".to_string()),
                    }]),
                },
                finish_reason: Some(FinishReason::ToolCalls),
            }],
        }))]
    );
}
