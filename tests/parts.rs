use openai_dive::chunk::{
    choice_from_parts, chunk_from_parts, decimal_exec, tool_call_from_parts, decode_payload, finish_reason_from_text, DecodeOutcome,
    FailureKind, FinishReason,
};
use openai_dive::client::Client;
use openai_dive::event::{is_terminal_marker, EventAssembler};
use openai_dive::frame::FrameSplitter;

#[test]
fn splitter_handles_boundaries() {
    let mut s = FrameSplitter::new();
    assert_eq!(s.push(b"ab"), Vec::<Vec<u8>>::new());
    assert_eq!(s.push(b"\n"), vec![b"ab".to_vec()]);
    assert_eq!(s.push(b"c\n\nd\ne"), vec![b"c".to_vec(), Vec::<u8>::new(), b"d".to_vec()]);
    assert_eq!(s.push(b""), Vec::<Vec<u8>>::new());
    assert_eq!(s.push(b"f\n"), vec![b"ef".to_vec()]);
    s.push(b"dangling");
    s.discard();
    assert_eq!(s.push(b"\n"), vec![Vec::<u8>::new()]);
}

#[test]
fn assembler_joins_data_lines() {
    let mut a = EventAssembler::new();
    assert_eq!(a.accept_line(b"data: one"), None);
    assert_eq!(a.accept_line(b": a comment"), None);
    assert_eq!(a.accept_line(b"event: message"), None);
    assert_eq!(a.accept_line(b"data:two"), None);
    assert_eq!(a.accept_line(b"data:  three"), None);
    assert_eq!(a.accept_line(b""), Some(b"one\ntwo\n three".to_vec()));
    assert_eq!(a.accept_line(b""), None);
    assert!(!a.is_done());
    assert_eq!(a.accept_line(b"data: [DONE]"), None);
    assert_eq!(a.accept_line(b""), None);
    assert!(a.is_done());
}

#[test]
fn empty_data_line_is_an_event() {
    let mut a = EventAssembler::new();
    assert_eq!(a.accept_line(b"data:"), None);
    assert_eq!(a.accept_line(b""), Some(Vec::<u8>::new()));
}

#[test]
fn terminal_marker_is_exact() {
    assert!(is_terminal_marker(&b"[DONE]".to_vec()));
    assert!(!is_terminal_marker(&b"[DONE] ".to_vec()));
    assert!(!is_terminal_marker(&b"[done]".to_vec()));
}

#[test]
fn finish_reasons() {
    assert_eq!(finish_reason_from_text("stop"), Some(FinishReason::Stop));
    assert_eq!(finish_reason_from_text("length"), Some(FinishReason::Length));
    assert_eq!(finish_reason_from_text("content_filter"), Some(FinishReason::ContentFilter));
    assert_eq!(finish_reason_from_text("tool_calls"), Some(FinishReason::ToolCalls));
    assert_eq!(finish_reason_from_text("Stop"), None);
}

#[test]
fn parts_build_values() {
    let c = choice_from_parts(Some(1), Some(None), Some(Some("x".to_string())), Some(None), Some(Some("stop".to_string())))
        .unwrap();
    assert_eq!(c.index, 1);
    assert_eq!(c.delta.content, Some("x".to_string()));
    assert_eq!(c.finish_reason, Some(FinishReason::Stop));
    assert!(choice_from_parts(None, Some(None), Some(None), Some(None), Some(None)).is_none());
    assert!(choice_from_parts(Some(0), Some(None), Some(None), None, Some(None)).is_none());
    assert!(choice_from_parts(Some(0), Some(None), Some(None), Some(None), Some(Some("odd".to_string()))).is_none());
    let k = chunk_from_parts(Some("i".to_string()), Some(3), Some("m".to_string()), Some(vec![c]))
        .unwrap();
    assert_eq!(k.id, "i");
    assert_eq!(k.created, 3);
    assert!(chunk_from_parts(Some("i".to_string()), None, Some("m".to_string()), Some(vec![])).is_none());
}

#[test]
fn decode_failures_keep_payload() {
    match decode_payload(b"[1, 2".to_vec()) {
        DecodeOutcome::Failure(f) => {
            assert_eq!(f.kind, FailureKind::InvalidJson);
            assert_eq!(f.raw, b"[1, 2".to_vec());
        }
        other => panic!("unexpected {:?}", other),
    }
    match decode_payload(b"{\"id\":1}".to_vec()) {
        DecodeOutcome::Failure(f) => assert_eq!(f.kind, FailureKind::UnexpectedShape),
        other => panic!("unexpected {:?}", other),
    }
    match decode_payload(b"{\"id\":\"q\",\"created\":0,\"model\":\"m\",\"choices\":[]}".to_vec()) {
        DecodeOutcome::Chunk(c) => {
            assert_eq!(c.id, "q");
            assert!(c.choices.is_empty());
        }
        other => panic!("unexpected {:?}", other),
    }
}

#[test]
fn endpoint_paths() {
    let client = Client::new("https://api.example.com/v1".to_string(), "test-key".to_string());
    let ft = client.fine_tuning();
    assert_eq!(ft.jobs_path(), "/fine_tuning/jobs");
    assert_eq!(ft.job_path("ft-1"), "/fine_tuning/jobs/ft-1");
    assert_eq!(ft.cancel_path("ft-1"), "/fine_tuning/jobs/ft-1/cancel");
    assert_eq!(ft.events_path("ft-1"), "/fine_tuning/jobs/ft-1/events");
    assert_eq!(client.moderations().create_path(), "/moderations");
    assert!(std::ptr::eq(ft.client, &client));
}

#[test]
fn tool_call_parts() {
    let t = tool_call_from_parts(Some(4), Some(None), Some(Some("f".to_string())), Some(Some("{".to_string())))
        .unwrap();
    assert_eq!(t.index, 4);
    assert_eq!(t.id, None);
    assert_eq!(t.name, Some("f".to_string()));
    assert_eq!(t.arguments, Some("{".to_string()));
    assert!(tool_call_from_parts(None, Some(None), Some(None), Some(None)).is_none());
}

#[test]
fn decimal_numbers() {
    assert_eq!(decimal_exec(&b"18446744073709551615".to_vec()), Some(u64::MAX));
    assert_eq!(decimal_exec(&b"18446744073709551616".to_vec()), None);
    assert_eq!(decimal_exec(&b"99999999999999999999".to_vec()), None);
    assert_eq!(decimal_exec(&b"1700000000".to_vec()), Some(1700000000));
    assert_eq!(decimal_exec(&b"0".to_vec()), Some(0));
    assert_eq!(decimal_exec(&b"1.5".to_vec()), None);
    assert_eq!(decimal_exec(&b"-3".to_vec()), None);
    assert_eq!(decimal_exec(&Vec::<u8>::new()), None);
}

#[test]
fn float_created_is_shape_failure() {
    match decode_payload(b"{\"id\":\"q\",\"created\":1.5,\"model\":\"m\",\"choices\":[]}".to_vec()) {
        DecodeOutcome::Failure(f) => assert_eq!(f.kind, FailureKind::UnexpectedShape),
        other => panic!("unexpected {:?}", other),
    }
}
