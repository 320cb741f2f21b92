//! Event streams.

use llm_orch::forwarding::{aggregate_outcome, Reply};
use llm_orch::server::ApiError;
use llm_orch::sse::{
    backend_error_event, detect_separator_len, extract_sse_event, find_double_newline,
    no_response_event, parse_event, read_usage, SseEvent, SseForwarder, StreamInput, StreamStep,
    TokenCounts,
};

/// Runs a stream to its end and gives the events that were sent.
fn drain(stream: &mut SseForwarder, chunks: &[&str]) -> Vec<SseEvent> {
    let mut events = Vec::new();
    let mut rest = chunks.iter();
    let mut step = stream.poll_next();
    loop {
        match step {
            StreamStep::Emit(e) => {
                events.push(e);
                step = stream.poll_next();
            }
            StreamStep::NeedInput => {
                let input = match rest.next() {
                    Some(c) => StreamInput::Chunk(c.as_bytes().to_vec()),
                    None => StreamInput::End,
                };
                step = stream.receive(input);
            }
            StreamStep::Wait => panic!("nothing to wait for"),
            StreamStep::Finished => return events,
        }
    }
}

#[test]
fn clean_completion_forwards_done_exactly_once() {
    let mut stream = SseForwarder::new(false, 0);
    let events = drain(
        &mut stream,
        &[
            "data: {\"choices\":[{\"delta\":{\"content\":\"hi\"}}]}\n\n",
            "data: {\"usage\":{\"prompt_tokens\":3,\"completion_tokens\":2}}\n\n",
            "data: [DONE]\n\n",
        ],
    );
    assert_eq!(events.len(), 3, "chunk + usage + [DONE], nothing synthetic");
    assert!(events[2].data.contains("[DONE]"));
    assert!(
        !events.iter().any(|e| e.data.contains("stream_truncated")),
        "clean completion must not emit a truncation error"
    );
    assert!(stream.saw_done());
    let counts = stream.completion().expect("clean completion must be recorded");
    assert_eq!((counts.prompt, counts.generated), (3, 2));
}

#[test]
fn truncated_stream_signals_error_not_fake_done() {
    let mut stream = SseForwarder::new(false, 0);
    let events = drain(
        &mut stream,
        &["data: {\"choices\":[{\"delta\":{\"content\":\"hi\"}}]}\n\n"],
    );
    assert_eq!(events.len(), 2, "content chunk + truncation error");
    assert!(events[1].data.contains("stream_truncated"));
    assert!(!events[1].data.contains("[DONE]"));
    assert!(!stream.saw_done());
    assert!(
        stream.completion().is_none(),
        "truncated stream must not record a phantom completion"
    );
}

#[test]
fn client_disconnect_records_no_completion() {
    let mut stream = SseForwarder::new(false, 0);
    // Consume one event, then leave before [DONE] is seen.
    assert!(matches!(stream.poll_next(), StreamStep::NeedInput));
    let first = stream.receive(StreamInput::Chunk(
        b"data: {\"choices\":[{\"delta\":{\"content\":\"hi\"}}]}\n\ndata: [DONE]\n\n".to_vec(),
    ));
    assert!(matches!(first, StreamStep::Emit(_)));
    assert!(!stream.saw_done());
    assert!(stream.completion().is_none());
    assert!(stream.debug_error().is_some());
}

#[test]
fn unterminated_tail_event_is_not_forwarded() {
    let mut stream = SseForwarder::new(false, 0);
    let events = drain(
        &mut stream,
        &["data: {\"choices\":[{\"delta\":{\"content\":\"hi\"}}]"],
    );
    assert_eq!(events.len(), 1, "only the truncation error");
    assert!(events[0].data.contains("stream_truncated"));
}

#[test]
fn idle_timeout_signals_error_and_ends_stream() {
    let mut stream = SseForwarder::new(false, 1);
    assert!(matches!(stream.poll_next(), StreamStep::NeedInput));
    match stream.receive(StreamInput::Chunk(
        b"data: {\"choices\":[{\"delta\":{\"content\":\"hi\"}}]}\n\n".to_vec(),
    )) {
        StreamStep::Emit(first) => assert!(first.data.contains("hi")),
        _ => panic!("the first chunk must be forwarded"),
    }

    assert!(matches!(stream.poll_next(), StreamStep::NeedInput));
    assert!(matches!(
        stream.receive(StreamInput::Pending { timed_out: false }),
        StreamStep::Wait
    ));
    match stream.receive(StreamInput::Pending { timed_out: true }) {
        StreamStep::Emit(second) => {
            assert!(second.data.contains("backend_idle_timeout"));
            assert!(second.data.contains("backend sent no data for 1s (idle timeout)"));
        }
        _ => panic!("the idle error must be sent"),
    }
    assert!(
        matches!(stream.poll_next(), StreamStep::Finished),
        "stream must end after the idle error"
    );
    assert!(!stream.saw_done());
    assert!(
        stream.completion().is_none(),
        "idle-timed-out stream must not record a completion"
    );
}

#[test]
fn aggregate_request_times_out_on_hung_backend() {
    let err = aggregate_outcome(Reply::TimedOut, 7).expect_err("hung backend must time out");
    assert!(
        matches!(err, ApiError::BackendTimeout(_)),
        "expected BackendTimeout, got: {}",
        err.message()
    );
    assert_eq!(err.message(), "backend timeout: backend did not complete within 7s");
}

#[test]
fn chunks_are_not_buffered_without_debug_log() {
    let mut stream = SseForwarder::new(false, 0);
    drain(
        &mut stream,
        &[
            "data: {\"choices\":[{\"delta\":{\"content\":\"a\"}}]}\n\n",
            "data: {\"choices\":[{\"delta\":{\"content\":\"b\"}}]}\n\n",
            "data: {\"choices\":[{\"delta\":{\"content\":\"c\"}}]}\n\n",
            "data: {\"usage\":{\"prompt_tokens\":1,\"completion_tokens\":3}}\n\n",
            "data: [DONE]\n\n",
        ],
    );
    assert!(
        stream.chunk_count() <= 1,
        "without a debug log only the usage chunk is kept, got {}",
        stream.chunk_count()
    );
    assert_eq!(stream.completion().unwrap().generated, 3);
}

#[test]
fn a_debug_log_keeps_every_chunk() {
    let mut stream = SseForwarder::new(true, 0);
    drain(&mut stream, &["data: a\n\ndata: \"b\"\n\n", "data: [DONE]\n\n"]);
    assert_eq!(stream.chunk_count(), 2);
    assert_eq!(stream.debug_body(), "{\"chunks\":[\"a\",\"\\\"b\\\"\"]}");
    assert_eq!(stream.debug_error(), None);
    assert_eq!(
        stream.completion(),
        Some(TokenCounts {
            prompt: 0,
            generated: 0,
            cached: 0
        })
    );
}

#[test]
fn a_failed_stream_says_so() {
    let mut stream = SseForwarder::new(false, 0);
    match stream.receive(StreamInput::Failed("reset".to_owned())) {
        StreamStep::Emit(e) => {
            assert!(e.data.contains("backend stream error: reset"));
            assert!(e.data.contains("backend_stream_error"));
        }
        _ => panic!("the error must be sent"),
    }
    assert!(matches!(stream.poll_next(), StreamStep::Finished));
}

#[test]
fn events_are_cut_at_blank_lines() {
    assert_eq!(find_double_newline(b"a\n\nb"), Some(1));
    assert_eq!(find_double_newline(b"a\r\n\r\nb"), Some(1));
    assert_eq!(find_double_newline(b"a\nb"), None);
    assert_eq!(detect_separator_len(b"\r\n\r\n"), 4);
    assert_eq!(detect_separator_len(b"\n\n"), 2);
    let mut buffer = b"event: x\ndata: 1\ndata: 2\n\ndata: 3".to_vec();
    let e = extract_sse_event(&mut buffer).unwrap();
    assert_eq!(e.event.as_deref(), Some("x"));
    assert_eq!(e.data, "1\n2");
    assert_eq!(buffer, b"data: 3");
    assert!(extract_sse_event(&mut buffer).is_none());
    assert_eq!(buffer, b"data: 3");
    assert!(parse_event(": comment").is_none());
}

#[test]
fn error_events_are_json() {
    let e = backend_error_event(503, "busy \"now\"");
    let v: serde_json::Value = serde_json::from_str(&e.data).unwrap();
    assert!(v["error"]["message"].as_str().unwrap().contains("busy \"now\""));
    let e = no_response_event(9);
    let v: serde_json::Value = serde_json::from_str(&e.data).unwrap();
    assert!(v["error"]["message"].as_str().unwrap().contains("9s"));
}

#[test]
fn usage_is_read() {
    let text = "{\"usage\":{\"prompt_tokens\":7,\"completion_tokens\":8,\
                \"prompt_tokens_details\":{\"cached_tokens\":2}}}";
    assert_eq!(
        read_usage(text),
        TokenCounts {
            prompt: 7,
            generated: 8,
            cached: 2
        }
    );
    assert_eq!(
        read_usage("no document"),
        TokenCounts {
            prompt: 0,
            generated: 0,
            cached: 0
        }
    );
}

#[test]
fn events_without_data_are_passed_over() {
    let mut stream = SseForwarder::new(false, 0);
    let events = drain(&mut stream, &[": ping\n\ndata: [DONE]\n\n"]);
    assert_eq!(events.len(), 1);
    assert_eq!(events[0].data, "[DONE]");
    assert!(stream.saw_done());
    assert!(matches!(stream.poll_next(), StreamStep::Finished));
}

#[test]
fn chunk_boundaries_do_not_matter() {
    let bytes = ": hi\n\nevent: a\r\ndata: 1\r\n\r\n\n\ndata: 2\n\ndata: [DONE]\n\ndata: cut";
    let whole: Vec<String> = drain(&mut SseForwarder::new(true, 0), &[bytes])
        .into_iter()
        .map(|e| e.data)
        .collect();
    assert_eq!(whole, vec!["1", "2", "[DONE]"]);
    for i in 0..=bytes.len() {
        let (a, b) = bytes.split_at(i);
        let parts: Vec<String> = drain(&mut SseForwarder::new(true, 0), &[a, b])
            .into_iter()
            .map(|e| e.data)
            .collect();
        assert_eq!(parts, whole, "cut at {i}");
    }
    let letters: Vec<String> = bytes.chars().map(|c| c.to_string()).collect();
    let single: Vec<&str> = letters.iter().map(|c| c.as_str()).collect();
    assert_eq!(drain(&mut SseForwarder::new(true, 0), &single).len(), 3);
}
