//! Routing and forwarding of requests.

use llm_orch::config::{
    AliasConfig, AliasPolicy, Config, MakeRoomMode, ModelConfig, PortRange, ServerConfig,
};
use llm_orch::debug_log::{timestamp, ts_now};
use llm_orch::exchange::{
    end_stream, finish_request, forward_audio_post, send_audio, send_request, send_voices,
    start_stream, AudioEvent, AudioStep, Slot, StreamReply, StreamStart,
};
use llm_orch::forwarding::{
    aggregate_outcome, audio_reply, audio_speech, audio_transcriptions, audio_voices,
    backend_url, chat_completions, completion_line, completion_record, completions, count_tokens,
    embeddings, headers_timeout_words, keep_reply, log_audio_reply, log_audio_request, log_request,
    log_stream, no_headers, path_of, rerank, responses,
    responses_input_tokens, status_words, urlencoding_simple, voices_url, AudioReply, Endpoint,
    Exchange, Reply,
};
use llm_orch::handlers::{
    admin_load, admin_unblock, admin_unload, alias_infos, info_endpoint, known_model,
    list_models, resolve_alias, route,
};
use llm_orch::scheduler::{AcquireError, InstanceManager};
use llm_orch::server::{acquire_error, ApiError};
use llm_orch::sse::{SseForwarder, StreamInput, StreamStep};

fn model(name: &str) -> ModelConfig {
    ModelConfig {
        name: name.to_owned(),
        context_length: 4096,
        max_instances: 1,
        max_concurrent: 4,
        priority: 0,
        vram: 0,
        ram: 0,
        idle_ttl: 60,
        queue_depth: 10,
        cmd: "sleep 3600".to_owned(),
        vulkan_devices: vec![],
        cuda_devices: vec![],
        gpus: 1,
        debug_log: None,
        autoscale: None,
        loading_dots: None,
    }
}

fn config(models: Vec<ModelConfig>) -> Config {
    Config {
        server: ServerConfig {
            listen: "127.0.0.1:8080".to_owned(),
            port_range: PortRange::Range {
                start: 9000,
                end: 9010,
            },
            backend_total_timeout_secs: 900,
            backend_idle_timeout_secs: 300,
            shutdown_drain_timeout_secs: 60,
            loading_dots: None,
        },
        apikeys_file: "apikeys.txt".to_owned(),
        cmd_aliases: vec![],
        models,
        aliases: vec![],
        devices: None,
        keep_alive: None,
    }
}

fn alias(name: &str, targets: &[&str]) -> AliasConfig {
    AliasConfig {
        name: name.to_owned(),
        targets: targets.iter().map(|t| t.to_string()).collect(),
        policy: AliasPolicy::PreferOrder,
        make_room: MakeRoomMode::Never,
        drain_timeout: 30,
    }
}

fn routed() -> Config {
    let mut cfg = config(vec![model("big"), model("small")]);
    cfg.models[1].debug_log = Some("/tmp/small.jsonl".to_owned());
    cfg.aliases = vec![alias("fast", &["small", "big"])];
    cfg
}

fn exchange() -> Exchange {
    Exchange {
        request_id: "req-1".to_owned(),
        instance_id: "small@cpu#0".to_owned(),
        api_user: "laptop".to_owned(),
    }
}

#[test]
fn aliases_lead_to_their_first_target() {
    let cfg = routed();
    let (targets, policy, room, drain) = resolve_alias(&cfg.aliases, "fast");
    assert_eq!(targets, vec!["small", "big"]);
    assert_eq!(policy, AliasPolicy::PreferOrder);
    assert_eq!(room, MakeRoomMode::Never);
    assert_eq!(drain, 30);
    assert_eq!(resolve_alias(&cfg.aliases, "big").0, vec!["big"]);

    let to = route(&cfg, "fast").unwrap();
    assert_eq!(to.model_name, "small");
    assert_eq!(to.request_model, "fast");
    assert_eq!(to.debug_log.as_deref(), Some("/tmp/small.jsonl"));
    assert_eq!((to.idle_timeout, to.total_timeout), (300, 900));
}

#[test]
fn unknown_models_are_refused() {
    let cfg = routed();
    for refused in [
        chat_completions(&cfg, "gone", false),
        completions(&cfg, "gone", true),
        embeddings(&cfg, "gone"),
        rerank(&cfg, "gone"),
        responses(&cfg, "{\"model\":\"gone\"}"),
        responses_input_tokens(&cfg, "{\"model\":\"gone\"}"),
    ] {
        let err = refused.expect_err("there is no such model");
        assert_eq!(err.message(), "model not found: gone");
        assert_eq!(err.status(), 404);
    }
    assert!(known_model(&cfg, "big").is_ok());
    assert!(known_model(&cfg, "fast").is_err());
}

#[test]
fn typed_requests_keep_their_stream_flag() {
    let cfg = routed();
    let call = chat_completions(&cfg, "fast", true).unwrap();
    assert_eq!(call.endpoint, Endpoint::Chat);
    assert!(call.stream && call.body.is_none());
    assert_eq!(call.route.model_name, "small");
    assert!(!completions(&cfg, "big", false).unwrap().stream);
    assert_eq!(path_of(embeddings(&cfg, "big").unwrap().endpoint), "/v1/embeddings");
    assert_eq!(path_of(rerank(&cfg, "big").unwrap().endpoint), "/v1/rerank");
}

#[test]
fn documents_are_passed_on_with_the_resolved_name() {
    let cfg = routed();
    let call = responses(&cfg, "{\"input\":\"hi\",\"model\":\"fast\",\"stream\":true}").unwrap();
    assert!(call.stream);
    assert_eq!(
        call.body.as_deref(),
        Some("{\"input\":\"hi\",\"model\":\"small\",\"stream\":true}")
    );
    let call = responses_input_tokens(&cfg, "{\"model\":\"big\",\"input\":[1]}").unwrap();
    assert!(!call.stream);
    assert_eq!(call.body.as_deref(), Some("{\"model\":\"big\",\"input\":[1]}"));
    for body in ["{}", "{\"model\":7}"] {
        let err = responses(&cfg, body).expect_err("no model is named");
        assert_eq!(err.status(), 400, "{}", err.message());
    }
}

#[test]
fn audio_requests_are_routed() {
    let cfg = routed();
    let call = audio_speech(&cfg, "{\"model\":\"fast\",\"input\":\"hello\"}").unwrap();
    assert_eq!(call.endpoint, Endpoint::Speech);
    assert_eq!(call.content_type, "application/json");
    assert_eq!(
        String::from_utf8(call.body).unwrap(),
        "{\"model\":\"small\",\"input\":\"hello\"}"
    );
    assert!(audio_speech(&cfg, "{}").is_err());

    let form = "--b\r\nContent-Disposition: form-data; name=\"model\"\r\n\r\nfast\r\n--b--\r\n";
    let call =
        audio_transcriptions(&cfg, "multipart/form-data; boundary=b", form.as_bytes()).unwrap();
    assert_eq!(call.endpoint, Endpoint::Transcriptions);
    assert_eq!(call.content_type, "multipart/form-data; boundary=b");
    assert!(String::from_utf8(call.body).unwrap().contains("\r\n\r\nsmall\r\n"));

    let call = audio_transcriptions(&cfg, "application/json", b"{\"model\":\"big\"}").unwrap();
    assert_eq!(call.route.model_name, "big");
    assert_eq!(String::from_utf8(call.body).unwrap(), "{\"model\":\"big\"}");
    assert!(audio_transcriptions(&cfg, "application/json", b"{").is_err());
    assert!(audio_transcriptions(&cfg, "multipart/form-data", form.as_bytes()).is_err());
    // A file called like the field is no field.
    let file = "--b\r\nContent-Disposition: form-data; name=\"file\"; filename=\"model\"\r\n\r\nfast\r\n--b--\r\n";
    assert!(matches!(
        audio_transcriptions(&cfg, "multipart/form-data; boundary=b", file.as_bytes()),
        Err(ApiError::BadRequest(words)) if words == "multipart request missing 'model' field"
    ));

    assert_eq!(audio_voices(&cfg, Some("fast")).unwrap().model_name, "small");
    assert!(audio_voices(&cfg, Some("gone")).is_err());
    assert!(audio_voices(&cfg, None).is_err());
}

#[test]
fn addresses_are_built() {
    assert_eq!(backend_url(9001, "/v1/rerank"), "http://127.0.0.1:9001/v1/rerank");
    assert_eq!(urlencoding_simple("a b/ü~"), "a%20b%2F%C3%BC~");
    assert_eq!(
        voices_url(9001, "a b"),
        "http://127.0.0.1:9001/v1/audio/voices?model=a%20b"
    );
}

#[test]
fn replies_become_documents_or_errors() {
    assert_eq!(
        aggregate_outcome(Reply::Document("{}".to_owned()), 1).unwrap(),
        "{}"
    );
    let status = Reply::BadStatus {
        status: "500 Internal Server Error".to_owned(),
        text: "oops".to_owned(),
    };
    assert_eq!(
        aggregate_outcome(status, 1).unwrap_err().message(),
        "internal error: backend returned 500 Internal Server Error: oops"
    );
    assert_eq!(
        aggregate_outcome(Reply::Failed("x".to_owned()), 1).unwrap_err().message(),
        "internal error: backend request failed: x"
    );
    assert_eq!(
        aggregate_outcome(Reply::Unreadable("x".to_owned()), 1).unwrap_err().message(),
        "internal error: failed to parse backend response: x"
    );
    assert_eq!(
        no_headers(4).message(),
        "backend timeout: backend sent no response headers within 4s"
    );
    assert_eq!(audio_reply("text/event-stream; charset=utf-8"), AudioReply::Stream);
    assert_eq!(audio_reply("audio/wav"), AudioReply::Aggregate);
    assert_eq!(audio_reply(""), AudioReply::Aggregate);
}

#[test]
fn a_tracked_reply_is_logged_and_recorded() {
    let cfg = routed();
    let call = chat_completions(&cfg, "fast", false).unwrap();
    let reply = "{\"usage\":{\"prompt_tokens\":4,\"completion_tokens\":6}}";
    let kept = keep_reply(&call, &exchange(), "1.000", reply, 25);
    let record = kept.record.unwrap();
    assert_eq!((record.prompt_tokens, record.generated_tokens), (4, 6));
    assert_eq!(record.duration_ms, 25);
    assert_eq!(record.instance_id, "small@cpu#0");
    assert_eq!(record.api_user, "laptop");
    let entry = kept.log.unwrap();
    assert_eq!(entry.model, "small");
    assert_eq!(entry.alias.as_deref(), Some("fast"));
    assert_eq!(entry.duration_ms, Some(25));

    // A model without a debug log is recorded only.
    let call = chat_completions(&cfg, "big", false).unwrap();
    assert!(log_request(&call, &exchange(), "1.000", "{}").is_none());
    let kept = keep_reply(&call, &exchange(), "1.000", reply, 25);
    assert!(kept.log.is_none() && kept.record.is_some());
}

#[test]
fn requests_are_logged_where_asked_for() {
    let cfg = routed();
    let call = chat_completions(&cfg, "fast", true).unwrap();
    let entry = log_request(&call, &exchange(), "1.000", "{\"model\":\"small\"}").unwrap();
    assert_eq!(entry.dir, "request");
    assert_eq!(entry.stream, Some(true));
    assert_eq!(entry.body.as_deref(), Some("{\"model\":\"small\"}"));
    assert_eq!(entry.request_id, "req-1");

    let entry = log_stream(
        &call.route,
        &exchange(),
        "2.000",
        None,
        9,
        Some("why".to_owned()),
    );
    assert_eq!(entry.error.as_deref(), Some("why"));
    assert_eq!(entry.duration_ms, Some(9));
    assert_eq!(
        headers_timeout_words(3),
        "backend idle timeout (3s) waiting for response headers"
    );
    assert!(status_words(500, "oops").contains("oops"));

    let speech = audio_speech(&cfg, "{\"model\":\"fast\"}").unwrap();
    assert!(log_audio_request(&speech, &exchange(), "1.0").is_some());
    assert!(log_audio_reply(&speech.route, &exchange(), "1.0", 200, "audio/wav", b"RIFF").is_some());
}

#[test]
fn token_counts_follow_the_endpoint() {
    let counts = count_tokens(
        Endpoint::Responses,
        "{\"usage\":{\"input_tokens\":1,\"output_tokens\":2,\
         \"input_tokens_details\":{\"cached_tokens\":1}}}",
    );
    assert_eq!((counts.prompt, counts.generated, counts.cached), (1, 2, 1));
    let record = completion_record(&exchange(), "3.000", counts, 11);
    assert_eq!((record.prompt_tokens, record.generated_tokens, record.cached_tokens), (1, 2, 1));
    assert_eq!(record.ts, "3.000");
}

#[test]
fn completion_replies_gain_their_speed() {
    let line = completion_line(
        "{\"id\":\"x\",\"usage\":{\"completion_tokens\":5}}",
        "small",
        "small@cpu#0",
        "2.5",
        2000,
    );
    assert!(line.contains("small@cpu#0"), "{line}");
}

#[test]
fn timestamps_have_milliseconds() {
    assert_eq!(timestamp(1_700_000_000, 7), "1700000000.007");
    assert_eq!(timestamp(0, 999), "0.999");
}

#[test]
fn models_and_aliases_are_listed() {
    let cfg = routed();
    let list = list_models(&cfg, 5);
    assert_eq!(list.object, "list");
    let ids: Vec<&str> = list.data.iter().map(|m| m.id.as_str()).collect();
    assert_eq!(ids, vec!["big", "small", "fast"]);
    assert_eq!(list.data[0].context_length, Some(4096));
    assert!(list.data.iter().all(|m| m.created == 5 && m.object == "model"));
    let infos = alias_infos(&cfg);
    assert_eq!(infos.len(), 1);
    assert_eq!(infos[0].name, "fast");
    assert_eq!(infos[0].targets, vec!["small", "big"]);
}

#[test]
fn info_tells_the_state_of_every_model() {
    let mut mgr = InstanceManager::new(routed(), None);
    mgr.block_model("small");
    let infos = info_endpoint(&mgr, &routed());
    assert_eq!(infos.len(), 2);
    assert_eq!((infos[0].name.as_str(), infos[0].blocked), ("big", false));
    assert_eq!((infos[1].name.as_str(), infos[1].blocked), ("small", true));
    assert_eq!(infos[1].queue_depth_max, 10);
    assert_eq!(infos[1].instance_count, 0);

    let answer = admin_unblock(&mut mgr, "small");
    assert!(!mgr.is_blocked("small"));
    assert_eq!(answer.status, "ok");
    assert_eq!(admin_load("small").status, "ok");
    assert_eq!(admin_unload("small", 1, 2).status, "ok");
}

#[test]
fn acquire_errors_are_answered() {
    assert!(matches!(
        acquire_error("m", AcquireError::Blocked),
        ApiError::ModelBlocked(_)
    ));
    assert!(matches!(
        acquire_error("m", AcquireError::NoCapacity),
        ApiError::NoCapacity(_)
    ));
    assert!(matches!(
        acquire_error("m", AcquireError::Unavailable),
        ApiError::ModelUnavailable(_)
    ));
}

#[test]
fn the_clock_is_read_with_milliseconds() {
    let now = ts_now();
    let (secs, millis) = now.split_once('.').unwrap();
    // Later than 2020, and never more than three digits of a second.
    assert!(secs.parse::<u64>().unwrap() > 1_577_836_800);
    assert_eq!(millis.len(), 3);
    assert!(millis.parse::<u32>().unwrap() < 1000);
}

fn slot() -> Result<Slot, AcquireError> {
    Ok(Slot {
        instance_id: "small@cpu#0".to_owned(),
        port: 9001,
    })
}

#[test]
fn a_request_with_a_slot_is_sent() {
    let cfg = routed();
    let call = chat_completions(&cfg, "fast", false).unwrap();
    let sending = send_request(&call, slot(), "req-1", "laptop", "1.000", "{}").unwrap();
    assert_eq!(sending.url, "http://127.0.0.1:9001/v1/chat/completions");
    assert_eq!(sending.limit, Some(900));
    assert_eq!(sending.exchange.instance_id, "small@cpu#0");
    assert_eq!(sending.exchange.api_user, "laptop");
    let entry = sending.log.unwrap();
    assert_eq!((entry.dir.as_str(), entry.stream), ("request", Some(false)));
    assert_eq!(entry.body.as_deref(), Some("{}"));

    // A stream waits for the idle timeout only; a timeout of zero is none.
    let stream = completions(&cfg, "big", true).unwrap();
    let sending = send_request(&stream, slot(), "req-2", "laptop", "1.000", "{}").unwrap();
    assert_eq!(sending.limit, Some(300));
    assert!(sending.log.is_none());
    let mut unbounded = routed();
    unbounded.server.backend_idle_timeout_secs = 0;
    let stream = completions(&unbounded, "big", true).unwrap();
    let sending = send_request(&stream, slot(), "req-2", "laptop", "1.000", "{}").unwrap();
    assert_eq!(sending.limit, None);
}

#[test]
fn a_request_without_a_slot_is_answered() {
    let cfg = routed();
    let call = chat_completions(&cfg, "fast", false).unwrap();
    let err = send_request(
        &call,
        Err(AcquireError::NoCapacity),
        "req-1",
        "laptop",
        "1.000",
        "{}",
    )
    .err()
    .unwrap();
    assert_eq!(err.status(), acquire_error("small", AcquireError::NoCapacity).status());
    assert_eq!(err.message(), acquire_error("small", AcquireError::NoCapacity).message());
    let to = route(&cfg, "small").unwrap();
    assert!(send_voices(&to, Err(AcquireError::Blocked)).is_err());
}

#[test]
fn only_documents_are_recorded() {
    let cfg = routed();
    let call = chat_completions(&cfg, "fast", false).unwrap();
    let text = "{\"usage\":{\"prompt_tokens\":7,\"completion_tokens\":2}}";
    let done = finish_request(
        &call,
        &exchange(),
        "1.000",
        Reply::Document(text.to_owned()),
        12,
    );
    assert_eq!(done.answer.unwrap(), text);
    let record = done.record.unwrap();
    assert_eq!((record.prompt_tokens, record.generated_tokens), (7, 2));
    assert_eq!(record.duration_ms, 12);
    let entry = done.log.unwrap();
    assert_eq!(entry.request_id, record.request_id);
    assert_eq!(entry.dir, "response");

    for (reply, message) in [
        (
            Reply::TimedOut,
            "backend did not complete within 900s",
        ),
        (Reply::Failed("refused".to_owned()), "backend request failed: refused"),
        (
            Reply::Unreadable("eof".to_owned()),
            "failed to parse backend response: eof",
        ),
    ] {
        let done = finish_request(&call, &exchange(), "1.000", reply, 12);
        assert!(done.record.is_none() && done.log.is_none());
        assert!(done.answer.unwrap_err().message().ends_with(message));
    }
}

#[test]
fn streams_begin_with_events_or_an_error() {
    let to = route(&routed(), "fast").unwrap();
    let x = exchange();
    match start_stream(&to, &x, true, "1.000", 5, StreamReply::Late) {
        StreamStart::Single { event, log } => {
            assert_eq!(event.event.as_deref(), Some("error"));
            assert_eq!(
                log.unwrap().error.unwrap(),
                "backend idle timeout (300s) waiting for response headers"
            );
        }
        _ => panic!("a silent backend is reported in an event"),
    }
    let refused = StreamReply::BadStatus {
        code: 503,
        text: "loading".to_owned(),
    };
    match start_stream(&to, &x, false, "1.000", 5, refused) {
        StreamStart::Single { event, log } => {
            assert!(event.data.contains("backend error: loading"));
            assert!(event.data.contains("503"));
            assert!(log.is_none());
        }
        _ => panic!("an error status is reported in an event"),
    }
    match start_stream(&to, &x, true, "1.000", 5, StreamReply::Failed("gone".to_owned())) {
        StreamStart::Refuse(e) => assert_eq!(e.message(), "internal error: backend request failed: gone"),
        _ => panic!("without a reply there is no stream"),
    }
    assert!(matches!(
        start_stream(&to, &x, true, "1.000", 5, StreamReply::Open),
        StreamStart::Forward(_)
    ));
}

#[test]
fn ended_streams_are_recorded_when_done() {
    let to = route(&routed(), "fast").unwrap();
    let x = exchange();
    let mut forwarder = SseForwarder::new(true, 300);
    let cut = end_stream(&to, &x, true, "1.000", 9, &forwarder);
    assert!(cut.record.is_none());
    assert!(cut.log.unwrap().error.is_some());

    let bytes = b"data: {\"usage\":{\"prompt_tokens\":4}}\n\ndata: [DONE]\n\n".to_vec();
    let mut step = forwarder.receive(StreamInput::Chunk(bytes));
    while let StreamStep::Emit(_) = step {
        step = forwarder.poll_next();
    }
    let end = end_stream(&to, &x, true, "1.000", 9, &forwarder);
    assert_eq!(end.record.unwrap().prompt_tokens, 4);
    let entry = end.log.unwrap();
    assert!(entry.error.is_none());
    assert_eq!(
        entry.body.unwrap(),
        "{\"chunks\":[\"{\\\"usage\\\":{\\\"prompt_tokens\\\":4}}\"]}"
    );
    assert!(end_stream(&to, &x, false, "1.000", 9, &forwarder).log.is_none());
}

#[test]
fn audio_replies_are_taken_step_by_step() {
    let cfg = routed();
    let call = audio_speech(&cfg, "{\"model\":\"fast\",\"input\":\"hi\"}").unwrap();
    let sending = send_audio(&call, slot(), "req-1", "laptop", "1.000").unwrap();
    assert_eq!(sending.url, "http://127.0.0.1:9001/v1/audio/speech");
    assert_eq!(sending.limit, Some(300));
    assert_eq!(
        sending.log.unwrap().body.unwrap(),
        "{\"model\":\"small\",\"input\":\"hi\"}"
    );
    let to = call.route;
    let x = exchange();
    let headers = |kind: &str| AudioEvent::Headers {
        content_type: kind.to_owned(),
    };
    let step = |event: AudioEvent| forward_audio_post(&to, &x, "1.000", event);
    assert!(matches!(
        step(headers("text/event-stream; charset=utf-8")),
        AudioStep::Forward(_)
    ));
    for kind in ["audio/wav", "text/plain", ""] {
        assert!(matches!(
            step(headers(kind)),
            AudioStep::ReadBody { limit: Some(900) }
        ));
    }
    match step(AudioEvent::Body {
        code: 200,
        content_type: "audio/wav".to_owned(),
        body: vec![0; 44],
    }) {
        AudioStep::PassOn {
            code,
            content_type,
            body,
            log,
        } => {
            assert_eq!((code, content_type.as_str()), (200, "audio/wav"));
            assert_eq!(body, vec![0; 44]);
            assert_eq!(
                log.unwrap().body.unwrap(),
                "{\"content_type\":\"audio/wav\",\"bytes\":44}"
            );
        }
        _ => panic!("a body is passed on"),
    }
    // An error status is passed on too, and noted in the log.
    match step(AudioEvent::Body {
        code: 422,
        content_type: "text/plain".to_owned(),
        body: b"no voice".to_vec(),
    }) {
        AudioStep::PassOn {
            code,
            content_type,
            body,
            log,
        } => {
            assert_eq!((code, content_type.as_str()), (422, "text/plain"));
            assert_eq!(body, b"no voice");
            let entry = log.unwrap();
            assert_eq!(entry.error.unwrap(), "backend 422: no voice");
            assert!(entry.body.is_none());
        }
        _ => panic!("an error reply is passed on"),
    }
    for (event, status, words) in [
        (AudioEvent::Late, 504, "backend sent no response headers within 300s"),
        (AudioEvent::BodyLate, 504, "backend did not complete within 900s"),
        (
            AudioEvent::Failed("gone".to_owned()),
            500,
            "backend request failed: gone",
        ),
        (
            AudioEvent::BodyFailed("cut".to_owned()),
            500,
            "failed to read backend response: cut",
        ),
    ] {
        match step(event) {
            AudioStep::Refuse(error) => {
                assert_eq!(error.status(), status);
                assert!(error.message().ends_with(words));
            }
            _ => panic!("a failure is an error"),
        }
    }
    let (url, limit) = send_voices(&to, slot()).unwrap();
    assert_eq!(url, "http://127.0.0.1:9001/v1/audio/voices?model=small");
    assert_eq!(limit, Some(900));
}
