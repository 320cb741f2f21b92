//! The steps of an exchange with a backend, from the slot that a request is
//! given to the answer that its client gets.

use vstd::prelude::*;
use vstd::utf8::encode_utf8;
use crate::debug_log::{DebugLogEntry, EntryView};
use crate::forwarding::{
    aggregate_outcome, audio_body, audio_reply, audio_reply_entry, backend_address, backend_url,
    completion_record, endpoint_path, entry_of, headers_timeout_words, is_tracked, keep_reply,
    log_audio_reply, log_audio_request, log_request, log_stream, logged_usage, no_headers,
    not_completed, option_entry, path_of, percent_encoded, record_of, reply_counts,
    request_failed, status_words, voices_url, AudioCall, AudioReply, Call, Exchange, Reply,
};
use crate::handlers::Route;
use crate::json::{all_quoted, json_quoted, option_text};
use crate::numbers::decimal;
use crate::scheduler::AcquireError;
use crate::server::{acquire_error, acquire_problem, ApiError, ApiProblem};
use crate::sse::{
    backend_error_event, chunks_json, error_event, error_json_with_code, no_response_event,
    stream_counts, unfinished_words, EventView, SseEvent, SseForwarder, StreamState,
};
use crate::text::{cat, join, starts_with};
use crate::types::{CompletionRecord, RecordView};

verus! {

// ── Sending ─────────────────────────────────────────────────────────────────

/// A slot that a request has been given.
pub struct Slot {
    pub instance_id: String,
    pub port: u16,
}

/// What is to be sent.
pub struct Sending {
    pub exchange: Exchange,
    pub url: String,
    /// How long the reply may take, in seconds; without a bound where `None`.
    pub limit: Option<u64>,
    /// Goes to the debug log of the model before the request is sent.
    pub log: Option<DebugLogEntry>,
}

/// A timeout of zero is none.
pub open spec fn limit_of(secs: u64) -> Option<u64> {
    if secs == 0 {
        None
    } else {
        Some(secs)
    }
}

fn limit(secs: u64) -> (r: Option<u64>)
    ensures
        r == limit_of(secs),
{
    if secs == 0 {
        None
    } else {
        Some(secs)
    }
}

/// `x` is the exchange of a request on a slot.
pub open spec fn is_exchange(x: Exchange, slot: Slot, request_id: Seq<char>, api_user: Seq<char>) -> bool {
    &&& x.request_id@ == request_id
    &&& x.instance_id@ == slot.instance_id@
    &&& x.api_user@ == api_user
}

/// The log entry for a request, if one is written.
pub open spec fn request_entry(call: Call, x: Exchange, ts: Seq<char>, body: Seq<char>) -> Option<
    EntryView,
> {
    if is_tracked(call.endpoint) && call.route.debug_log is Some {
        Some(
            EntryView {
                stream: Some(call.stream),
                body: Some(body),
                ..entry_of(call.route, x, ts, "request"@)
            },
        )
    } else {
        None
    }
}

/// Goes on with a routed request once it has been given a slot, or none. The
/// wait for a stream is bounded by the idle timeout, that for a whole reply by
/// the total timeout.
pub fn send_request(
    call: &Call,
    slot: Result<Slot, AcquireError>,
    request_id: &str,
    api_user: &str,
    ts: &str,
    body: &str,
) -> (r: Result<Sending, ApiError>)
    ensures
        match slot {
            Ok(given) => {
                &&& r matches Ok(s)
                &&& is_exchange(s.exchange, given, request_id@, api_user@)
                &&& s.url@ == backend_address(given.port, endpoint_path(call.endpoint))
                &&& s.limit == limit_of(
                    if call.stream {
                        call.route.idle_timeout
                    } else {
                        call.route.total_timeout
                    },
                )
                &&& option_entry(s.log) == request_entry(*call, s.exchange, ts@, body@)
            },
            Err(e) => r matches Err(x) && x@ == acquire_problem(call.route.model_name@, e),
        },
{
    match slot {
        Ok(given) => {
            let url = backend_url(given.port, path_of(call.endpoint));
            let exchange = Exchange {
                request_id: request_id.to_owned(),
                instance_id: given.instance_id,
                api_user: api_user.to_owned(),
            };
            let log = log_request(call, &exchange, ts, body);
            let secs: u64 = if call.stream {
                call.route.idle_timeout
            } else {
                call.route.total_timeout
            };
            Ok(Sending { exchange, url, limit: limit(secs), log })
        },
        Err(e) => Err(acquire_error(call.route.model_name.as_str(), e)),
    }
}

// ── Whole replies ───────────────────────────────────────────────────────────

/// How an exchange ends.
pub struct Finished {
    /// What the client gets.
    pub answer: Result<String, ApiError>,
    pub log: Option<DebugLogEntry>,
    pub record: Option<CompletionRecord>,
}

/// The error that a reply amounts to, if it is no document.
pub open spec fn reply_problem(reply: Reply, total_timeout: u64) -> Option<ApiProblem> {
    match reply {
        Reply::Document(_) => None,
        Reply::Unreadable(words) => Some(
            ApiProblem::Internal("failed to parse backend response: "@ + words@),
        ),
        Reply::BadStatus { status, text } => Some(
            ApiProblem::Internal("backend returned "@ + status@ + (": "@ + text@)),
        ),
        Reply::Failed(words) => Some(ApiProblem::Internal("backend request failed: "@ + words@)),
        Reply::TimedOut => Some(
            ApiProblem::BackendTimeout(
                "backend did not complete within "@ + decimal(total_timeout as nat) + "s"@,
            ),
        ),
    }
}

/// The log entry for a document, if one is written.
pub open spec fn reply_entry(
    call: Call,
    x: Exchange,
    ts: Seq<char>,
    document: Seq<char>,
    duration_ms: u64,
) -> Option<EntryView> {
    if is_tracked(call.endpoint) && call.route.debug_log is Some {
        Some(
            EntryView {
                stream: Some(false),
                body: Some(document),
                usage: logged_usage(call.endpoint, document),
                duration_ms: Some(duration_ms),
                ..entry_of(call.route, x, ts, "response"@)
            },
        )
    } else {
        None
    }
}

/// The record of a document, if one is made.
pub open spec fn reply_record(
    call: Call,
    x: Exchange,
    ts: Seq<char>,
    document: Seq<char>,
    duration_ms: u64,
) -> Option<RecordView> {
    if is_tracked(call.endpoint) {
        Some(record_of(x, ts, reply_counts(call.endpoint, document), duration_ms))
    } else {
        None
    }
}

/// An optional record, as a mathematical value.
pub open spec fn option_record(r: Option<CompletionRecord>) -> Option<RecordView> {
    match r {
        Some(record) => Some(record@),
        None => None,
    }
}

/// Ends an exchange whose reply is read whole. Only a document is answered,
/// logged and recorded.
pub fn finish_request(call: &Call, x: &Exchange, ts: &str, reply: Reply, duration_ms: u64) -> (r:
    Finished)
    ensures
        match reply {
            Reply::Document(text) => {
                &&& r.answer matches Ok(t)
                &&& t@ == text@
                &&& option_entry(r.log) == reply_entry(*call, *x, ts@, text@, duration_ms)
                &&& option_record(r.record) == reply_record(*call, *x, ts@, text@, duration_ms)
            },
            _ => {
                &&& r.answer matches Err(e)
                &&& reply_problem(reply, call.route.total_timeout) == Some(e@)
                &&& r.log is None
                &&& r.record is None
            },
        },
{
    match aggregate_outcome(reply, call.route.total_timeout) {
        Ok(text) => {
            let kept = keep_reply(call, x, ts, text.as_str(), duration_ms);
            Finished { answer: Ok(text), log: kept.log, record: kept.record }
        },
        Err(e) => Finished { answer: Err(e), log: None, record: None },
    }
}

// ── Streams ─────────────────────────────────────────────────────────────────

/// What came of the request for a stream.
pub enum StreamReply {
    /// No headers within the idle timeout.
    Late,
    /// No reply; holds the words of the HTTP client.
    Failed(String),
    /// An error status and a text.
    BadStatus { code: u16, text: String },
    /// Events follow.
    Open,
}

/// How a stream begins.
pub enum StreamStart {
    /// There is none; the client gets an error.
    Refuse(ApiError),
    /// A single event, and an entry for the debug log.
    Single { event: SseEvent, log: Option<DebugLogEntry> },
    /// Events are forwarded as they come.
    Forward(SseForwarder),
}

/// The log entry for a stream, if one is written.
pub open spec fn stream_entry(
    to: Route,
    x: Exchange,
    logged: bool,
    ts: Seq<char>,
    body: Option<Seq<char>>,
    duration_ms: u64,
    error: Option<Seq<char>>,
) -> Option<EntryView> {
    if logged {
        Some(
            EntryView {
                stream: Some(true),
                body,
                duration_ms: Some(duration_ms),
                error,
                ..entry_of(to, x, ts, "response"@)
            },
        )
    } else {
        None
    }
}

fn log_if(
    logged: bool,
    to: &Route,
    x: &Exchange,
    ts: &str,
    body: Option<String>,
    duration_ms: u64,
    error: Option<String>,
) -> (r: Option<DebugLogEntry>)
    ensures
        option_entry(r) == stream_entry(
            *to,
            *x,
            logged,
            ts@,
            option_text(body),
            duration_ms,
            option_text(error),
        ),
{
    if logged {
        Some(log_stream(to, x, ts, body, duration_ms, error))
    } else {
        None
    }
}

/// Begins a stream. A backend that is silent or refuses is reported to the
/// client in an event, since the client has asked for events.
pub fn start_stream(
    to: &Route,
    x: &Exchange,
    logged: bool,
    ts: &str,
    duration_ms: u64,
    reply: StreamReply,
) -> (r: StreamStart)
    ensures
        match reply {
            StreamReply::Late => {
                &&& r matches StreamStart::Single { event, log }
                &&& event@ == error_event(
                    "backend sent no response for "@ + decimal(to.idle_timeout as nat)
                        + "s (idle timeout)"@,
                    "backend_idle_timeout"@,
                )
                &&& option_entry(log) == stream_entry(
                    *to,
                    *x,
                    logged,
                    ts@,
                    None,
                    duration_ms,
                    Some(
                        "backend idle timeout ("@ + decimal(to.idle_timeout as nat)
                            + "s) waiting for response headers"@,
                    ),
                )
            },
            StreamReply::Failed(words) => r matches StreamStart::Refuse(e) && e@
                == ApiProblem::Internal("backend request failed: "@ + words@),
            StreamReply::BadStatus { code, text } => {
                &&& r matches StreamStart::Single { event, log }
                &&& event@ == (EventView {
                    data: error_json_with_code("backend error: "@ + text@, "backend_error"@, code),
                    event: Some("error"@),
                })
                &&& option_entry(log) == stream_entry(
                    *to,
                    *x,
                    logged,
                    ts@,
                    None,
                    duration_ms,
                    Some("backend "@ + decimal(code as nat) + (": "@ + text@)),
                )
            },
            StreamReply::Open => r matches StreamStart::Forward(f) && f@ == fresh_stream(
                logged,
                to.idle_timeout,
            ),
        },
{
    match reply {
        StreamReply::Late => {
            let words = headers_timeout_words(to.idle_timeout);
            let log = log_if(logged, to, x, ts, None, duration_ms, Some(words));
            StreamStart::Single { event: no_response_event(to.idle_timeout), log }
        },
        StreamReply::Failed(words) => StreamStart::Refuse(request_failed(words.as_str())),
        StreamReply::BadStatus { code, text } => {
            let words = status_words(code, text.as_str());
            let log = log_if(logged, to, x, ts, None, duration_ms, Some(words));
            StreamStart::Single { event: backend_error_event(code, text.as_str()), log }
        },
        StreamReply::Open => StreamStart::Forward(SseForwarder::new(logged, to.idle_timeout)),
    }
}

/// A stream of which nothing has come yet.
pub open spec fn fresh_stream(keep_all: bool, idle_timeout: u64) -> StreamState {
    StreamState {
        buffer: Seq::empty(),
        chunks: Seq::empty(),
        keep_all,
        saw_done: false,
        open: true,
        idle_timeout,
    }
}

/// What a stream leaves behind.
pub struct StreamEnd {
    pub record: Option<CompletionRecord>,
    pub log: Option<DebugLogEntry>,
}

/// Ends a stream, however far it has come: only one that the backend completed
/// is recorded, but every one is logged.
pub fn end_stream(
    to: &Route,
    x: &Exchange,
    logged: bool,
    ts: &str,
    duration_ms: u64,
    forwarder: &SseForwarder,
) -> (r: StreamEnd)
    ensures
        option_record(r.record) == (match stream_counts(forwarder@) {
            Some(counts) => Some(record_of(*x, ts@, counts, duration_ms)),
            None => None,
        }),
        option_entry(r.log) == stream_entry(
            *to,
            *x,
            logged,
            ts@,
            Some(chunks_json(forwarder@.chunks)),
            duration_ms,
            if forwarder@.saw_done {
                None
            } else {
                Some(unfinished_words())
            },
        ),
{
    let record = match forwarder.completion() {
        Some(counts) => Some(completion_record(x, ts, counts, duration_ms)),
        None => None,
    };
    let body = Some(forwarder.debug_body());
    let log = log_if(logged, to, x, ts, body, duration_ms, forwarder.debug_error());
    StreamEnd { record, log }
}

// ── Audio ───────────────────────────────────────────────────────────────────

/// The log entry for an audio request, if one is written.
pub open spec fn audio_entry(call: AudioCall, x: Exchange, ts: Seq<char>) -> Option<EntryView> {
    if call.route.debug_log is Some {
        Some(
            EntryView {
                body: audio_body(call.content_type@, call.body@),
                ..entry_of(call.route, x, ts, "request"@)
            },
        )
    } else {
        None
    }
}

/// Goes on with a routed audio request once it has been given a slot, or none.
/// The wait for the headers is bounded by the idle timeout.
pub fn send_audio(
    call: &AudioCall,
    slot: Result<Slot, AcquireError>,
    request_id: &str,
    api_user: &str,
    ts: &str,
) -> (r: Result<Sending, ApiError>)
    ensures
        match slot {
            Ok(given) => {
                &&& r matches Ok(s)
                &&& is_exchange(s.exchange, given, request_id@, api_user@)
                &&& s.url@ == backend_address(given.port, endpoint_path(call.endpoint))
                &&& s.limit == limit_of(call.route.idle_timeout)
                &&& option_entry(s.log) == audio_entry(*call, s.exchange, ts@)
            },
            Err(e) => r matches Err(x) && x@ == acquire_problem(call.route.model_name@, e),
        },
{
    match slot {
        Ok(given) => {
            let url = backend_url(given.port, path_of(call.endpoint));
            let exchange = Exchange {
                request_id: request_id.to_owned(),
                instance_id: given.instance_id,
                api_user: api_user.to_owned(),
            };
            let log = log_audio_request(call, &exchange, ts);
            Ok(Sending { exchange, url, limit: limit(call.route.idle_timeout), log })
        },
        Err(e) => Err(acquire_error(call.route.model_name.as_str(), e)),
    }
}

/// What an audio backend has sent so far.
pub enum AudioEvent {
    /// No headers within the idle timeout.
    Late,
    /// No reply; holds the words of the HTTP client.
    Failed(String),
    /// Headers, by their content type.
    Headers { content_type: String },
    /// The body was not complete within the total timeout.
    BodyLate,
    /// The body could not be read; holds the words of the HTTP client.
    BodyFailed(String),
    /// The whole reply.
    Body { code: u16, content_type: String, body: Vec<u8> },
}

/// What is done next with the reply of an audio backend.
pub enum AudioStep {
    /// The client gets an error.
    Refuse(ApiError),
    /// Events are forwarded as they come. They may carry sound, and are not
    /// logged.
    Forward(SseForwarder),
    /// The body is read, within a limit in seconds.
    ReadBody { limit: Option<u64> },
    /// The client gets this body with this status and content type.
    PassOn { code: u16, content_type: String, body: Vec<u8>, log: Option<DebugLogEntry> },
}

/// The client gets this error.
pub open spec fn refuses(r: AudioStep, problem: ApiProblem) -> bool {
    r matches AudioStep::Refuse(e) && e@ == problem
}

/// What follows on an event from an audio backend. A reply that is no event
/// stream is handed on as it came, whatever its status.
pub open spec fn audio_follows(
    r: AudioStep,
    to: Route,
    x: Exchange,
    ts: Seq<char>,
    event: AudioEvent,
) -> bool {
    match event {
        AudioEvent::Late => refuses(
            r,
            ApiProblem::BackendTimeout(
                "backend sent no response headers within "@ + decimal(to.idle_timeout as nat)
                    + "s"@,
            ),
        ),
        AudioEvent::Failed(words) => refuses(
            r,
            ApiProblem::Internal("backend request failed: "@ + words@),
        ),
        AudioEvent::Headers { content_type } => if starts_with(
            content_type@,
            "text/event-stream"@,
        ) {
            r matches AudioStep::Forward(f) && f@ == fresh_stream(false, to.idle_timeout)
        } else {
            r matches AudioStep::ReadBody { limit } && limit == limit_of(to.total_timeout)
        },
        AudioEvent::BodyLate => refuses(
            r,
            ApiProblem::BackendTimeout(
                "backend did not complete within "@ + decimal(to.total_timeout as nat) + "s"@,
            ),
        ),
        AudioEvent::BodyFailed(words) => refuses(
            r,
            ApiProblem::Internal("failed to read backend response: "@ + words@),
        ),
        AudioEvent::Body { code, content_type, body } => {
            &&& r matches AudioStep::PassOn { code: c, content_type: t, body: b, log }
            &&& c == code
            &&& t@ == content_type@
            &&& b@ == body@
            &&& option_entry(log) == audio_reply_entry(to, x, ts, code, content_type@, body@)
        },
    }
}

/// Decides what is done next with the reply of an audio backend.
pub fn forward_audio_post(to: &Route, x: &Exchange, ts: &str, event: AudioEvent) -> (r: AudioStep)
    ensures
        audio_follows(r, *to, *x, ts@, event),
{
    match event {
        AudioEvent::Late => AudioStep::Refuse(no_headers(to.idle_timeout)),
        AudioEvent::Failed(words) => AudioStep::Refuse(request_failed(words.as_str())),
        AudioEvent::Headers { content_type } => match audio_reply(content_type.as_str()) {
            AudioReply::Stream => AudioStep::Forward(SseForwarder::new(false, to.idle_timeout)),
            AudioReply::Aggregate => AudioStep::ReadBody { limit: limit(to.total_timeout) },
        },
        AudioEvent::BodyLate => AudioStep::Refuse(not_completed(to.total_timeout)),
        AudioEvent::BodyFailed(words) => AudioStep::Refuse(
            ApiError::Internal(cat("failed to read backend response: ", words.as_str())),
        ),
        AudioEvent::Body { code, content_type, body } => {
            let log = log_audio_reply(to, x, ts, code, content_type.as_str(), body.as_slice());
            AudioStep::PassOn { code, content_type, body, log }
        },
    }
}

/// Goes on with a request for voices once it has been given a slot, or none:
/// the address, and the limit on the reply in seconds.
pub fn send_voices(to: &Route, slot: Result<Slot, AcquireError>) -> (r: Result<
    (String, Option<u64>),
    ApiError,
>)
    ensures
        match slot {
            Ok(given) => {
                &&& r matches Ok(s)
                &&& s.0@ == backend_address(
                    given.port,
                    "/v1/audio/voices?model="@ + percent_encoded(encode_utf8(to.model_name@)),
                )
                &&& s.1 == limit_of(to.total_timeout)
            },
            Err(e) => r matches Err(x) && x@ == acquire_problem(to.model_name@, e),
        },
{
    match slot {
        Ok(given) => Ok(
            (voices_url(given.port, to.model_name.as_str()), limit(to.total_timeout)),
        ),
        Err(e) => Err(acquire_error(to.model_name.as_str(), e)),
    }
}

// ── Laws ────────────────────────────────────────────────────────────────────

/// The two log entries of an exchange belong together: either both are
/// written or none is, they carry the same request, model, alias and instance,
/// and the record, which is kept whether or not there is a log, names them too.
pub proof fn law_exchange_is_traced(
    call: Call,
    x: Exchange,
    sent_at: Seq<char>,
    body: Seq<char>,
    replied_at: Seq<char>,
    document: Seq<char>,
    duration_ms: u64,
)
    ensures
        ({
            let asked = request_entry(call, x, sent_at, body);
            let replied = reply_entry(call, x, replied_at, document, duration_ms);
            let record = reply_record(call, x, replied_at, document, duration_ms);
            &&& asked is Some <==> replied is Some
            &&& asked is Some ==> {
                &&& record is Some
                &&& asked->0.request_id == replied->0.request_id
                &&& asked->0.model == replied->0.model
                &&& asked->0.alias == replied->0.alias
                &&& asked->0.instance_id == replied->0.instance_id
                &&& record->0.request_id == asked->0.request_id
                &&& asked->0.instance_id == Some(record->0.instance_id)
            }
        }),
{
}

/// A timeout bounds a wait unless it is zero, which is no bound.
pub proof fn law_timeouts(secs: u64)
    ensures
        secs > 0 ==> limit_of(secs) == Some(secs),
        limit_of(0) is None,
{
}

/// What a client is told of a backend that did not answer with a document: a
/// timeout where the time was up, and otherwise an internal error that repeats
/// the words.
pub proof fn law_failed_replies(reply: Reply, total_timeout: u64)
    ensures
        reply is Document <==> reply_problem(reply, total_timeout) is None,
        reply is TimedOut ==> reply_problem(reply, total_timeout)->0.code() == 504,
        !(reply is TimedOut) && !(reply is Document) ==> reply_problem(
            reply,
            total_timeout,
        )->0.code() == 500,
        reply matches Reply::BadStatus { status, text } ==> reply_problem(reply, total_timeout)
            == Some(ApiProblem::Internal("backend returned "@ + status@ + (": "@ + text@))),
        reply matches Reply::Failed(words) ==> reply_problem(reply, total_timeout) == Some(
            ApiProblem::Internal("backend request failed: "@ + words@),
        ),
{
}

/// The reply of an audio backend is handed on as it came, whatever its status,
/// unless it is a stream of events, which are forwarded as they come.
pub proof fn law_audio_replies(r: AudioStep, to: Route, x: Exchange, ts: Seq<char>, event: AudioEvent)
    requires
        audio_follows(r, to, x, ts, event),
    ensures
        event matches AudioEvent::Body { code, content_type, body } ==> (r matches
            AudioStep::PassOn { code: c, content_type: t, body: b, log } && c == code && t@
            == content_type@ && b@ == body@ && (log is Some <==> to.debug_log is Some)),
        event matches AudioEvent::Headers { content_type } ==> (r is Forward <==> starts_with(
            content_type@,
            "text/event-stream"@,
        )) && (r is ReadBody <==> !starts_with(content_type@, "text/event-stream"@)),
        r matches AudioStep::ReadBody { limit } ==> (to.total_timeout > 0 ==> limit == Some(
            to.total_timeout,
        )) && (to.total_timeout == 0 ==> limit is None),
        r matches AudioStep::Forward(f) ==> f@.open && !f@.saw_done && f@.buffer.len() == 0
            && f@.idle_timeout == to.idle_timeout && !f@.keep_all,
        event is Late || event is BodyLate ==> (r matches AudioStep::Refuse(e) && e@.code() == 504),
        event is Failed || event is BodyFailed ==> (r matches AudioStep::Refuse(e) && e@.code()
            == 500),
{
}

/// An exchange is known by the request, the instance that serves it and the
/// user that asked.
pub proof fn law_who_an_exchange_belongs_to(
    x: Exchange,
    slot: Slot,
    request_id: Seq<char>,
    api_user: Seq<char>,
)
    ensures
        is_exchange(x, slot, request_id, api_user) <==> x.request_id@ == request_id
            && x.instance_id@ == slot.instance_id@ && x.api_user@ == api_user,
{
}

/// What is logged and recorded of a request and its reply: both bodies as they
/// went over the wire, with the usage and the time that it took, where the
/// endpoint is tracked and the model has a debug log. A record is made whether
/// there is a debug log or not.
pub proof fn law_what_is_logged(
    call: Call,
    x: Exchange,
    ts: Seq<char>,
    text: Seq<char>,
    duration_ms: u64,
)
    ensures
        request_entry(call, x, ts, text) is Some <==> is_tracked(call.endpoint)
            && call.route.debug_log is Some,
        reply_entry(call, x, ts, text, duration_ms) is Some <==> is_tracked(call.endpoint)
            && call.route.debug_log is Some,
        request_entry(call, x, ts, text) matches Some(e) ==> e.dir == "request"@ && e.ts == ts
            && e.body == Some(text) && e.stream == Some(call.stream) && e.error is None
            && e.duration_ms is None,
        reply_entry(call, x, ts, text, duration_ms) matches Some(e) ==> e.dir == "response"@ && e.ts
            == ts && e.body == Some(text) && e.stream == Some(false) && e.error is None
            && e.duration_ms == Some(duration_ms) && e.usage == logged_usage(call.endpoint, text),
        reply_record(call, x, ts, text, duration_ms) == if is_tracked(call.endpoint) {
            Some(record_of(x, ts, reply_counts(call.endpoint, text), duration_ms))
        } else {
            None
        },
{
}

/// What is logged of a stream: its chunks, how long it took, and that it was
/// not completed where that is so. Nothing is logged unless that was asked for.
pub proof fn law_what_is_logged_of_a_stream(
    to: Route,
    x: Exchange,
    ts: Seq<char>,
    body: Option<Seq<char>>,
    duration_ms: u64,
    error: Option<Seq<char>>,
    chunks: Seq<Seq<char>>,
)
    ensures
        stream_entry(to, x, false, ts, body, duration_ms, error) is None,
        stream_entry(to, x, true, ts, body, duration_ms, error) == Some(
            EntryView {
                stream: Some(true),
                body,
                duration_ms: Some(duration_ms),
                error,
                ..entry_of(to, x, ts, "response"@)
            },
        ),
        chunks_json(chunks) == "{\"chunks\":["@ + join(chunks.map_values(|c: Seq<char>| json_quoted(c)), ","@)
            + "]}"@,
        unfinished_words() == "stream ended before [DONE] (truncated or client disconnect)"@,
{
    assert(all_quoted(chunks) =~= chunks.map_values(|c: Seq<char>| json_quoted(c)));
}

/// A stream begins open, with nothing in it.
pub proof fn law_fresh_streams(keep_all: bool, idle_timeout: u64)
    ensures
        ({
            let s = fresh_stream(keep_all, idle_timeout);
            &&& s.open
            &&& !s.saw_done
            &&& s.buffer.len() == 0
            &&& s.chunks.len() == 0
            &&& s.keep_all == keep_all
            &&& s.idle_timeout == idle_timeout
        }),
{
}

/// An audio request is logged where the model has a debug log, with the body
/// that a log holds of it.
pub proof fn law_logged_audio_requests(call: AudioCall, x: Exchange, ts: Seq<char>)
    ensures
        call.route.debug_log is None ==> audio_entry(call, x, ts) is None,
        call.route.debug_log is Some ==> audio_entry(call, x, ts) == Some(
            EntryView {
                body: audio_body(call.content_type@, call.body@),
                ..entry_of(call.route, x, ts, "request"@)
            },
        ),
{
}

} // verus!
