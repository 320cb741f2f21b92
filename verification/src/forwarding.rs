//! Requests on their way to a backend, and what is made of the replies.

use vstd::prelude::*;
use vstd::utf8::encode_utf8;
use crate::config::Config;
use crate::debug_log::{DebugLogEntry, EntryView};
use crate::handlers::{is_route, model_named, route, routed_name, Route};
use crate::json::{
    flag, is_true, json_document, json_part, json_quoted, json_read, json_with_member,
    number_or_zero, option_text, parse_document, part_of_json, quote, read_json, result_text,
    set_member, text_in, text_of, unsigned_or_zero, Json, JsonView,
};
use crate::multipart::{
    content_text, copy_bytes, decode_lossy, extract_multipart_field, field_content, first_boundary,
    lossy_text, multipart_boundary, rewrite_multipart_field, rewritten,
};
use crate::numbers::{decimal, digit_value, lemma_decimal_injective, to_decimal};
use crate::server::{ApiError, ApiProblem};
use crate::sse::{read_usage, usage_counts, TokenCounts};
use crate::text::{cat, cat3, chars_at, chars_of, same_text, split, starts_with};
use crate::types::{CompletionRecord, RecordView};

verus! {

// ── Endpoints ───────────────────────────────────────────────────────────────

/// The endpoints that requests are forwarded for.
#[derive(Debug, Clone, Copy, PartialEq, Eq, Structural)]
pub enum Endpoint {
    Chat,
    Responses,
    InputTokens,
    Completions,
    Embeddings,
    Rerank,
    Speech,
    Transcriptions,
}

/// The path of an endpoint, at the backend as here.
pub open spec fn endpoint_path(e: Endpoint) -> Seq<char> {
    match e {
        Endpoint::Chat => "/v1/chat/completions"@,
        Endpoint::Responses => "/v1/responses"@,
        Endpoint::InputTokens => "/v1/responses/input_tokens"@,
        Endpoint::Completions => "/v1/completions"@,
        Endpoint::Embeddings => "/v1/embeddings"@,
        Endpoint::Rerank => "/v1/rerank"@,
        Endpoint::Speech => "/v1/audio/speech"@,
        Endpoint::Transcriptions => "/v1/audio/transcriptions"@,
    }
}

/// The path of an endpoint.
pub fn path_of(e: Endpoint) -> (r: &'static str)
    ensures
        r@ == endpoint_path(e),
{
    match e {
        Endpoint::Chat => "/v1/chat/completions",
        Endpoint::Responses => "/v1/responses",
        Endpoint::InputTokens => "/v1/responses/input_tokens",
        Endpoint::Completions => "/v1/completions",
        Endpoint::Embeddings => "/v1/embeddings",
        Endpoint::Rerank => "/v1/rerank",
        Endpoint::Speech => "/v1/audio/speech",
        Endpoint::Transcriptions => "/v1/audio/transcriptions",
    }
}

/// The address of a path at a backend on a port.
pub open spec fn backend_address(port: u16, path: Seq<char>) -> Seq<char> {
    "http://127.0.0.1:"@ + decimal(port as nat) + path
}

/// The address of a path at a backend on a port.
pub fn backend_url(port: u16, path: &str) -> (r: String)
    ensures
        r@ == backend_address(port, path@),
{
    let number = to_decimal(port as u64);
    cat3("http://127.0.0.1:", number.as_str(), path)
}

// ── Requests ────────────────────────────────────────────────────────────────

/// A request that has been routed.
#[derive(Debug)]
pub struct Call {
    pub endpoint: Endpoint,
    pub route: Route,
    /// Whether the reply is streamed.
    pub stream: bool,
    /// The body with the resolved model name, for requests that are passed
    /// through as they are.
    pub body: Option<String>,
}

/// `r` is what becomes of a request with a typed body.
pub open spec fn routes_typed(
    r: Result<Call, ApiError>,
    config: Config,
    endpoint: Endpoint,
    requested: Seq<char>,
    stream: bool,
) -> bool {
    match model_named(config.models@, routed_name(config.aliases@, requested)) {
        Some(_) => r matches Ok(call) && call.endpoint == endpoint && is_route(
            call.route,
            config,
            requested,
        ) && call.stream == stream && call.body is None,
        None => r matches Err(e) && e@ == ApiProblem::ModelNotFound(
            routed_name(config.aliases@, requested),
        ),
    }
}

fn typed_call(config: &Config, endpoint: Endpoint, requested: &str, stream: bool) -> (r: Result<
    Call,
    ApiError,
>)
    ensures
        routes_typed(r, *config, endpoint, requested@, stream),
{
    match route(config, requested) {
        Ok(to) => Ok(Call { endpoint, route: to, stream, body: None }),
        Err(e) => Err(e),
    }
}

/// Routes a chat completion. The caller forwards the request with the resolved
/// model name.
pub fn chat_completions(config: &Config, requested: &str, stream: bool) -> (r: Result<
    Call,
    ApiError,
>)
    ensures
        routes_typed(r, *config, Endpoint::Chat, requested@, stream),
{
    typed_call(config, Endpoint::Chat, requested, stream)
}

/// Routes a legacy completion.
pub fn completions(config: &Config, requested: &str, stream: bool) -> (r: Result<Call, ApiError>)
    ensures
        routes_typed(r, *config, Endpoint::Completions, requested@, stream),
{
    typed_call(config, Endpoint::Completions, requested, stream)
}

/// Routes an embedding request, which is never streamed.
pub fn embeddings(config: &Config, requested: &str) -> (r: Result<Call, ApiError>)
    ensures
        routes_typed(r, *config, Endpoint::Embeddings, requested@, false),
{
    typed_call(config, Endpoint::Embeddings, requested, false)
}

/// Routes a reranking request, which is never streamed.
pub fn rerank(config: &Config, requested: &str) -> (r: Result<Call, ApiError>)
    ensures
        routes_typed(r, *config, Endpoint::Rerank, requested@, false),
{
    typed_call(config, Endpoint::Rerank, requested, false)
}

/// The model that a raw request names; the name must not be empty.
pub open spec fn named_model(v: JsonView) -> Option<Seq<char>> {
    match text_in(v) {
        Some(name) => if name.len() > 0 {
            Some(name)
        } else {
            None
        },
        None => None,
    }
}

/// Takes the model name out of what stands in a request's `model` member.
pub fn require_model(v: Json) -> (r: Result<String, ApiError>)
    ensures
        match named_model(v@) {
            Some(name) => r matches Ok(m) && m@ == name,
            None => r matches Err(e) && e@ == ApiProblem::BadRequest(
                "missing or invalid 'model' field"@,
            ),
        },
{
    match text_of(v) {
        Some(name) => if name.as_str().is_empty() {
            Err(ApiError::BadRequest("missing or invalid 'model' field".to_owned()))
        } else {
            Ok(name)
        },
        None => Err(ApiError::BadRequest("missing or invalid 'model' field".to_owned())),
    }
}

/// `out` is the document `body` with another model name and otherwise as it
/// was, so far as it is not nested too deeply to be read.
pub open spec fn passes_through(out: Seq<char>, body: Seq<char>, model: Seq<char>) -> bool {
    &&& out == json_with_member(body, "model"@, model)
    &&& json_read(out, ""@) is Object ==> {
        &&& json_read(out, "/model"@) == JsonView::Text(model)
        &&& forall|pointer: Seq<char>|
            pointer != "/model"@ ==> #[trigger] json_read(out, pointer) == json_read(body, pointer)
    }
}

/// Rewrites the model name in a document that has one.
fn set_model(body: &str, model: &str) -> (r: String)
    requires
        json_read(body@, "/model"@) is Text,
    ensures
        passes_through(r@, body@, model@),
{
    proof {
        reveal_strlit("/");
        reveal_strlit("model");
        reveal_strlit("/model");
        assert("/"@ + "model"@ =~= "/model"@);
    }
    set_member(body, "model", model)
}

/// `r` is what becomes of a request that is passed through.
pub open spec fn routes_raw(
    r: Result<Call, ApiError>,
    config: Config,
    endpoint: Endpoint,
    body: Seq<char>,
    stream: bool,
) -> bool {
    match named_model(json_read(body, "/model"@)) {
        Some(requested) => {
            let name = routed_name(config.aliases@, requested);
            match model_named(config.models@, name) {
                Some(_) => {
                    &&& r matches Ok(call)
                    &&& call.endpoint == endpoint
                    &&& is_route(call.route, config, requested)
                    &&& call.stream == stream
                    &&& call.body matches Some(out)
                    &&& passes_through(out@, body, name)
                },
                None => r matches Err(e) && e@ == ApiProblem::ModelNotFound(name),
            }
        },
        None => r matches Err(e) && e@ == ApiProblem::BadRequest(
            "missing or invalid 'model' field"@,
        ),
    }
}

fn raw_call(config: &Config, endpoint: Endpoint, body: &str, stream: bool) -> (r: Result<
    Call,
    ApiError,
>)
    ensures
        routes_raw(r, *config, endpoint, body@, stream),
{
    let requested = match require_model(read_json(body, "/model")) {
        Ok(name) => name,
        Err(e) => {
            return Err(e);
        },
    };
    match route(config, requested.as_str()) {
        Ok(to) => {
            let out = set_model(body, to.model_name.as_str());
            Ok(Call { endpoint, route: to, stream, body: Some(out) })
        },
        Err(e) => Err(e),
    }
}

/// Routes a Responses API request. The body is passed through untouched but
/// for the resolved model name.
pub fn responses(config: &Config, body: &str) -> (r: Result<Call, ApiError>)
    ensures
        routes_raw(
            r,
            *config,
            Endpoint::Responses,
            body@,
            is_true(json_read(body@, "/stream"@)),
        ),
{
    let stream = flag(read_json(body, "/stream"));
    raw_call(config, Endpoint::Responses, body, stream)
}

/// Routes a token counting request, which is never streamed.
pub fn responses_input_tokens(config: &Config, body: &str) -> (r: Result<Call, ApiError>)
    ensures
        routes_raw(r, *config, Endpoint::InputTokens, body@, false),
{
    raw_call(config, Endpoint::InputTokens, body, false)
}

// ── Audio requests ──────────────────────────────────────────────────────────

/// An audio request that has been routed.
#[derive(Debug)]
pub struct AudioCall {
    pub endpoint: Endpoint,
    pub route: Route,
    pub body: Vec<u8>,
    pub content_type: String,
}

/// Takes the model name out of what stands in an audio request's `model`
/// member.
pub fn require_audio_model(v: Json) -> (r: Result<String, ApiError>)
    ensures
        match text_in(v@) {
            Some(name) => r matches Ok(m) && m@ == name,
            None => r matches Err(e) && e@ == ApiProblem::BadRequest("missing 'model' field"@),
        },
{
    match text_of(v) {
        Some(name) => Ok(name),
        None => Err(ApiError::BadRequest("missing 'model' field".to_owned())),
    }
}

/// `r` is what becomes of an audio request with a JSON body.
pub open spec fn routes_audio_json(
    r: Result<AudioCall, ApiError>,
    config: Config,
    endpoint: Endpoint,
    body: Seq<char>,
) -> bool {
    match text_in(json_read(body, "/model"@)) {
        Some(requested) => {
            let name = routed_name(config.aliases@, requested);
            match model_named(config.models@, name) {
                Some(_) => {
                    &&& r matches Ok(call)
                    &&& call.endpoint == endpoint
                    &&& is_route(call.route, config, requested)
                    &&& call.body@ == encode_utf8(json_with_member(body, "model"@, name))
                    &&& passes_through(json_with_member(body, "model"@, name), body, name)
                    &&& call.content_type@ == "application/json"@
                },
                None => r matches Err(e) && e@ == ApiProblem::ModelNotFound(name),
            }
        },
        None => r matches Err(e) && e@ == ApiProblem::BadRequest("missing 'model' field"@),
    }
}

fn audio_json_call(config: &Config, endpoint: Endpoint, body: &str) -> (r: Result<
    AudioCall,
    ApiError,
>)
    ensures
        routes_audio_json(r, *config, endpoint, body@),
{
    let requested = match require_audio_model(read_json(body, "/model")) {
        Ok(name) => name,
        Err(e) => {
            return Err(e);
        },
    };
    match route(config, requested.as_str()) {
        Ok(to) => {
            let out = set_model(body, to.model_name.as_str());
            let bytes = copy_bytes(out.as_str().as_bytes());
            Ok(
                AudioCall {
                    endpoint,
                    route: to,
                    body: bytes,
                    content_type: "application/json".to_owned(),
                },
            )
        },
        Err(e) => Err(e),
    }
}

/// Routes a text-to-speech request. Only the model name is rewritten.
pub fn audio_speech(config: &Config, body: &str) -> (r: Result<AudioCall, ApiError>)
    ensures
        routes_audio_json(r, *config, Endpoint::Speech, body@),
{
    audio_json_call(config, Endpoint::Speech, body)
}

/// `r` is what becomes of a transcription request in the shape of a form.
pub open spec fn routes_form(
    r: Result<AudioCall, ApiError>,
    config: Config,
    content_type: Seq<char>,
    body: Seq<u8>,
) -> bool {
    match first_boundary(split(content_type, ';')) {
        None => r matches Err(e) && e@ == ApiProblem::BadRequest(
            "multipart request without boundary"@,
        ),
        Some(boundary) => match field_content(body, boundary, "model"@) {
            None => r matches Err(e) && e@ == ApiProblem::BadRequest(
                "multipart request missing 'model' field"@,
            ),
            Some(content) => {
                let requested = content_text(content);
                let name = routed_name(config.aliases@, requested);
                match model_named(config.models@, name) {
                    Some(_) => {
                        &&& r matches Ok(call)
                        &&& call.endpoint == Endpoint::Transcriptions
                        &&& is_route(call.route, config, requested)
                        &&& call.content_type@ == content_type
                        &&& call.body@ == (if name == requested {
                            body
                        } else {
                            rewritten(body, boundary, "model"@, name)
                        })
                    },
                    None => r matches Err(e) && e@ == ApiProblem::ModelNotFound(name),
                }
            },
        },
    }
}

fn form_call(config: &Config, content_type: &str, body: &[u8]) -> (r: Result<AudioCall, ApiError>)
    ensures
        routes_form(r, *config, content_type@, body@),
{
    let boundary = match multipart_boundary(content_type) {
        Some(b) => b,
        None => {
            return Err(ApiError::BadRequest("multipart request without boundary".to_owned()));
        },
    };
    let requested = match extract_multipart_field(body, boundary.as_str(), "model") {
        Some(m) => m,
        None => {
            return Err(ApiError::BadRequest("multipart request missing 'model' field".to_owned()));
        },
    };
    match route(config, requested.as_str()) {
        Ok(to) => {
            let bytes = if same_text(to.model_name.as_str(), requested.as_str()) {
                copy_bytes(body)
            } else {
                rewrite_multipart_field(body, boundary.as_str(), "model", to.model_name.as_str())
            };
            Ok(
                AudioCall {
                    endpoint: Endpoint::Transcriptions,
                    route: to,
                    body: bytes,
                    content_type: content_type.to_owned(),
                },
            )
        },
        Err(e) => Err(e),
    }
}

/// Goes on with a transcription request whose body has been read as JSON.
pub fn transcription_document(config: &Config, document: Result<String, String>) -> (r: Result<
    AudioCall,
    ApiError,
>)
    ensures
        match result_text(document) {
            Ok(text) => routes_audio_json(r, *config, Endpoint::Transcriptions, text),
            Err(words) => r matches Err(e) && e@ == ApiProblem::BadRequest(
                "invalid JSON body: "@ + words,
            ),
        },
{
    match document {
        Ok(text) => audio_json_call(config, Endpoint::Transcriptions, text.as_str()),
        Err(words) => Err(ApiError::BadRequest(cat("invalid JSON body: ", words.as_str()))),
    }
}

/// Routes a transcription request: a form, of which only the `model` field is
/// rewritten, or a JSON document.
pub fn audio_transcriptions(config: &Config, content_type: &str, body: &[u8]) -> (r: Result<
    AudioCall,
    ApiError,
>)
    ensures
        if starts_with(content_type@, "multipart/form-data"@) {
            routes_form(r, *config, content_type@, body@)
        } else {
            match json_document(body@) {
                Ok(text) => routes_audio_json(r, *config, Endpoint::Transcriptions, text),
                Err(words) => r matches Err(e) && e@ == ApiProblem::BadRequest(
                    "invalid JSON body: "@ + words,
                ),
            }
        },
{
    if text_starts_with(content_type, "multipart/form-data") {
        return form_call(config, content_type, body);
    }
    transcription_document(config, parse_document(body))
}

fn text_starts_with(s: &str, prefix: &str) -> (r: bool)
    ensures
        r == starts_with(s@, prefix@),
{
    let a = chars_of(s);
    let b = chars_of(prefix);
    chars_at(a.as_slice(), b.as_slice(), 0)
}

/// Routes a request for the voices of a model.
pub fn audio_voices(config: &Config, model: Option<&str>) -> (r: Result<Route, ApiError>)
    ensures
        match model {
            Some(requested) => match model_named(
                config.models@,
                routed_name(config.aliases@, requested@),
            ) {
                Some(_) => r matches Ok(to) && is_route(to, *config, requested@),
                None => r matches Err(e) && e@ == ApiProblem::ModelNotFound(
                    routed_name(config.aliases@, requested@),
                ),
            },
            None => r matches Err(e) && e@ == ApiProblem::BadRequest(
                "missing 'model' query parameter"@,
            ),
        },
{
    match model {
        Some(requested) => route(config, requested),
        None => Err(ApiError::BadRequest("missing 'model' query parameter".to_owned())),
    }
}

// ── Query parameters ────────────────────────────────────────────────────────

/// A byte that stands for itself in a query parameter.
pub open spec fn is_plain(b: u8) -> bool {
    48 <= b <= 57 || 65 <= b <= 90 || 97 <= b <= 122 || b == 45 || b == 95 || b == 46 || b == 126
}

/// A hexadecimal digit in upper case.
pub open spec fn upper_hex(n: int) -> char {
    if n < 10 {
        (48 + n) as char
    } else {
        (55 + n) as char
    }
}

/// The encoding of one byte.
pub open spec fn percent_byte(b: u8) -> Seq<char> {
    if is_plain(b) {
        seq![b as char]
    } else {
        seq!['%', upper_hex(b as int / 16), upper_hex(b as int % 16)]
    }
}

/// The percent-encoding of bytes.
pub open spec fn percent_encoded(bytes: Seq<u8>) -> Seq<char>
    decreases bytes.len(),
{
    if bytes.len() == 0 {
        Seq::empty()
    } else {
        percent_encoded(bytes.drop_last()) + percent_byte(bytes.last())
    }
}

fn hex_char(n: u8) -> (r: char)
    requires
        n < 16,
    ensures
        r == upper_hex(n as int),
{
    let code: u8 = if n < 10 {
        48 + n
    } else {
        55 + n
    };
    code as char
}

/// Percent-encodes the value of a query parameter.
pub fn urlencoding_simple(s: &str) -> (r: String)
    ensures
        r@ == percent_encoded(encode_utf8(s@)),
{
    let bytes = s.as_bytes();
    let mut out = String::new();
    assert(bytes@.take(0) =~= Seq::<u8>::empty());
    for i in 0..bytes.len()
        invariant
            out@ == percent_encoded(bytes@.take(i as int)),
    {
        let b: u8 = bytes[i];
        let ghost before = out@;
        proof {
            assert(bytes@.take(i + 1).drop_last() =~= bytes@.take(i as int));
            assert(bytes@.take(i + 1).last() == b);
        }
        if (48 <= b && b <= 57) || (65 <= b && b <= 90) || (97 <= b && b <= 122) || b == 45 || b
            == 95 || b == 46 || b == 126 {
            out.push(b as char);
            assert(out@ =~= before + seq![b as char]);
        } else {
            out.push('%');
            out.push(hex_char(b / 16));
            out.push(hex_char(b % 16));
            assert(out@ =~= before + percent_byte(b));
        }
    }
    assert(bytes@.take(bytes@.len() as int) =~= bytes@);
    out
}

/// The address of the voices of a model at a backend.
pub fn voices_url(port: u16, model: &str) -> (r: String)
    ensures
        r@ == backend_address(
            port,
            "/v1/audio/voices?model="@ + percent_encoded(encode_utf8(model@)),
        ),
{
    let value = urlencoding_simple(model);
    let path = cat("/v1/audio/voices?model=", value.as_str());
    backend_url(port, path.as_str())
}

// ── Replies ─────────────────────────────────────────────────────────────────

/// How an exchange with a backend went.
pub enum Reply {
    /// A success status and a document.
    Document(String),
    /// A success status, but no document.
    Unreadable(String),
    /// Another status (code and reason) and a text.
    BadStatus { status: String, text: String },
    /// No reply; holds the words of the HTTP client.
    Failed(String),
    /// The time was up.
    TimedOut,
}

/// What a client gets for a reply: the document, or an error.
pub fn aggregate_outcome(reply: Reply, total_timeout: u64) -> (r: Result<String, ApiError>)
    ensures
        match reply {
            Reply::Document(text) => r matches Ok(t) && t == text,
            Reply::Unreadable(words) => r matches Err(e) && e@ == ApiProblem::Internal(
                "failed to parse backend response: "@ + words@,
            ),
            Reply::BadStatus { status, text } => r matches Err(e) && e@ == ApiProblem::Internal(
                "backend returned "@ + status@ + (": "@ + text@),
            ),
            Reply::Failed(words) => r matches Err(e) && e@ == ApiProblem::Internal(
                "backend request failed: "@ + words@,
            ),
            Reply::TimedOut => r matches Err(e) && e@ == ApiProblem::BackendTimeout(
                "backend did not complete within "@ + decimal(total_timeout as nat) + "s"@,
            ),
        },
{
    match reply {
        Reply::Document(text) => Ok(text),
        Reply::Unreadable(words) => Err(
            ApiError::Internal(cat("failed to parse backend response: ", words.as_str())),
        ),
        Reply::BadStatus { status, text } => Err(returned(status.as_str(), text.as_str())),
        Reply::Failed(words) => Err(request_failed(words.as_str())),
        Reply::TimedOut => Err(not_completed(total_timeout)),
    }
}

/// The error for a backend that answered with an error status.
pub fn returned(status: &str, text: &str) -> (r: ApiError)
    ensures
        r@ == ApiProblem::Internal("backend returned "@ + status@ + (": "@ + text@)),
{
    let tail = cat(": ", text);
    ApiError::Internal(cat3("backend returned ", status, tail.as_str()))
}

/// The error for a request that could not be sent.
pub fn request_failed(words: &str) -> (r: ApiError)
    ensures
        r@ == ApiProblem::Internal("backend request failed: "@ + words@),
{
    ApiError::Internal(cat("backend request failed: ", words))
}

/// The error for an exchange that took too long.
pub fn not_completed(secs: u64) -> (r: ApiError)
    ensures
        r@ == ApiProblem::BackendTimeout(
            "backend did not complete within "@ + decimal(secs as nat) + "s"@,
        ),
{
    let number = to_decimal(secs);
    ApiError::BackendTimeout(cat3("backend did not complete within ", number.as_str(), "s"))
}

/// The error for a backend that sent no headers in time.
pub fn no_headers(secs: u64) -> (r: ApiError)
    ensures
        r@ == ApiProblem::BackendTimeout(
            "backend sent no response headers within "@ + decimal(secs as nat) + "s"@,
        ),
{
    let number = to_decimal(secs);
    ApiError::BackendTimeout(cat3("backend sent no response headers within ", number.as_str(), "s"))
}

/// A status code means success.
pub open spec fn success(code: u16) -> bool {
    200 <= code <= 299
}

/// What is done with the reply to an audio request.
#[derive(Debug, Clone, Copy, PartialEq, Eq, Structural)]
pub enum AudioReply {
    /// Events are forwarded as they come.
    Stream,
    /// The body is read whole and passed on with its status and content type.
    Aggregate,
}

/// Decides by the content type of a reply, whatever its status.
pub fn audio_reply(content_type: &str) -> (r: AudioReply)
    ensures
        r == (if starts_with(content_type@, "text/event-stream"@) {
            AudioReply::Stream
        } else {
            AudioReply::Aggregate
        }),
{
    if text_starts_with(content_type, "text/event-stream") {
        AudioReply::Stream
    } else {
        AudioReply::Aggregate
    }
}

// ── Debug log entries ───────────────────────────────────────────────────────

/// The endpoints whose requests and replies are logged, where the model has a
/// debug log, and recorded.
pub open spec fn is_tracked(e: Endpoint) -> bool {
    e == Endpoint::Chat || e == Endpoint::Responses || e == Endpoint::InputTokens || e
        == Endpoint::Rerank
}

fn tracks(e: Endpoint) -> (r: bool)
    ensures
        r == is_tracked(e),
{
    match e {
        Endpoint::Chat => true,
        Endpoint::Responses => true,
        Endpoint::InputTokens => true,
        Endpoint::Rerank => true,
        _ => false,
    }
}

/// Who and what an exchange belongs to.
pub struct Exchange {
    pub request_id: String,
    pub instance_id: String,
    /// The label of the API key.
    pub api_user: String,
}

/// An entry of an exchange with nothing in it yet.
pub open spec fn entry_of(to: Route, x: Exchange, ts: Seq<char>, dir: Seq<char>) -> EntryView {
    EntryView {
        ts,
        request_id: x.request_id@,
        model: to.model_name@,
        alias: Some(to.request_model@),
        instance_id: Some(x.instance_id@),
        dir,
        stream: None,
        body: None,
        usage: None,
        duration_ms: None,
        error: None,
    }
}

fn new_entry(to: &Route, x: &Exchange, ts: &str, dir: &str) -> (r: DebugLogEntry)
    ensures
        r@ == entry_of(*to, *x, ts@, dir@),
{
    DebugLogEntry {
        ts: ts.to_owned(),
        request_id: x.request_id.clone(),
        model: to.model_name.clone(),
        alias: Some(to.request_model.clone()),
        instance_id: Some(x.instance_id.clone()),
        dir: dir.to_owned(),
        stream: None,
        body: None,
        usage: None,
        duration_ms: None,
        error: None,
    }
}

/// An optional entry, as a mathematical value.
pub open spec fn option_entry(e: Option<DebugLogEntry>) -> Option<EntryView> {
    match e {
        Some(entry) => Some(entry@),
        None => None,
    }
}

/// The log entry for a request, if one is written: the exact body that is
/// forwarded.
pub fn log_request(call: &Call, x: &Exchange, ts: &str, body: &str) -> (r: Option<DebugLogEntry>)
    ensures
        option_entry(r) == (if is_tracked(call.endpoint) && call.route.debug_log is Some {
            Some(
                EntryView {
                    stream: Some(call.stream),
                    body: Some(body@),
                    ..entry_of(call.route, *x, ts@, "request"@)
                },
            )
        } else {
            None
        }),
{
    if !tracks(call.endpoint) || call.route.debug_log.is_none() {
        return None;
    }
    let mut entry = new_entry(&call.route, x, ts, "request");
    entry.stream = Some(call.stream);
    entry.body = Some(body.to_owned());
    Some(entry)
}

/// The log entry for a stream, when it is over.
pub fn log_stream(
    to: &Route,
    x: &Exchange,
    ts: &str,
    body: Option<String>,
    duration_ms: u64,
    error: Option<String>,
) -> (r: DebugLogEntry)
    ensures
        r@ == (EntryView {
            stream: Some(true),
            body: option_text(body),
            duration_ms: Some(duration_ms),
            error: option_text(error),
            ..entry_of(*to, *x, ts@, "response"@)
        }),
{
    let mut entry = new_entry(to, x, ts, "response");
    entry.stream = Some(true);
    entry.body = body;
    entry.duration_ms = Some(duration_ms);
    entry.error = error;
    entry
}

/// The words in a debug log for a backend that sent no headers in time.
pub fn headers_timeout_words(secs: u64) -> (r: String)
    ensures
        r@ == "backend idle timeout ("@ + decimal(secs as nat)
            + "s) waiting for response headers"@,
{
    let number = to_decimal(secs);
    cat3("backend idle timeout (", number.as_str(), "s) waiting for response headers")
}

/// The words in a debug log for a backend that answered with an error status.
pub fn status_words(code: u16, text: &str) -> (r: String)
    ensures
        r@ == "backend "@ + decimal(code as nat) + (": "@ + text@),
{
    let number = to_decimal(code as u64);
    let tail = cat(": ", text);
    cat3("backend ", number.as_str(), tail.as_str())
}

/// What is noted of a body that is no JSON document.
pub open spec fn body_note(content_type: Seq<char>, len: nat) -> Seq<char> {
    "{\"content_type\":"@ + json_quoted(content_type) + ",\"bytes\":"@ + decimal(len) + "}"@
}

fn note_body(content_type: &str, len: usize) -> (r: String)
    ensures
        r@ == body_note(content_type@, len as nat),
{
    let q = quote(content_type);
    let number = to_decimal(len as u64);
    let head = cat3("{\"content_type\":", q.as_str(), ",\"bytes\":");
    cat3(head.as_str(), number.as_str(), "}")
}

/// The body in the log entry of an audio request.
pub open spec fn audio_body(content_type: Seq<char>, body: Seq<u8>) -> Option<Seq<char>> {
    if starts_with(content_type, "application/json"@) {
        match json_document(body) {
            Ok(text) => Some(text),
            Err(_) => None,
        }
    } else {
        Some(body_note(content_type, body.len()))
    }
}

/// The log entry for an audio request, if the model has a debug log. JSON
/// bodies are logged verbatim, of others only their type and size.
pub fn log_audio_request(call: &AudioCall, x: &Exchange, ts: &str) -> (r: Option<DebugLogEntry>)
    ensures
        option_entry(r) == (if call.route.debug_log is Some {
            Some(
                EntryView {
                    body: audio_body(call.content_type@, call.body@),
                    ..entry_of(call.route, *x, ts@, "request"@)
                },
            )
        } else {
            None
        }),
{
    if call.route.debug_log.is_none() {
        return None;
    }
    let body = if text_starts_with(call.content_type.as_str(), "application/json") {
        match parse_document(call.body.as_slice()) {
            Ok(text) => Some(text),
            Err(_) => None,
        }
    } else {
        Some(note_body(call.content_type.as_str(), call.body.len()))
    };
    let mut entry = new_entry(&call.route, x, ts, "request");
    entry.body = body;
    Some(entry)
}

/// The log entry for an audio reply that was read whole, if the model has a
/// debug log: the type and size of the body, or the error that an error status
/// stands for.
pub open spec fn audio_reply_entry(
    to: Route,
    x: Exchange,
    ts: Seq<char>,
    code: u16,
    content_type: Seq<char>,
    body: Seq<u8>,
) -> Option<EntryView> {
    let blank = entry_of(to, x, ts, "response"@);
    if to.debug_log is None {
        None
    } else if success(code) {
        Some(
            EntryView {
                stream: Some(false),
                body: Some(body_note(content_type, body.len())),
                ..blank
            },
        )
    } else {
        Some(
            EntryView {
                error: Some("backend "@ + decimal(code as nat) + (": "@ + lossy_text(body))),
                ..blank
            },
        )
    }
}

/// Makes the log entry for an audio reply that was read whole.
pub fn log_audio_reply(
    to: &Route,
    x: &Exchange,
    ts: &str,
    code: u16,
    content_type: &str,
    body: &[u8],
) -> (r: Option<DebugLogEntry>)
    ensures
        option_entry(r) == audio_reply_entry(*to, *x, ts@, code, content_type@, body@),
{
    if to.debug_log.is_none() {
        return None;
    }
    let mut entry = new_entry(to, x, ts, "response");
    if 200 <= code && code <= 299 {
        entry.stream = Some(false);
        entry.body = Some(note_body(content_type, body.len()));
    } else {
        let text = decode_lossy(body);
        entry.error = Some(status_words(code, text.as_str()));
    }
    Some(entry)
}

// ── Aggregated replies ──────────────────────────────────────────────────────

/// The token counts of a reply, by endpoint. Reranking and token counting
/// generate nothing.
pub open spec fn reply_counts(e: Endpoint, reply: Seq<char>) -> TokenCounts {
    match e {
        Endpoint::Responses => TokenCounts {
            prompt: number_or_zero(json_read(reply, "/usage/input_tokens"@)),
            generated: number_or_zero(json_read(reply, "/usage/output_tokens"@)),
            cached: number_or_zero(json_read(reply, "/usage/input_tokens_details/cached_tokens"@)),
        },
        Endpoint::InputTokens => TokenCounts {
            prompt: number_or_zero(json_read(reply, "/input_tokens"@)),
            generated: 0,
            cached: 0,
        },
        Endpoint::Rerank => TokenCounts {
            prompt: number_or_zero(json_read(reply, "/usage/prompt_tokens"@)),
            generated: 0,
            cached: 0,
        },
        _ => usage_counts(reply),
    }
}

/// Reads the token counts of a reply.
pub fn count_tokens(e: Endpoint, reply: &str) -> (r: TokenCounts)
    ensures
        r == reply_counts(e, reply@),
{
    match e {
        Endpoint::Responses => {
            let prompt: u64 = unsigned_or_zero(read_json(reply, "/usage/input_tokens"));
            let generated: u64 = unsigned_or_zero(read_json(reply, "/usage/output_tokens"));
            let cached: u64 = unsigned_or_zero(
                read_json(reply, "/usage/input_tokens_details/cached_tokens"),
            );
            TokenCounts { prompt, generated, cached }
        },
        Endpoint::InputTokens => {
            let prompt: u64 = unsigned_or_zero(read_json(reply, "/input_tokens"));
            TokenCounts { prompt, generated: 0, cached: 0 }
        },
        Endpoint::Rerank => {
            let prompt: u64 = unsigned_or_zero(read_json(reply, "/usage/prompt_tokens"));
            TokenCounts { prompt, generated: 0, cached: 0 }
        },
        _ => read_usage(reply),
    }
}

/// A completion record.
pub open spec fn record_of(x: Exchange, ts: Seq<char>, counts: TokenCounts, duration_ms: u64) -> RecordView {
    RecordView {
        ts,
        request_id: x.request_id@,
        instance_id: x.instance_id@,
        api_user: x.api_user@,
        prompt_tokens: counts.prompt,
        generated_tokens: counts.generated,
        cached_tokens: counts.cached,
        duration_ms,
    }
}

/// Makes a completion record.
pub fn completion_record(x: &Exchange, ts: &str, counts: TokenCounts, duration_ms: u64) -> (r:
    CompletionRecord)
    ensures
        r@ == record_of(*x, ts@, counts, duration_ms),
{
    CompletionRecord {
        ts: ts.to_owned(),
        request_id: x.request_id.clone(),
        instance_id: x.instance_id.clone(),
        api_user: x.api_user.clone(),
        prompt_tokens: counts.prompt,
        generated_tokens: counts.generated,
        cached_tokens: counts.cached,
        duration_ms,
    }
}

/// What is kept of a reply that was read whole.
pub struct Kept {
    pub log: Option<DebugLogEntry>,
    pub record: Option<CompletionRecord>,
}

/// The usage in the log entry of a reply.
pub open spec fn logged_usage(e: Endpoint, reply: Seq<char>) -> Option<Seq<char>> {
    if e == Endpoint::InputTokens {
        None
    } else {
        json_part(reply, "/usage"@)
    }
}

/// Decides what is kept of a reply that was read whole.
pub fn keep_reply(call: &Call, x: &Exchange, ts: &str, reply: &str, duration_ms: u64) -> (r: Kept)
    ensures
        option_entry(r.log) == (if is_tracked(call.endpoint) && call.route.debug_log is Some {
            Some(
                EntryView {
                    stream: Some(false),
                    body: Some(reply@),
                    usage: logged_usage(call.endpoint, reply@),
                    duration_ms: Some(duration_ms),
                    ..entry_of(call.route, *x, ts@, "response"@)
                },
            )
        } else {
            None
        }),
        r.record is Some <==> is_tracked(call.endpoint),
        r.record matches Some(record) ==> record@ == record_of(
            *x,
            ts@,
            reply_counts(call.endpoint, reply@),
            duration_ms,
        ),
{
    if !tracks(call.endpoint) {
        return Kept { log: None, record: None };
    }
    let log = if call.route.debug_log.is_some() {
        let mut entry = new_entry(&call.route, x, ts, "response");
        entry.stream = Some(false);
        entry.body = Some(reply.to_owned());
        entry.usage = match call.endpoint {
            Endpoint::InputTokens => None,
            _ => part_of_json(reply, "/usage"),
        };
        entry.duration_ms = Some(duration_ms);
        Some(entry)
    } else {
        None
    };
    let counts = count_tokens(call.endpoint, reply);
    Kept { log, record: Some(completion_record(x, ts, counts, duration_ms)) }
}

// ── Audit lines ─────────────────────────────────────────────────────────────

/// The prompt in an audit line.
pub open spec fn prompt_words(prompt: Option<u64>, cached: Option<u64>) -> Seq<char> {
    match prompt {
        Some(p) => match cached {
            Some(c) => if c > 0 {
                "prompt="@ + decimal(p as nat) + ("(cached:"@ + decimal(c as nat) + ")"@)
            } else {
                "prompt="@ + decimal(p as nat)
            },
            None => "prompt="@ + decimal(p as nat),
        },
        None => ""@,
    }
}

/// The generated tokens in an audit line.
pub open spec fn generated_words(generated: Option<u64>) -> Seq<char> {
    match generated {
        Some(g) => " generated="@ + decimal(g as nat),
        None => ""@,
    }
}

/// A number at a place, if there is one.
pub open spec fn number_in(v: JsonView) -> Option<u64> {
    match v {
        JsonView::Unsigned(n) => Some(n),
        _ => None,
    }
}

fn number_of(v: Json) -> (r: Option<u64>)
    ensures
        r == number_in(v@),
{
    match v {
        Json::Unsigned(n) => Some(n),
        _ => None,
    }
}

/// The id of a reply in an audit line.
pub open spec fn reply_id(v: JsonView) -> Seq<char> {
    match text_in(v) {
        Some(t) => t,
        None => "-"@,
    }
}

/// The line that is logged for a completed request. `speed` tells the rates
/// that the backend reported, or is empty.
pub fn completion_line(reply: &str, model: &str, instance_id: &str, speed: &str, server_ms: u64) -> (r:
    String)
    ensures
        r@ == "id="@ + reply_id(json_read(reply@, "/id"@)) + (" model="@ + model@ + (" inst="@
            + instance_id@ + (prompt_words(
            number_in(json_read(reply@, "/usage/prompt_tokens"@)),
            number_in(json_read(reply@, "/usage/prompt_tokens_details/cached_tokens"@)),
        ) + generated_words(number_in(json_read(reply@, "/usage/completion_tokens"@))) + (speed@
            + " server_ms="@ + decimal(server_ms as nat))))),
{
    let id = match text_of(read_json(reply, "/id")) {
        Some(t) => t,
        None => "-".to_owned(),
    };
    let prompt = match number_of(read_json(reply, "/usage/prompt_tokens")) {
        Some(p) => {
            let number = to_decimal(p);
            let plain = cat("prompt=", number.as_str());
            match number_of(read_json(reply, "/usage/prompt_tokens_details/cached_tokens")) {
                Some(c) => if c > 0 {
                    let cached = to_decimal(c);
                    let tail = cat3("(cached:", cached.as_str(), ")");
                    cat(plain.as_str(), tail.as_str())
                } else {
                    plain
                },
                None => plain,
            }
        },
        None => "".to_owned(),
    };
    let generated = match number_of(read_json(reply, "/usage/completion_tokens")) {
        Some(g) => {
            let number = to_decimal(g);
            cat(" generated=", number.as_str())
        },
        None => "".to_owned(),
    };
    let ms = to_decimal(server_ms);
    let end = cat3(speed, " server_ms=", ms.as_str());
    let tail = cat3(prompt.as_str(), generated.as_str(), end.as_str());
    let inst = cat3(" inst=", instance_id, tail.as_str());
    let named = cat3(" model=", model, inst.as_str());
    cat3("id=", id.as_str(), named.as_str())
}

// ── Laws ────────────────────────────────────────────────────────────────────

/// A request for a model is forwarded under the resolved name, never under an
/// alias of a configured model: what a route names is a configured model.
pub proof fn law_routes_to_a_configured_model(r: Route, config: Config, requested: Seq<char>)
    requires
        is_route(r, config, requested),
    ensures
        model_named(config.models@, r.model_name@) is Some,
        r.model_name@ == routed_name(config.aliases@, requested),
{
}

/// A percent-encoded text holds only characters that stand for themselves in
/// a query parameter, and escapes.
pub proof fn law_percent_encoding_is_plain(bytes: Seq<u8>, i: int)
    requires
        0 <= i < percent_encoded(bytes).len(),
    ensures
        percent_encoded(bytes)[i] == '%' || (percent_encoded(bytes)[i] as u32 <= 126 && is_plain(
            percent_encoded(bytes)[i] as u8,
        )),
    decreases bytes.len(),
{
    if bytes.len() > 0 {
        let front = percent_encoded(bytes.drop_last());
        if i < front.len() {
            law_percent_encoding_is_plain(bytes.drop_last(), i);
        } else {
            let b = bytes.last();
            assert(percent_encoded(bytes)[i] == percent_byte(b)[i - front.len()]);
        }
    }
}

/// Each endpoint is forwarded to the path that clients use for it, and no two
/// to the same one.
pub proof fn law_endpoint_paths(a: Endpoint, b: Endpoint)
    ensures
        endpoint_path(Endpoint::Chat) == "/v1/chat/completions"@,
        endpoint_path(Endpoint::Completions) == "/v1/completions"@,
        endpoint_path(Endpoint::Responses) == "/v1/responses"@,
        endpoint_path(Endpoint::InputTokens) == "/v1/responses/input_tokens"@,
        endpoint_path(Endpoint::Embeddings) == "/v1/embeddings"@,
        endpoint_path(Endpoint::Rerank) == "/v1/rerank"@,
        endpoint_path(Endpoint::Speech) == "/v1/audio/speech"@,
        endpoint_path(Endpoint::Transcriptions) == "/v1/audio/transcriptions"@,
        a != b ==> endpoint_path(a) != endpoint_path(b),
{
    reveal_strlit("/v1/chat/completions");
    reveal_strlit("/v1/completions");
    reveal_strlit("/v1/responses");
    reveal_strlit("/v1/responses/input_tokens");
    reveal_strlit("/v1/embeddings");
    reveal_strlit("/v1/rerank");
    reveal_strlit("/v1/audio/speech");
    reveal_strlit("/v1/audio/transcriptions");
    assert(endpoint_path(Endpoint::Chat).len() == 20);
    assert(endpoint_path(Endpoint::Completions).len() == 15);
    assert(endpoint_path(Endpoint::Responses).len() == 13);
    assert(endpoint_path(Endpoint::InputTokens).len() == 26);
    assert(endpoint_path(Endpoint::Embeddings).len() == 14);
    assert(endpoint_path(Endpoint::Rerank).len() == 10);
    assert(endpoint_path(Endpoint::Speech).len() == 16);
    assert(endpoint_path(Endpoint::Transcriptions).len() == 24);
}

/// A backend is reached on this machine at its port, and at no other's.
pub proof fn law_backend_addresses(port: u16, other: u16, path: Seq<char>)
    ensures
        backend_address(port, path) == "http://127.0.0.1:"@ + decimal(port as nat) + path,
        port != other ==> backend_address(port, path) != backend_address(other, path),
{
    let head = "http://127.0.0.1:"@;
    let a = backend_address(port, path);
    let b = backend_address(other, path);
    if a == b {
        let n = decimal(port as nat).len();
        assert(a.len() == head.len() + n + path.len());
        assert(b.len() == head.len() + decimal(other as nat).len() + path.len());
        assert(a.subrange(head.len() as int, (head.len() + n) as int) =~= decimal(port as nat));
        assert(b.subrange(head.len() as int, (head.len() + n) as int) =~= decimal(other as nat));
        lemma_decimal_injective(port as nat, other as nat);
    }
}

/// Of which endpoints requests are logged and recorded.
pub proof fn law_tracked_endpoints()
    ensures
        is_tracked(Endpoint::Chat),
        is_tracked(Endpoint::Responses),
        is_tracked(Endpoint::InputTokens),
        is_tracked(Endpoint::Rerank),
        !is_tracked(Endpoint::Completions),
        !is_tracked(Endpoint::Embeddings),
        !is_tracked(Endpoint::Speech),
        !is_tracked(Endpoint::Transcriptions),
{
}

/// Where the token counts stand in a reply, by endpoint. What is no unsigned
/// number there counts as none.
pub proof fn law_where_tokens_are_counted(reply: Seq<char>, e: Endpoint, n: u64)
    ensures
        json_read(reply, "/usage/input_tokens"@) == JsonView::Unsigned(n) ==> reply_counts(
            Endpoint::Responses,
            reply,
        ).prompt == n,
        json_read(reply, "/usage/output_tokens"@) == JsonView::Unsigned(n) ==> reply_counts(
            Endpoint::Responses,
            reply,
        ).generated == n,
        json_read(reply, "/usage/input_tokens_details/cached_tokens"@) == JsonView::Unsigned(n)
            ==> reply_counts(Endpoint::Responses, reply).cached == n,
        json_read(reply, "/input_tokens"@) == JsonView::Unsigned(n) ==> reply_counts(
            Endpoint::InputTokens,
            reply,
        ).prompt == n,
        json_read(reply, "/usage/prompt_tokens"@) == JsonView::Unsigned(n) ==> reply_counts(
            Endpoint::Rerank,
            reply,
        ).prompt == n && reply_counts(Endpoint::Chat, reply).prompt == n,
        json_read(reply, "/usage/completion_tokens"@) == JsonView::Unsigned(n) ==> reply_counts(
            Endpoint::Chat,
            reply,
        ).generated == n,
        json_read(reply, "/usage/prompt_tokens_details/cached_tokens"@) == JsonView::Unsigned(n)
            ==> reply_counts(Endpoint::Chat, reply).cached == n,
        e == Endpoint::InputTokens || e == Endpoint::Rerank ==> reply_counts(e, reply).generated == 0
            && reply_counts(e, reply).cached == 0,
        json_read(reply, "/usage/prompt_tokens"@) is Missing ==> reply_counts(
            Endpoint::Chat,
            reply,
        ).prompt == 0,
{
}

/// A record tells who asked, what served, how much and how long.
pub proof fn law_records(x: Exchange, ts: Seq<char>, counts: TokenCounts, duration_ms: u64)
    ensures
        ({
            let r = record_of(x, ts, counts, duration_ms);
            &&& r.ts == ts
            &&& r.request_id == x.request_id@
            &&& r.instance_id == x.instance_id@
            &&& r.api_user == x.api_user@
            &&& r.prompt_tokens == counts.prompt
            &&& r.generated_tokens == counts.generated
            &&& r.cached_tokens == counts.cached
            &&& r.duration_ms == duration_ms
        }),
{
}

/// `percent_encoded` built from the front.
proof fn lemma_percent_cons(b: u8, rest: Seq<u8>)
    ensures
        percent_encoded(seq![b] + rest) == percent_byte(b) + percent_encoded(rest),
    decreases rest.len(),
{
    let all = seq![b] + rest;
    if rest.len() == 0 {
        assert(all.drop_last() =~= Seq::<u8>::empty());
        assert(percent_encoded(Seq::<u8>::empty()) + percent_byte(b) =~= percent_byte(b)
            + percent_encoded(rest));
    } else {
        lemma_percent_cons(b, rest.drop_last());
        assert(all.drop_last() =~= seq![b] + rest.drop_last());
        assert(percent_byte(b) + percent_encoded(rest.drop_last()) + percent_byte(rest.last())
            =~= percent_byte(b) + percent_encoded(rest));
    }
}

/// Letters, digits and `-`, `_`, `.`, `~` stand for themselves in a query
/// parameter; any other byte is `%` and its two hexadecimal digits, in upper
/// case.
pub proof fn law_percent_escapes(b: u8)
    ensures
        (48 <= b <= 57 || 65 <= b <= 90 || 97 <= b <= 122 || b == 45 || b == 95 || b == 46 || b == 126)
            ==> percent_byte(b) == seq![b as char],
        !(48 <= b <= 57 || 65 <= b <= 90 || 97 <= b <= 122 || b == 45 || b == 95 || b == 46 || b
            == 126) ==> percent_byte(b).len() == 3 && percent_byte(b)[0] == '%' && digit_value(
            percent_byte(b)[1],
            16,
        ) == Some((b as nat) / 16) && digit_value(percent_byte(b)[2], 16) == Some((b as nat) % 16)
            && !('a' <= percent_byte(b)[1] && percent_byte(b)[1] <= 'f') && !('a' <= percent_byte(
            b,
        )[2] && percent_byte(b)[2] <= 'f'),
{
}

/// Different texts have different encodings.
pub proof fn law_percent_encoding_is_injective(a: Seq<u8>, b: Seq<u8>)
    requires
        percent_encoded(a) == percent_encoded(b),
    ensures
        a == b,
    decreases a.len(),
{
    if a.len() > 0 {
        let x = a[0];
        let ra = a.drop_first();
        assert(a =~= seq![x] + ra);
        lemma_percent_cons(x, ra);
        law_percent_escapes(x);
        let e = percent_encoded(a);
        assert(e[0] == percent_byte(x)[0]);
        if b.len() == 0 {
            assert(percent_encoded(b).len() == 0);
        } else {
            let y = b[0];
            let rb = b.drop_first();
            assert(b =~= seq![y] + rb);
            lemma_percent_cons(y, rb);
            law_percent_escapes(y);
            assert(e[0] == percent_byte(y)[0]);
            if percent_byte(x).len() == 3 {
                assert(e[1] == percent_byte(x)[1] && e[2] == percent_byte(x)[2]);
                assert(percent_byte(y).len() == 3);
                assert(e[1] == percent_byte(y)[1] && e[2] == percent_byte(y)[2]);
                assert(x == y);
            } else {
                assert(percent_byte(y).len() == 1);
                assert(x == y);
            }
            let n = percent_byte(x).len() as int;
            assert(percent_encoded(ra) =~= e.skip(n));
            assert(percent_encoded(rb) =~= e.skip(n));
            law_percent_encoding_is_injective(ra, rb);
        }
    } else if b.len() > 0 {
        let y = b[0];
        assert(b =~= seq![y] + b.drop_first());
        lemma_percent_cons(y, b.drop_first());
        assert(percent_byte(y).len() > 0);
        assert(percent_encoded(a).len() == 0);
    } else {
        assert(a =~= b);
    }
}

/// What is sent on for a request whose body is handed through: the same
/// document under the resolved model name.
pub proof fn law_bodies_are_handed_through(
    r: Result<Call, ApiError>,
    config: Config,
    endpoint: Endpoint,
    body: Seq<char>,
    stream: bool,
    pointer: Seq<char>,
)
    requires
        routes_raw(r, config, endpoint, body, stream),
    ensures
        r matches Ok(call) ==> call.endpoint == endpoint && call.stream == stream && call.body is Some
            && call.route.model_name@ == routed_name(
            config.aliases@,
            json_read(body, "/model"@)->Text_0,
        ) && call.body->0@ == json_with_member(body, "model"@, call.route.model_name@),
        r matches Ok(call) ==> (json_read(call.body->0@, ""@) is Object && pointer != "/model"@
            ==> json_read(call.body->0@, pointer) == json_read(body, pointer)),
        !(json_read(body, "/model"@) is Text) ==> (r matches Err(e) && e@ is BadRequest),
        json_read(body, "/model"@) == JsonView::Text(Seq::empty()) ==> (r matches Err(e) && e@
            is BadRequest),
        r matches Err(e) ==> e@ is BadRequest || e@ is ModelNotFound,
{
}

/// A request with a typed body is forwarded to the model that it names, under
/// its resolved name, to the endpoint that it came in by, streamed as it asks
/// for. A model that is not configured is answered as not found, by its
/// resolved name.
pub proof fn law_typed_requests(
    r: Result<Call, ApiError>,
    config: Config,
    endpoint: Endpoint,
    requested: Seq<char>,
    stream: bool,
)
    requires
        routes_typed(r, config, endpoint, requested, stream),
    ensures
        r is Ok <==> model_named(config.models@, routed_name(config.aliases@, requested)) is Some,
        r matches Ok(call) ==> call.endpoint == endpoint && call.stream == stream && call.body is None
            && call.route.model_name@ == routed_name(config.aliases@, requested)
            && call.route.request_model@ == requested,
        r matches Err(e) ==> e@ == ApiProblem::ModelNotFound(
            routed_name(config.aliases@, requested),
        ),
{
}

/// An audio request with a JSON body is forwarded under the resolved name of the
/// model that it names. One that names none is a bad request; one whose model is
/// not configured is answered as not found.
pub proof fn law_audio_requests(
    r: Result<AudioCall, ApiError>,
    config: Config,
    endpoint: Endpoint,
    body: Seq<char>,
    requested: Seq<char>,
)
    requires
        routes_audio_json(r, config, endpoint, body),
    ensures
        json_read(body, "/model"@) == JsonView::Text(requested) ==> {
            let name = routed_name(config.aliases@, requested);
            if model_named(config.models@, name) is Some {
                &&& r matches Ok(call)
                &&& call.endpoint == endpoint
                &&& call.route.model_name@ == name
                &&& call.content_type@ == "application/json"@
                &&& call.body@ == encode_utf8(json_with_member(body, "model"@, name))
            } else {
                r matches Err(e) && e@ == ApiProblem::ModelNotFound(name)
            }
        },
        !(json_read(body, "/model"@) is Text) ==> (r matches Err(e) && e@
            == ApiProblem::BadRequest("missing 'model' field"@)),
{
}

/// A transcription form is forwarded with its content type. Its body is the same,
/// except for the resolved name of the model where that is another than the form
/// names. A form without a boundary or without a model is a bad request.
pub proof fn law_transcription_forms(
    r: Result<AudioCall, ApiError>,
    config: Config,
    content_type: Seq<char>,
    body: Seq<u8>,
)
    requires
        routes_form(r, config, content_type, body),
    ensures
        first_boundary(split(content_type, ';')) is None ==> (r matches Err(e) && e@
            == ApiProblem::BadRequest("multipart request without boundary"@)),
        first_boundary(split(content_type, ';')) matches Some(b) ==> field_content(body, b, "model"@)
            is None ==> (r matches Err(e) && e@ == ApiProblem::BadRequest(
            "multipart request missing 'model' field"@,
        )),
        r matches Ok(call) ==> {
            let b = first_boundary(split(content_type, ';'))->0;
            let requested = content_text(field_content(body, b, "model"@)->0);
            let name = routed_name(config.aliases@, requested);
            &&& call.endpoint == Endpoint::Transcriptions
            &&& call.content_type@ == content_type
            &&& call.route.model_name@ == name
            &&& call.body@ == if name == requested {
                body
            } else {
                rewritten(body, b, "model"@, name)
            }
        },
        r matches Err(e) ==> e@ is BadRequest || e@ is ModelNotFound,
{
}

/// What a debug log tells of an exchange: who it belongs to, the resolved model
/// and the name that was asked for.
pub proof fn law_log_entries(to: Route, x: Exchange, ts: Seq<char>, dir: Seq<char>)
    ensures
        ({
            let e = entry_of(to, x, ts, dir);
            &&& e.ts == ts
            &&& e.dir == dir
            &&& e.request_id == x.request_id@
            &&& e.instance_id == Some(x.instance_id@)
            &&& e.model == to.model_name@
            &&& e.alias == Some(to.request_model@)
            &&& e.stream is None
            &&& e.body is None
            &&& e.usage is None
            &&& e.duration_ms is None
            &&& e.error is None
        }),
{
}

/// Of audio, a debug log holds JSON requests as they are and otherwise the type
/// and the size of a body. A reply with an error status is logged as an error,
/// with its status and its text. Without a debug log nothing is logged.
pub proof fn law_audio_log_entries(
    to: Route,
    x: Exchange,
    ts: Seq<char>,
    code: u16,
    content_type: Seq<char>,
    body: Seq<u8>,
)
    ensures
        body_note(content_type, body.len()) == "{\"content_type\":"@ + json_quoted(content_type)
            + ",\"bytes\":"@ + decimal(body.len()) + "}"@,
        starts_with(content_type, "application/json"@) ==> (json_document(body) matches Ok(text)
            ==> audio_body(content_type, body) == Some(text)),
        !starts_with(content_type, "application/json"@) ==> audio_body(content_type, body) == Some(
            body_note(content_type, body.len()),
        ),
        to.debug_log is None ==> audio_reply_entry(to, x, ts, code, content_type, body) is None,
        to.debug_log is Some && 200 <= code < 300 ==> audio_reply_entry(
            to,
            x,
            ts,
            code,
            content_type,
            body,
        ) == Some(
            EntryView {
                stream: Some(false),
                body: Some(body_note(content_type, body.len())),
                ..entry_of(to, x, ts, "response"@)
            },
        ),
        to.debug_log is Some && !(200 <= code < 300) ==> audio_reply_entry(
            to,
            x,
            ts,
            code,
            content_type,
            body,
        ) == Some(
            EntryView {
                error: Some("backend "@ + decimal(code as nat) + (": "@ + lossy_text(body))),
                ..entry_of(to, x, ts, "response"@)
            },
        ),
{
}

/// The usage in a log entry is the reply's own, except where tokens are only
/// counted.
pub proof fn law_logged_usage(e: Endpoint, reply: Seq<char>)
    ensures
        logged_usage(Endpoint::InputTokens, reply) is None,
        e != Endpoint::InputTokens ==> logged_usage(e, reply) == json_part(reply, "/usage"@),
{
}

/// The words of an audit line: tokens that were read are told, cached ones only
/// where there are any, and a reply without an id gets a hyphen.
pub proof fn law_audit_words(p: u64, c: u64, text: Seq<char>, v: JsonView)
    ensures
        prompt_words(None, None) == ""@,
        prompt_words(None, Some(c)) == ""@,
        prompt_words(Some(p), None) == "prompt="@ + decimal(p as nat),
        prompt_words(Some(p), Some(0)) == "prompt="@ + decimal(p as nat),
        c > 0 ==> prompt_words(Some(p), Some(c)) == "prompt="@ + decimal(p as nat) + ("(cached:"@
            + decimal(c as nat) + ")"@),
        generated_words(None) == ""@,
        generated_words(Some(c)) == " generated="@ + decimal(c as nat),
        reply_id(JsonView::Text(text)) == text,
        !(v is Text) ==> reply_id(v) == "-"@,
        number_in(JsonView::Unsigned(c)) == Some(c),
        !(v is Unsigned) ==> number_in(v) is None,
{
}

/// Bytes are encoded one after the other.
pub proof fn law_percent_encoding_is_in_order(bytes: Seq<u8>, b: u8)
    ensures
        percent_encoded(Seq::empty()) == Seq::<char>::empty(),
        percent_encoded(bytes.push(b)) == percent_encoded(bytes) + percent_byte(b),
{
    assert(bytes.push(b).drop_last() =~= bytes);
}

} // verus!
