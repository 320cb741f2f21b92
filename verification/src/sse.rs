//! Server-sent events: cutting a byte stream into events, and forwarding it.
//!
//! The backend's own `data: [DONE]` is the only end-of-stream signal that is
//! forwarded. A stream that ends without it is truncated: the client gets an
//! explicit error event, and no completion is recorded.

use vstd::prelude::*;
use vstd::slice::slice_subrange;
use crate::json::{
    all_quoted, json_quoted, json_read, number_or_zero, option_text, quote, quote_all, read_json,
    unsigned_or_zero, Json, JsonView,
};
use crate::multipart::{append_bytes, blank_line, copy_bytes, decode_lossy, lossy_text};
use crate::numbers::{decimal, to_decimal};
use crate::text::{
    bytes_at, cat, cat3, char_views, chars_at, chars_of, join, join_strings, lines, lines_of,
    occurs_at, same_text, starts_with, string_of, texts, trim, trimmed,
};

verus! {

// ── Events ──────────────────────────────────────────────────────────────────

/// One event.
#[derive(Debug)]
pub struct SseEvent {
    pub data: String,
    /// The event type, if it is named.
    pub event: Option<String>,
}

/// An event in terms of texts.
pub struct EventView {
    pub data: Seq<char>,
    pub event: Option<Seq<char>>,
}

impl View for SseEvent {
    type V = EventView;

    open spec fn view(&self) -> EventView {
        EventView { data: self.data@, event: option_text(self.event) }
    }
}

/// An empty line after a line feed.
pub open spec fn double_feed() -> Seq<u8> {
    seq![10u8, 10u8]
}

/// An event ends at position `i`.
pub open spec fn event_ends_at(buf: Seq<u8>, i: int) -> bool {
    occurs_at(buf, double_feed(), i) || occurs_at(buf, blank_line(), i)
}

/// The first event end at or after `i`.
pub open spec fn event_end_from(buf: Seq<u8>, i: int) -> Option<int>
    decreases buf.len() - i,
{
    if i < 0 || i >= buf.len() {
        None
    } else if event_ends_at(buf, i) {
        Some(i)
    } else {
        event_end_from(buf, i + 1)
    }
}

/// The length of the separator that bytes begin with.
pub open spec fn separator_len(buf: Seq<u8>) -> int {
    if starts_with(buf, blank_line()) {
        4
    } else if starts_with(buf, double_feed()) {
        2
    } else {
        0
    }
}

fn feeds() -> (r: Vec<u8>)
    ensures
        r@ == double_feed(),
{
    let mut v: Vec<u8> = Vec::new();
    v.push(10);
    v.push(10);
    assert(v@ =~= double_feed());
    v
}

fn blank() -> (r: Vec<u8>)
    ensures
        r@ == blank_line(),
{
    let mut v: Vec<u8> = Vec::new();
    v.push(13);
    v.push(10);
    v.push(13);
    v.push(10);
    assert(v@ =~= blank_line());
    v
}

/// Finds the position of the first empty line.
pub fn find_double_newline(buf: &[u8]) -> (r: Option<usize>)
    ensures
        r is Some <==> event_end_from(buf@, 0) is Some,
        r matches Some(i) ==> event_end_from(buf@, 0) == Some(i as int) && i < buf@.len()
            && event_ends_at(buf@, i as int),
{
    let a = feeds();
    let b = blank();
    let n: usize = buf.len();
    let mut i: usize = 0;
    while i < n
        invariant
            n == buf@.len(),
            i <= n,
            a@ == double_feed(),
            b@ == blank_line(),
            event_end_from(buf@, 0) == event_end_from(buf@, i as int),
        decreases n - i,
    {
        if bytes_at(buf, a.as_slice(), i) || bytes_at(buf, b.as_slice(), i) {
            return Some(i);
        }
        i += 1;
    }
    None
}

/// Detects the length of the separator at the start of a buffer.
pub fn detect_separator_len(buf: &[u8]) -> (r: usize)
    ensures
        r == separator_len(buf@),
        r <= buf@.len(),
{
    let a = feeds();
    let b = blank();
    if bytes_at(buf, b.as_slice(), 0) {
        4
    } else if bytes_at(buf, a.as_slice(), 0) {
        2
    } else {
        0
    }
}

/// The data lines of an event, in order.
pub open spec fn data_lines(all: Seq<Seq<char>>) -> Seq<Seq<char>>
    decreases all.len(),
{
    if all.len() == 0 {
        Seq::empty()
    } else if starts_with(all.last(), "data:"@) {
        data_lines(all.drop_last()).push(trim(all.last().skip("data:"@.len() as int)))
    } else {
        data_lines(all.drop_last())
    }
}

/// The type that an event names; the last name counts.
pub open spec fn event_type(all: Seq<Seq<char>>) -> Option<Seq<char>>
    decreases all.len(),
{
    if all.len() == 0 {
        None
    } else if !starts_with(all.last(), "data:"@) && starts_with(all.last(), "event:"@) {
        Some(trim(all.last().skip("event:"@.len() as int)))
    } else {
        event_type(all.drop_last())
    }
}

/// The event that a text stands for; none where it has no data.
pub open spec fn event_in(text: Seq<char>) -> Option<EventView> {
    let all = lines(text);
    if data_lines(all).len() == 0 {
        None
    } else {
        Some(EventView { data: join(data_lines(all), "\n"@), event: event_type(all) })
    }
}

/// Reads an event from the text between two empty lines.
pub fn parse_event(text: &str) -> (r: Option<SseEvent>)
    ensures
        r is Some <==> event_in(text@) is Some,
        r matches Some(e) ==> event_in(text@) == Some(e@),
{
    let chars = chars_of(text);
    let found = lines_of(chars.as_slice());
    let ghost all = lines(text@);
    let data_key = chars_of("data:");
    let event_key = chars_of("event:");
    let mut data: Vec<String> = Vec::new();
    let mut event: Option<String> = None;
    assert(all.take(0) =~= Seq::<Seq<char>>::empty());
    assert(texts(data@) =~= Seq::<Seq<char>>::empty());
    for i in 0..found.len()
        invariant
            all == char_views(found@),
            data_key@ == "data:"@,
            event_key@ == "event:"@,
            texts(data@) == data_lines(all.take(i as int)),
            option_text(event) == event_type(all.take(i as int)),
    {
        proof {
            assert(all.take(i + 1).drop_last() =~= all.take(i as int));
            assert(all.take(i + 1).last() == found@[i as int]@);
        }
        let line = found[i].as_slice();
        if chars_at(line, data_key.as_slice(), 0) {
            let rest = slice_subrange(line, data_key.len(), line.len());
            assert(rest@ =~= line@.skip(data_key@.len() as int));
            let ghost before = data@;
            data.push(string_of(trimmed(rest)));
            assert(texts(data@) =~= texts(before).push(trim(rest@)));
        } else if chars_at(line, event_key.as_slice(), 0) {
            let rest = slice_subrange(line, event_key.len(), line.len());
            assert(rest@ =~= line@.skip(event_key@.len() as int));
            event = Some(string_of(trimmed(rest)));
        }
    }
    assert(all.take(all.len() as int) =~= all);
    if data.len() == 0 {
        return None;
    }
    let joined = join_strings(&data, "\n");
    Some(SseEvent { data: joined, event })
}

/// What is left of a buffer after its first event has been cut off.
pub open spec fn after_event(buf: Seq<u8>) -> Seq<u8> {
    match event_end_from(buf, 0) {
        Some(i) => buf.skip(i).skip(separator_len(buf.skip(i))),
        None => buf,
    }
}

/// An event end is where it is said to be, and cutting there leaves less.
pub proof fn lemma_event_end(buf: Seq<u8>, i: int)
    requires
        i >= 0,
    ensures
        event_end_from(buf, i) matches Some(k) ==> i <= k < buf.len() && event_ends_at(buf, k)
            && forall|j: int| i <= j < k ==> !event_ends_at(buf, j),
        event_end_from(buf, i) is None ==> forall|j: int| i <= j ==> !event_ends_at(buf, j),
        i == 0 && event_end_from(buf, 0) is Some ==> after_event(buf).len() < buf.len(),
    decreases buf.len() - i,
{
    if i < buf.len() {
        lemma_event_end(buf, i + 1);
    }
    if i == 0 {
        if let Some(k) = event_end_from(buf, 0) {
            let rest = buf.skip(k);
            if occurs_at(buf, double_feed(), k) {
                assert(rest.subrange(0, 2) =~= buf.subrange(k, k + 2));
                assert(starts_with(rest, double_feed()));
            } else {
                assert(rest.subrange(0, 4) =~= buf.subrange(k, k + 4));
                assert(starts_with(rest, blank_line()));
            }
        }
    }
}

/// The first event of a buffer, if it is complete and has data.
pub open spec fn first_event(buf: Seq<u8>) -> Option<EventView> {
    match event_end_from(buf, 0) {
        Some(i) => event_in(lossy_text(buf.take(i))),
        None => None,
    }
}

/// Cuts the first complete event off a buffer. An event without data is cut
/// off too, and gives nothing.
pub fn extract_sse_event(buffer: &mut Vec<u8>) -> (r: Option<SseEvent>)
    ensures
        final(buffer)@ == after_event(old(buffer)@),
        r is Some <==> first_event(old(buffer)@) is Some,
        r matches Some(e) ==> first_event(old(buffer)@) == Some(e@),
{
    let i: usize = match find_double_newline(buffer.as_slice()) {
        Some(i) => i,
        None => {
            return None;
        },
    };
    let n: usize = buffer.len();
    let head = slice_subrange(buffer.as_slice(), 0, i);
    let tail = slice_subrange(buffer.as_slice(), i, n);
    assert(head@ =~= buffer@.take(i as int));
    assert(tail@ =~= buffer@.skip(i as int));
    let sep: usize = detect_separator_len(tail);
    let rest = slice_subrange(tail, sep, tail.len());
    assert(rest@ =~= tail@.skip(sep as int));
    let text = decode_lossy(head);
    let next = copy_bytes(rest);
    *buffer = next;
    parse_event(text.as_str())
}

// ── Error events ────────────────────────────────────────────────────────────

/// The data of an error event.
pub open spec fn error_json(message: Seq<char>, kind: Seq<char>) -> Seq<char> {
    "{\"error\":{\"message\":"@ + json_quoted(message) + ",\"type\":"@ + json_quoted(kind) + "}}"@
}

/// The data of an error event with a status code.
pub open spec fn error_json_with_code(message: Seq<char>, kind: Seq<char>, code: u16) -> Seq<char> {
    "{\"error\":{\"message\":"@ + json_quoted(message) + ",\"type\":"@ + json_quoted(kind)
        + ",\"code\":"@ + decimal(code as nat) + "}}"@
}

/// An error event.
pub open spec fn error_event(message: Seq<char>, kind: Seq<char>) -> EventView {
    EventView { data: error_json(message, kind), event: Some("error"@) }
}

fn make_error(message: &str, kind: &str) -> (r: SseEvent)
    ensures
        r@ == error_event(message@, kind@),
{
    let m = quote(message);
    let k = quote(kind);
    let head = cat3("{\"error\":{\"message\":", m.as_str(), ",\"type\":");
    let data = cat3(head.as_str(), k.as_str(), "}}");
    SseEvent { data, event: Some("error".to_owned()) }
}

/// The words for a backend that went silent.
pub open spec fn idle_words(secs: u64) -> Seq<char> {
    "backend sent no data for "@ + decimal(secs as nat) + "s (idle timeout)"@
}

/// The event for a backend that answered with an error status.
pub fn backend_error_event(code: u16, text: &str) -> (r: SseEvent)
    ensures
        r@ == (EventView {
            data: error_json_with_code("backend error: "@ + text@, "backend_error"@, code),
            event: Some("error"@),
        }),
{
    let message = cat("backend error: ", text);
    let m = quote(message.as_str());
    let k = quote("backend_error");
    let number = to_decimal(code as u64);
    let head = cat3("{\"error\":{\"message\":", m.as_str(), ",\"type\":");
    let middle = cat3(head.as_str(), k.as_str(), ",\"code\":");
    let data = cat3(middle.as_str(), number.as_str(), "}}");
    SseEvent { data, event: Some("error".to_owned()) }
}

/// The event for a backend that sent no response headers in time.
pub fn no_response_event(secs: u64) -> (r: SseEvent)
    ensures
        r@ == error_event(
            "backend sent no response for "@ + decimal(secs as nat) + "s (idle timeout)"@,
            "backend_idle_timeout"@,
        ),
{
    let number = to_decimal(secs);
    let message = cat3("backend sent no response for ", number.as_str(), "s (idle timeout)");
    make_error(message.as_str(), "backend_idle_timeout")
}

// ── Forwarding ──────────────────────────────────────────────────────────────

/// The state of a stream that is forwarded.
pub struct SseForwarder {
    /// Bytes of an event that is not complete yet.
    buffer: Vec<u8>,
    /// The data of past events: all of them, or the most recent one.
    chunks: Vec<String>,
    /// Whether all data is kept, for a debug log.
    keep_all: bool,
    /// The backend has sent its own `[DONE]`.
    saw_done: bool,
    /// The stream has not ended.
    open: bool,
    /// Longest gap between chunks, in seconds, for the words of a timeout.
    idle_timeout: u64,
}

/// The same, as mathematical values.
#[verifier::ext_equal]
pub struct StreamState {
    pub buffer: Seq<u8>,
    pub chunks: Seq<Seq<char>>,
    pub keep_all: bool,
    pub saw_done: bool,
    pub open: bool,
    pub idle_timeout: u64,
}

impl View for SseForwarder {
    type V = StreamState;

    closed spec fn view(&self) -> StreamState {
        StreamState {
            buffer: self.buffer@,
            chunks: texts(self.chunks@),
            keep_all: self.keep_all,
            saw_done: self.saw_done,
            open: self.open,
            idle_timeout: self.idle_timeout,
        }
    }
}

/// What the backend stream gave.
pub enum StreamInput {
    /// Bytes.
    Chunk(Vec<u8>),
    /// It failed, with these words.
    Failed(String),
    /// It has ended.
    End,
    /// There is nothing right now; `timed_out` tells whether that has lasted
    /// too long.
    Pending { timed_out: bool },
}

/// What is done next.
pub enum StreamStep {
    /// Send an event to the client.
    Emit(SseEvent),
    /// Ask the backend stream.
    NeedInput,
    /// Wait until the backend stream has something.
    Wait,
    /// The response is over.
    Finished,
}

/// The same, as mathematical values.
pub enum StepView {
    Emit(EventView),
    NeedInput,
    Wait,
    Finished,
}

impl View for StreamStep {
    type V = StepView;

    open spec fn view(&self) -> StepView {
        match self {
            StreamStep::Emit(e) => StepView::Emit(e@),
            StreamStep::NeedInput => StepView::NeedInput,
            StreamStep::Wait => StepView::Wait,
            StreamStep::Finished => StepView::Finished,
        }
    }
}

impl StreamState {
    /// The data of an event is taken note of.
    pub open spec fn noted(self, data: Seq<char>) -> StreamState {
        if data == "[DONE]"@ {
            StreamState { saw_done: true, ..self }
        } else if data.len() == 0 {
            self
        } else if self.keep_all {
            StreamState { chunks: self.chunks.push(data), ..self }
        } else {
            StreamState { chunks: seq![data], ..self }
        }
    }

    /// The next event with data is cut off the buffer, and what stands before
    /// it.
    pub open spec fn advanced(self) -> (StreamState, StepView)
        decreases self.buffer.len(),
    {
        if event_end_from(self.buffer, 0) is None {
            (self, StepView::NeedInput)
        } else {
            proof {
                lemma_event_end(self.buffer, 0);
            }
            let s = StreamState { buffer: after_event(self.buffer), ..self };
            match first_event(self.buffer) {
                Some(e) => (s.noted(e.data), StepView::Emit(e)),
                None => s.advanced(),
            }
        }
    }

    /// What a client asks for: nothing where the response is over, otherwise
    /// the next event.
    pub open spec fn polled(self) -> (StreamState, StepView) {
        if self.open {
            self.advanced()
        } else {
            (self, StepView::Finished)
        }
    }

    /// The backend stream gave something.
    pub open spec fn received(self, input: StreamInput) -> (StreamState, StepView) {
        match input {
            StreamInput::Chunk(bytes) => StreamState {
                buffer: self.buffer + bytes@,
                ..self
            }.advanced(),
            StreamInput::Failed(words) => (
                StreamState { open: false, ..self },
                StepView::Emit(
                    error_event("backend stream error: "@ + words@, "backend_stream_error"@),
                ),
            ),
            StreamInput::End => (
                StreamState { open: false, buffer: Seq::empty(), ..self },
                if self.saw_done {
                    StepView::Finished
                } else {
                    StepView::Emit(truncation_event())
                },
            ),
            StreamInput::Pending { timed_out } => if timed_out {
                (
                    StreamState { open: false, ..self },
                    StepView::Emit(
                        error_event(idle_words(self.idle_timeout), "backend_idle_timeout"@),
                    ),
                )
            } else {
                (self, StepView::Wait)
            },
        }
    }
}

/// The event for a stream that ended without `[DONE]`.
pub open spec fn truncation_event() -> EventView {
    error_event(
        "backend stream ended without completing (truncated response)"@,
        "stream_truncated"@,
    )
}

/// Token counts of a response.
#[derive(Debug, Clone, Copy, PartialEq, Eq, Structural)]
pub struct TokenCounts {
    pub prompt: u64,
    pub generated: u64,
    pub cached: u64,
}

/// The token counts of a document in the shape of chat completions.
pub open spec fn usage_counts(text: Seq<char>) -> TokenCounts {
    TokenCounts {
        prompt: number_or_zero(json_read(text, "/usage/prompt_tokens"@)),
        generated: number_or_zero(json_read(text, "/usage/completion_tokens"@)),
        cached: number_or_zero(json_read(text, "/usage/prompt_tokens_details/cached_tokens"@)),
    }
}

/// Reads the token counts of a document in the shape of chat completions.
pub fn read_usage(text: &str) -> (r: TokenCounts)
    ensures
        r == usage_counts(text@),
{
    let prompt: u64 = unsigned_or_zero(read_json(text, "/usage/prompt_tokens"));
    let generated: u64 = unsigned_or_zero(read_json(text, "/usage/completion_tokens"));
    let cached: u64 = unsigned_or_zero(
        read_json(text, "/usage/prompt_tokens_details/cached_tokens"),
    );
    TokenCounts { prompt, generated, cached }
}

/// The counts in the last chunk that has a usage; zero where none has.
pub open spec fn last_usage(chunks: Seq<Seq<char>>) -> TokenCounts
    decreases chunks.len(),
{
    if chunks.len() == 0 {
        TokenCounts { prompt: 0, generated: 0, cached: 0 }
    } else if !(json_read(chunks.last(), "/usage"@) is Missing) {
        usage_counts(chunks.last())
    } else {
        last_usage(chunks.drop_last())
    }
}

/// The token counts of a stream; none where it did not complete.
pub open spec fn stream_counts(s: StreamState) -> Option<TokenCounts> {
    if s.saw_done {
        Some(last_usage(s.chunks))
    } else {
        None
    }
}

/// The body of a debug log entry for a stream.
pub open spec fn chunks_json(chunks: Seq<Seq<char>>) -> Seq<char> {
    "{\"chunks\":["@ + join(all_quoted(chunks), ","@) + "]}"@
}

/// The words in a debug log for a stream that did not complete.
pub open spec fn unfinished_words() -> Seq<char> {
    "stream ended before [DONE] (truncated or client disconnect)"@
}

impl SseForwarder {
    /// A stream at its beginning.
    pub fn new(keep_all: bool, idle_timeout: u64) -> (r: SseForwarder)
        ensures
            r@ == (StreamState {
                buffer: Seq::empty(),
                chunks: Seq::empty(),
                keep_all,
                saw_done: false,
                open: true,
                idle_timeout,
            }),
    {
        let r = SseForwarder {
            buffer: Vec::new(),
            chunks: Vec::new(),
            keep_all,
            saw_done: false,
            open: true,
            idle_timeout,
        };
        assert(r@.chunks =~= Seq::<Seq<char>>::empty());
        r
    }

    /// Cuts the next event with data off the buffer.
    fn advance(&mut self) -> (r: StreamStep)
        ensures
            (final(self)@, r@) == old(self)@.advanced(),
    {
        loop
            invariant
                self@.advanced() == old(self)@.advanced(),
            decreases self.buffer@.len(),
        {
            let ghost here = self@;
            proof {
                lemma_event_end(here.buffer, 0);
            }
            let before: usize = self.buffer.len();
            match extract_sse_event(&mut self.buffer) {
                Some(e) => {
                    let ghost kept = self.chunks@;
                    if same_text(e.data.as_str(), "[DONE]") {
                        self.saw_done = true;
                    } else if !e.data.as_str().is_empty() {
                        let data = e.data.clone();
                        if self.keep_all {
                            self.chunks.push(data);
                            assert(texts(self.chunks@) =~= texts(kept).push(e.data@));
                        } else {
                            let mut only: Vec<String> = Vec::new();
                            only.push(data);
                            self.chunks = only;
                            assert(texts(self.chunks@) =~= seq![e.data@]);
                        }
                    }
                    assert(self@ =~= here.advanced().0);
                    return StreamStep::Emit(e);
                },
                None => {
                    if self.buffer.len() == before {
                        assert(self@ =~= here);
                        return StreamStep::NeedInput;
                    }
                    assert(self@ =~= (StreamState { buffer: after_event(here.buffer), ..here }));
                },
            }
        }
    }

    /// Gives the next event, or says what is needed for it.
    pub fn poll_next(&mut self) -> (r: StreamStep)
        ensures
            (final(self)@, r@) == old(self)@.polled(),
    {
        if self.open {
            self.advance()
        } else {
            StreamStep::Finished
        }
    }

    /// Takes in what the backend stream gave.
    pub fn receive(&mut self, input: StreamInput) -> (r: StreamStep)
        ensures
            (final(self)@, r@) == old(self)@.received(input),
    {
        match input {
            StreamInput::Chunk(bytes) => {
                append_bytes(&mut self.buffer, bytes.as_slice());
                assert(self@ =~= (StreamState {
                    buffer: old(self)@.buffer + bytes@,
                    ..old(self)@
                }));
                self.advance()
            },
            StreamInput::Failed(words) => {
                self.open = false;
                let message = cat("backend stream error: ", words.as_str());
                StreamStep::Emit(make_error(message.as_str(), "backend_stream_error"))
            },
            StreamInput::End => {
                self.open = false;
                self.buffer = Vec::new();
                assert(self@ =~= (StreamState {
                    open: false,
                    buffer: Seq::empty(),
                    ..old(self)@
                }));
                if self.saw_done {
                    StreamStep::Finished
                } else {
                    StreamStep::Emit(
                        make_error(
                            "backend stream ended without completing (truncated response)",
                            "stream_truncated",
                        ),
                    )
                }
            },
            StreamInput::Pending { timed_out } => {
                if timed_out {
                    self.open = false;
                    let number = to_decimal(self.idle_timeout);
                    let message = cat3(
                        "backend sent no data for ",
                        number.as_str(),
                        "s (idle timeout)",
                    );
                    StreamStep::Emit(make_error(message.as_str(), "backend_idle_timeout"))
                } else {
                    StreamStep::Wait
                }
            },
        }
    }

    /// Whether the backend has sent its own `[DONE]`.
    pub fn saw_done(&self) -> (r: bool)
        ensures
            r == self@.saw_done,
    {
        self.saw_done
    }

    /// How many chunks are kept.
    pub fn chunk_count(&self) -> (r: usize)
        ensures
            r == self@.chunks.len(),
    {
        self.chunks.len()
    }

    /// The token counts to be recorded when the stream is over; none where it
    /// did not complete, which leaves no record.
    pub fn completion(&self) -> (r: Option<TokenCounts>)
        ensures
            r == stream_counts(self@),
    {
        if !self.saw_done {
            return None;
        }
        let ghost all = texts(self.chunks@);
        let mut i: usize = self.chunks.len();
        assert(all.take(all.len() as int) =~= all);
        while i > 0
            invariant
                self.saw_done,
                all == texts(self.chunks@),
                i <= all.len(),
                last_usage(all) == last_usage(all.take(i as int)),
            decreases i,
        {
            let ghost here = all.take(i as int);
            let chunk = self.chunks[i - 1].as_str();
            proof {
                assert(here.last() == chunk@);
                assert(here.drop_last() =~= all.take(i - 1));
            }
            let present = match read_json(chunk, "/usage") {
                Json::Missing => false,
                _ => true,
            };
            if present {
                return Some(read_usage(chunk));
            }
            i -= 1;
        }
        Some(TokenCounts { prompt: 0, generated: 0, cached: 0 })
    }

    /// The body of the debug log entry for the stream.
    pub fn debug_body(&self) -> (r: String)
        ensures
            r@ == chunks_json(self@.chunks),
    {
        let quoted = quote_all(&self.chunks);
        let list = join_strings(&quoted, ",");
        cat3("{\"chunks\":[", list.as_str(), "]}")
    }

    /// The error in the debug log entry for the stream.
    pub fn debug_error(&self) -> (r: Option<String>)
        ensures
            option_text(r) == (if self@.saw_done {
                None
            } else {
                Some(unfinished_words())
            }),
    {
        if self.saw_done {
            None
        } else {
            Some("stream ended before [DONE] (truncated or client disconnect)".to_owned())
        }
    }
}

// ── Whole streams ───────────────────────────────────────────────────────────

/// The events with data that bytes hold completely, in order.
pub open spec fn complete_events(buf: Seq<u8>) -> Seq<EventView>
    decreases buf.len(),
{
    if event_end_from(buf, 0) is None {
        Seq::empty()
    } else {
        proof {
            lemma_event_end(buf, 0);
        }
        let rest = complete_events(after_event(buf));
        match first_event(buf) {
            Some(e) => seq![e] + rest,
            None => rest,
        }
    }
}

/// What stands after the last complete event.
pub open spec fn left_over(buf: Seq<u8>) -> Seq<u8>
    decreases buf.len(),
{
    if event_end_from(buf, 0) is None {
        buf
    } else {
        proof {
            lemma_event_end(buf, 0);
        }
        left_over(after_event(buf))
    }
}

/// The bytes of several chunks.
pub open spec fn all_bytes(chunks: Seq<Vec<u8>>) -> Seq<u8>
    decreases chunks.len(),
{
    if chunks.len() == 0 {
        Seq::empty()
    } else {
        all_bytes(chunks.drop_last()) + chunks.last()@
    }
}

impl StreamState {
    /// The data of several events is taken note of.
    pub open spec fn noted_all(self, events: Seq<EventView>) -> StreamState
        decreases events.len(),
    {
        if events.len() == 0 {
            self
        } else {
            self.noted_all(events.drop_last()).noted(events.last().data)
        }
    }

    /// A client asks until there is no event: what it gets.
    pub open spec fn drained(self) -> (StreamState, Seq<EventView>)
        decreases self.buffer.len(),
    {
        let (s, step) = self.polled();
        match step {
            StepView::Emit(e) => {
                proof {
                    lemma_advanced(self);
                }
                let (t, rest) = s.drained();
                (t, seq![e] + rest)
            },
            _ => (s, Seq::empty()),
        }
    }

    /// The backend stream gives something, and the client asks until there is
    /// no event.
    pub open spec fn taken(self, input: StreamInput) -> (StreamState, Seq<EventView>) {
        let (s, step) = self.received(input);
        match step {
            StepView::Emit(e) => {
                let (t, rest) = s.drained();
                (t, seq![e] + rest)
            },
            _ => (s, Seq::empty()),
        }
    }

    /// The chunks come in one after the other, while the client asks.
    pub open spec fn fed(self, chunks: Seq<Vec<u8>>) -> (StreamState, Seq<EventView>)
        decreases chunks.len(),
    {
        if chunks.len() == 0 {
            self.drained()
        } else {
            let (s, front) = self.fed(chunks.drop_last());
            let (t, more) = s.taken(StreamInput::Chunk(chunks.last()));
            (t, front + more)
        }
    }

    /// The chunks come in, and then the backend stream ends.
    pub open spec fn run(self, chunks: Seq<Vec<u8>>) -> (StreamState, Seq<EventView>) {
        let (s, front) = self.fed(chunks);
        let (t, more) = s.taken(StreamInput::End);
        (t, front + more)
    }
}

/// What a step does: it cuts from the buffer, and takes note of the event.
pub proof fn lemma_advanced(s: StreamState)
    ensures
        s.advanced().1 is NeedInput || s.advanced().1 is Emit,
        s.advanced().1 is NeedInput ==> s.advanced().0 == (StreamState {
            buffer: left_over(s.buffer),
            ..s
        }) && complete_events(s.buffer).len() == 0,
        s.advanced().1 matches StepView::Emit(e) ==> {
            let next = s.advanced().0;
            &&& next.buffer.len() < s.buffer.len()
            &&& next == (StreamState { buffer: next.buffer, ..s }).noted(e.data)
            &&& complete_events(s.buffer) == seq![e] + complete_events(next.buffer)
            &&& left_over(s.buffer) == left_over(next.buffer)
        },
    decreases s.buffer.len(),
{
    lemma_event_end(s.buffer, 0);
    if event_end_from(s.buffer, 0) is Some {
        let t = StreamState { buffer: after_event(s.buffer), ..s };
        if first_event(s.buffer) is None {
            lemma_advanced(t);
        }
    } else {
        assert(s =~= (StreamState { buffer: left_over(s.buffer), ..s }));
    }
}

proof fn lemma_noted_one_more(s: StreamState, e: EventView, rest: Seq<EventView>)
    ensures
        s.noted_all(seq![e] + rest) == s.noted(e.data).noted_all(rest),
    decreases rest.len(),
{
    let all = seq![e] + rest;
    if rest.len() == 0 {
        assert(all.drop_last() =~= Seq::<EventView>::empty());
        assert(s.noted_all(all.drop_last()) == s);
    } else {
        assert(all.drop_last() =~= seq![e] + rest.drop_last());
        lemma_noted_one_more(s, e, rest.drop_last());
    }
}

proof fn lemma_noted_append(s: StreamState, a: Seq<EventView>, b: Seq<EventView>)
    ensures
        s.noted_all(a + b) == s.noted_all(a).noted_all(b),
    decreases b.len(),
{
    if b.len() == 0 {
        assert(a + b =~= a);
    } else {
        assert((a + b).drop_last() =~= a + b.drop_last());
        lemma_noted_append(s, a, b.drop_last());
    }
}

/// Taking note of data leaves the rest of a state alone.
proof fn lemma_noted_frame(s: StreamState, events: Seq<EventView>, buffer: Seq<u8>)
    ensures
        s.noted_all(events).open == s.open,
        s.noted_all(events).buffer == s.buffer,
        (StreamState { buffer, ..s }).noted_all(events) == (StreamState {
            buffer,
            ..s.noted_all(events)
        }),
        s.noted_all(events).saw_done <==> s.saw_done || exists|k: int|
            0 <= k < events.len() && (#[trigger] events[k]).data == "[DONE]"@,
    decreases events.len(),
{
    if events.len() > 0 {
        let front = events.drop_last();
        lemma_noted_frame(s, front, buffer);
        if exists|k: int| 0 <= k < front.len() && (#[trigger] front[k]).data == "[DONE]"@ {
            let k = choose|k: int| 0 <= k < front.len() && (#[trigger] front[k]).data == "[DONE]"@;
            assert(events[k].data == "[DONE]"@);
        }
        if exists|k: int| 0 <= k < events.len() && (#[trigger] events[k]).data == "[DONE]"@ {
            let k = choose|k: int| 0 <= k < events.len() && (#[trigger] events[k]).data
                == "[DONE]"@;
            if k < front.len() {
                assert(front[k].data == "[DONE]"@);
            }
        }
        if events.last().data == "[DONE]"@ {
            assert(events[events.len() - 1].data == "[DONE]"@);
        }
    }
}

/// A client that asks until there is nothing gets every complete event.
proof fn lemma_drained(s: StreamState)
    requires
        s.open,
    ensures
        s.drained().1 == complete_events(s.buffer),
        s.drained().0 == (StreamState { buffer: left_over(s.buffer), ..s }).noted_all(
            complete_events(s.buffer),
        ),
    decreases s.buffer.len(),
{
    lemma_advanced(s);
    let (t, step) = s.polled();
    if let StepView::Emit(e) = step {
        let rest = complete_events(t.buffer);
        lemma_drained(t);
        let over = left_over(s.buffer);
        let start = StreamState { buffer: over, ..s };
        assert((StreamState { buffer: over, ..t }) == start.noted(e.data));
        lemma_noted_one_more(start, e, rest);
    } else {
        assert(s.drained().1 =~= complete_events(s.buffer));
    }
}

/// More bytes do not move an event end.
proof fn lemma_end_stays(buf: Seq<u8>, more: Seq<u8>)
    requires
        event_end_from(buf, 0) is Some,
    ensures
        event_end_from(buf + more, 0) == event_end_from(buf, 0),
        first_event(buf + more) == first_event(buf),
        after_event(buf + more) == after_event(buf) + more,
{
    let all = buf + more;
    let i = event_end_from(buf, 0)->0;
    lemma_event_end(buf, 0);
    lemma_event_end(all, 0);
    if occurs_at(buf, double_feed(), i) {
        assert(all.subrange(i, i + 2) =~= buf.subrange(i, i + 2));
        assert(buf.subrange(i, i + 2)[0] == buf[i]);
        assert(buf.subrange(i, i + 2)[1] == buf[i + 1]);
    } else {
        assert(all.subrange(i, i + 4) =~= buf.subrange(i, i + 4));
        assert(buf.subrange(i, i + 4)[0] == buf[i]);
        assert(buf.subrange(i, i + 4)[1] == buf[i + 1]);
    }
    assert(event_ends_at(all, i));
    assert forall|j: int| 0 <= j < i implies !event_ends_at(all, j) by {
        if occurs_at(all, double_feed(), j) {
            assert(all.subrange(j, j + 2) =~= buf.subrange(j, j + 2));
            assert(event_ends_at(buf, j));
        }
        if occurs_at(all, blank_line(), j) {
            if j + 4 <= buf.len() {
                assert(all.subrange(j, j + 4) =~= buf.subrange(j, j + 4));
                assert(event_ends_at(buf, j));
            } else {
                assert(j == i - 1);
                assert(all.subrange(j, j + 4)[2] == all[j + 2]);
            }
        }
    }
    assert(all.take(i) =~= buf.take(i));
    let rest = buf.skip(i);
    let longer = all.skip(i);
    assert(longer =~= rest + more);
    assert(separator_len(longer) == separator_len(rest)) by {
        if occurs_at(buf, double_feed(), i) {
            assert(rest.subrange(0, 2) =~= buf.subrange(i, i + 2));
            assert(longer.subrange(0, 2) =~= rest.subrange(0, 2));
            if starts_with(rest, blank_line()) {
                assert(rest.subrange(0, 4)[0] == rest[0]);
            }
            if starts_with(longer, blank_line()) {
                assert(longer.subrange(0, 4)[0] == longer[0]);
            }
        } else {
            assert(rest.subrange(0, 4) =~= buf.subrange(i, i + 4));
            assert(longer.subrange(0, 4) =~= rest.subrange(0, 4));
        }
    }
    assert(after_event(all) =~= after_event(buf) + more);
}

/// Events are complete once their bytes are there, and more bytes add to them.
proof fn lemma_more_bytes(buf: Seq<u8>, more: Seq<u8>)
    ensures
        complete_events(buf + more) == complete_events(buf) + complete_events(
            left_over(buf) + more,
        ),
        left_over(buf + more) == left_over(left_over(buf) + more),
    decreases buf.len(),
{
    if event_end_from(buf, 0) is Some {
        lemma_event_end(buf, 0);
        lemma_end_stays(buf, more);
        let rest = after_event(buf);
        lemma_more_bytes(rest, more);
        let tail = complete_events(left_over(buf) + more);
        match first_event(buf) {
            Some(e) => {
                assert(seq![e] + (complete_events(rest) + tail) =~= (seq![e] + complete_events(
                    rest,
                )) + tail);
            },
            None => {},
        }
    } else {
        assert(complete_events(buf) + complete_events(buf + more) =~= complete_events(buf + more));
    }
}

proof fn lemma_fed(s: StreamState, chunks: Seq<Vec<u8>>)
    requires
        s.open,
    ensures
        ({
            let bytes = s.buffer + all_bytes(chunks);
            &&& s.fed(chunks).1 == complete_events(bytes)
            &&& s.fed(chunks).0 == (StreamState { buffer: left_over(bytes), ..s }).noted_all(
                complete_events(bytes),
            )
        }),
    decreases chunks.len(),
{
    if chunks.len() == 0 {
        assert(s.buffer + all_bytes(chunks) =~= s.buffer);
        lemma_drained(s);
    } else {
        let front = chunks.drop_last();
        let last = chunks.last();
        let before = s.buffer + all_bytes(front);
        let bytes = s.buffer + all_bytes(chunks);
        assert(bytes =~= before + last@);
        lemma_fed(s, front);
        let t = s.fed(front).0;
        let old_events = complete_events(before);
        let start = StreamState { buffer: left_over(before), ..s };
        lemma_noted_frame(start, old_events, left_over(bytes));
        assert(t.open && t.buffer == left_over(before));
        let x = StreamState { buffer: t.buffer + last@, ..t };
        lemma_advanced(x);
        lemma_drained(x);
        assert(t.taken(StreamInput::Chunk(last)) == x.drained());
        lemma_more_bytes(before, last@);
        let new_events = complete_events(left_over(before) + last@);
        let over = StreamState { buffer: left_over(bytes), ..s };
        assert((StreamState { buffer: left_over(bytes), ..start }) == over);
        assert((StreamState { buffer: left_over(bytes), ..x }) == over.noted_all(old_events));
        lemma_noted_append(over, old_events, new_events);
    }
}

// ── Laws ────────────────────────────────────────────────────────────────────

/// The client of a stream that ends without an error gets one event for each
/// complete event with data that the backend sent, in order, and then, exactly
/// when none of them was `[DONE]`, the truncation error. An unterminated tail
/// is not forwarded, and nothing follows.
pub proof fn law_streams_are_forwarded_whole(s: StreamState, chunks: Seq<Vec<u8>>)
    requires
        s.open,
        !s.saw_done,
    ensures
        ({
            let sent = complete_events(s.buffer + all_bytes(chunks));
            let done = exists|k: int|
                0 <= k < sent.len() && (#[trigger] sent[k]).data == "[DONE]"@;
            let (t, events) = s.run(chunks);
            &&& events == if done {
                sent
            } else {
                sent.push(truncation_event())
            }
            &&& t.saw_done == done
            &&& t.polled() == (t, StepView::Finished)
        }),
{
    let bytes = s.buffer + all_bytes(chunks);
    let sent = complete_events(bytes);
    let start = StreamState { buffer: left_over(bytes), ..s };
    lemma_fed(s, chunks);
    lemma_noted_frame(start, sent, left_over(bytes));
    let u = s.fed(chunks).0;
    let (v, step) = u.received(StreamInput::End);
    assert(v.polled() == (v, StepView::Finished));
    assert(v.drained().1 =~= Seq::<EventView>::empty());
    if u.saw_done {
        assert(s.run(chunks).1 =~= sent);
    } else {
        assert(s.run(chunks).1 =~= sent.push(truncation_event()));
    }
}

/// How the bytes of a stream are cut into chunks makes no difference to what
/// its client gets, nor to what is kept of it.
pub proof fn law_chunk_boundaries_do_not_matter(s: StreamState, a: Seq<Vec<u8>>, b: Seq<Vec<u8>>)
    requires
        s.open,
        all_bytes(a) == all_bytes(b),
    ensures
        s.fed(a) == s.fed(b),
        s.run(a) == s.run(b),
{
    lemma_fed(s, a);
    lemma_fed(s, b);
}

/// A stream that ends is reported as truncated exactly when the backend has
/// not sent `[DONE]`, and exactly then no completion is recorded. After its
/// end there is nothing more, and what was left of an event is not forwarded.
pub proof fn law_end_of_stream(s: StreamState)
    ensures
        s.saw_done ==> s.received(StreamInput::End).1 == StepView::Finished,
        !s.saw_done ==> s.received(StreamInput::End).1 == StepView::Emit(truncation_event()),
        stream_counts(s.received(StreamInput::End).0) is Some <==> s.saw_done,
        s.received(StreamInput::End).0.polled().1 == StepView::Finished,
        s.received(StreamInput::End).0.buffer.len() == 0,
{
}

/// `[DONE]` is taken note of exactly when it is forwarded: nothing else makes
/// a stream count as complete, and nothing makes it count as incomplete again.
pub proof fn law_done_is_the_backends(s: StreamState, input: StreamInput)
    ensures
        s.received(input).0.saw_done <==> s.saw_done || (s.received(input).1 matches StepView::Emit(
            e,
        ) && input is Chunk && e.data == "[DONE]"@),
        s.polled().0.saw_done <==> s.saw_done || (s.polled().1 matches StepView::Emit(e) && e.data
            == "[DONE]"@),
{
    lemma_advanced(s);
    if let StreamInput::Chunk(bytes) = input {
        lemma_advanced(StreamState { buffer: s.buffer + bytes@, ..s });
    }
}

/// Without a debug log at most one chunk is kept, however long the stream.
pub proof fn law_chunks_are_bounded(s: StreamState, input: StreamInput)
    requires
        !s.keep_all,
        s.chunks.len() <= 1,
    ensures
        s.received(input).0.chunks.len() <= 1,
        s.polled().0.chunks.len() <= 1,
        !s.received(input).0.keep_all,
        !s.polled().0.keep_all,
{
    lemma_advanced(s);
    if let StreamInput::Chunk(bytes) = input {
        lemma_advanced(StreamState { buffer: s.buffer + bytes@, ..s });
    }
}

/// A stream that failed or timed out is over: the error is the last event.
pub proof fn law_errors_end_the_stream(s: StreamState, words: String)
    ensures
        s.received(StreamInput::Failed(words)).0.polled().1 == StepView::Finished,
        s.received(StreamInput::Pending { timed_out: true }).0.polled().1 == StepView::Finished,
        s.received(StreamInput::Pending { timed_out: true }).1 is Emit,
{
}

/// An empty line follows the line that ends at a place.
pub open spec fn empty_line_at(b: Seq<u8>, j: int) -> bool {
    ||| 0 <= j && j + 2 <= b.len() && b[j] == 10 && b[j + 1] == 10
    ||| 0 <= j && j + 4 <= b.len() && b[j] == 13 && b[j + 1] == 10 && b[j + 2] == 13 && b[j + 3]
        == 10
}

/// An event ends where an empty line follows.
proof fn lemma_ends_at_empty_line(b: Seq<u8>, j: int)
    requires
        0 <= j,
    ensures
        event_ends_at(b, j) <==> empty_line_at(b, j),
{
    if j + 2 <= b.len() {
        let two = b.subrange(j, j + 2);
        assert(two[0] == b[j] && two[1] == b[j + 1]);
        assert(two[0] == 10 && two[1] == 10 ==> two =~= double_feed());
    }
    if j + 4 <= b.len() {
        let four = b.subrange(j, j + 4);
        assert(four[0] == b[j] && four[1] == b[j + 1] && four[2] == b[j + 2] && four[3] == b[j + 3]);
        assert(four[0] == 13 && four[1] == 10 && four[2] == 13 && four[3] == 10 ==> four
            =~= blank_line());
    }
}

/// The first event end is where the first empty line follows.
proof fn lemma_first_end(b: Seq<u8>, n: int)
    requires
        0 <= n,
        empty_line_at(b, n),
        forall|j: int| 0 <= j < n ==> !#[trigger] empty_line_at(b, j),
    ensures
        event_end_from(b, 0) == Some(n),
{
    lemma_event_end(b, 0);
    lemma_ends_at_empty_line(b, n);
    if let Some(k) = event_end_from(b, 0) {
        lemma_ends_at_empty_line(b, k);
        if k < n {
            assert(!empty_line_at(b, k));
        }
    }
}

/// The separator that bytes begin with is as long as it is.
proof fn lemma_separator(sep: Seq<u8>, rest: Seq<u8>)
    requires
        sep == seq![10u8, 10u8] || sep == seq![13u8, 10u8, 13u8, 10u8],
    ensures
        separator_len(sep + rest) == sep.len(),
{
    let tail = sep + rest;
    assert(tail.subrange(0, sep.len() as int) =~= sep);
    if sep.len() == 2 && starts_with(tail, blank_line()) {
        assert(tail.subrange(0, 4)[0] == tail[0]);
        assert(tail[0] == sep[0]);
    }
}

/// An event reaches up to the first empty line, whether lines end in a line
/// feed or in a carriage return and a line feed. What is left begins after that
/// empty line.
pub proof fn law_events_end_in_an_empty_line(head: Seq<u8>, sep: Seq<u8>, rest: Seq<u8>)
    requires
        sep == seq![10u8, 10u8] || sep == seq![13u8, 10u8, 13u8, 10u8],
        forall|j: int| 0 <= j < head.len() ==> !#[trigger] empty_line_at(head + sep + rest, j),
    ensures
        first_event(head + sep + rest) == event_in(lossy_text(head)),
        after_event(head + sep + rest) == rest,
{
    let all = head + sep + rest;
    let n = head.len() as int;
    assert(empty_line_at(all, n)) by {
        assert(all[n] == sep[0] && all[n + 1] == sep[1]);
        if sep.len() == 4 {
            assert(all[n + 2] == sep[2] && all[n + 3] == sep[3]);
        }
    }
    lemma_first_end(all, n);
    assert(all.take(n) =~= head);
    assert(all.skip(n) =~= sep + rest);
    lemma_separator(sep, rest);
    assert((sep + rest).skip(sep.len() as int) =~= rest);
}

/// Bytes without an empty line hold no complete event, and stay.
pub proof fn law_events_wait_for_their_empty_line(buf: Seq<u8>)
    requires
        forall|j: int| 0 <= j < buf.len() ==> !#[trigger] empty_line_at(buf, j),
    ensures
        first_event(buf) is None,
        after_event(buf) == buf,
{
    lemma_event_end(buf, 0);
    if let Some(k) = event_end_from(buf, 0) {
        lemma_ends_at_empty_line(buf, k);
        assert(empty_line_at(buf, k));
    }
}

/// A line that begins with `data:` adds its value to the data of an event, a
/// line that begins with `event:` names its type, in place of a type named
/// before, and any other line changes nothing. Space around a value does not
/// count.
pub proof fn law_lines_of_an_event(before: Seq<Seq<char>>, value: Seq<char>, other: Seq<char>)
    requires
        !starts_with(other, "data:"@),
        !starts_with(other, "event:"@),
    ensures
        data_lines(Seq::empty()) == Seq::<Seq<char>>::empty(),
        event_type(Seq::empty()) is None,
        data_lines(before.push("data:"@ + value)) == data_lines(before).push(trim(value)),
        event_type(before.push("data:"@ + value)) == event_type(before),
        data_lines(before.push("event:"@ + value)) == data_lines(before),
        event_type(before.push("event:"@ + value)) == Some(trim(value)),
        data_lines(before.push(other)) == data_lines(before),
        event_type(before.push(other)) == event_type(before),
{
    reveal_strlit("data:");
    reveal_strlit("event:");
    let data = "data:"@ + value;
    let event = "event:"@ + value;
    assert(before.push(data).drop_last() =~= before);
    assert(before.push(event).drop_last() =~= before);
    assert(before.push(other).drop_last() =~= before);
    assert(data.subrange(0, "data:"@.len() as int) =~= "data:"@);
    assert(data.skip("data:"@.len() as int) =~= value);
    assert(event.subrange(0, "event:"@.len() as int) =~= "event:"@);
    assert(event.skip("event:"@.len() as int) =~= value);
    if starts_with(event, "data:"@) {
        assert(event.subrange(0, "data:"@.len() as int)[0] == event[0]);
    }
}

/// The data lines of an event are joined by line feeds. A text without a data
/// line is no event.
pub proof fn law_what_an_event_holds(text: Seq<char>)
    ensures
        event_in(text) is None <==> data_lines(lines(text)).len() == 0,
        event_in(text) matches Some(e) ==> e.data == join(data_lines(lines(text)), "\n"@) && e.event
            == event_type(lines(text)),
{
}

/// How errors are told to a client: as an event named `error` whose data holds
/// the message and the kind of error, and the status code where the backend
/// gave one.
pub proof fn law_error_events(message: Seq<char>, kind: Seq<char>, code: u16)
    ensures
        error_event(message, kind).event == Some("error"@),
        error_event(message, kind).data == "{\"error\":{\"message\":"@ + json_quoted(message)
            + ",\"type\":"@ + json_quoted(kind) + "}}"@,
        error_json_with_code(message, kind, code) == "{\"error\":{\"message\":"@ + json_quoted(
            message,
        ) + ",\"type\":"@ + json_quoted(kind) + ",\"code\":"@ + decimal(code as nat) + "}}"@,
{
}

/// What a stream does with something other than bytes. A failure, and a silence
/// that lasts too long, give an error event and close it. Its end closes it too
/// and gives an error event unless the backend has sent `[DONE]`. A short
/// silence changes nothing. A stream that is closed gives no more events.
pub proof fn law_how_a_stream_goes_on(s: StreamState, words: String)
    ensures
        s.received(StreamInput::Failed(words)).1 == StepView::Emit(
            error_event("backend stream error: "@ + words@, "backend_stream_error"@),
        ),
        s.received(StreamInput::Pending { timed_out: true }).1 == StepView::Emit(
            error_event(
                "backend sent no data for "@ + decimal(s.idle_timeout as nat)
                    + "s (idle timeout)"@,
                "backend_idle_timeout"@,
            ),
        ),
        s.received(StreamInput::Pending { timed_out: false }) == (s, StepView::Wait),
        s.received(StreamInput::End).1 == if s.saw_done {
            StepView::Finished
        } else {
            StepView::Emit(
                error_event(
                    "backend stream ended without completing (truncated response)"@,
                    "stream_truncated"@,
                ),
            )
        },
        !s.received(StreamInput::Failed(words)).0.open,
        !s.received(StreamInput::Pending { timed_out: true }).0.open,
        !s.received(StreamInput::End).0.open,
        s.received(StreamInput::Failed(words)).0.chunks == s.chunks,
        s.received(StreamInput::Pending { timed_out: true }).0.chunks == s.chunks,
        s.received(StreamInput::End).0.chunks == s.chunks,
        s.received(StreamInput::Failed(words)).0.saw_done == s.saw_done,
        s.received(StreamInput::Pending { timed_out: true }).0.saw_done == s.saw_done,
        s.received(StreamInput::End).0.saw_done == s.saw_done,
        !s.open ==> s.polled() == (s, StepView::Finished),
{
}

/// An open stream gives the first event with data that it has complete, and
/// takes note of it: `[DONE]` marks the stream as complete, other data is kept,
/// all of it where that was asked for and otherwise the latest only. Empty data
/// is not kept.
pub proof fn law_what_is_kept_of_a_stream(s: StreamState, bytes: Vec<u8>)
    ensures
        s.open && complete_events(s.buffer).len() == 0 ==> s.polled().1 is NeedInput
            && s.polled().0.chunks == s.chunks && s.polled().0.saw_done == s.saw_done,
        s.open && complete_events(s.buffer).len() > 0 ==> ({
            let e = complete_events(s.buffer)[0];
            let next = s.polled().0;
            &&& s.polled().1 == StepView::Emit(e)
            &&& next.open
            &&& complete_events(next.buffer) == complete_events(s.buffer).drop_first()
            &&& next.saw_done <==> s.saw_done || e.data == "[DONE]"@
            &&& next.chunks == if e.data == "[DONE]"@ || e.data.len() == 0 {
                s.chunks
            } else if s.keep_all {
                s.chunks.push(e.data)
            } else {
                seq![e.data]
            }
        }),
        s.open ==> s.received(StreamInput::Chunk(bytes)) == (StreamState {
            buffer: s.buffer + bytes@,
            ..s
        }).polled(),
{
    lemma_advanced(s);
    if s.open {
        if let StepView::Emit(e) = s.advanced().1 {
            let rest = complete_events(s.advanced().0.buffer);
            assert((seq![e] + rest).drop_first() =~= rest);
            assert(complete_events(s.buffer)[0] == e);
        }
    }
}

/// Token counts are read from the members of `usage`, and count as zero where
/// they are no unsigned numbers. Of a stream, the last chunk with a `usage`
/// counts, and nothing is counted unless the stream is complete.
pub proof fn law_token_counts(s: StreamState, chunks: Seq<Seq<char>>, chunk: Seq<char>)
    ensures
        json_read(chunk, "/usage/prompt_tokens"@) matches JsonView::Unsigned(n)
            ==> usage_counts(chunk).prompt == n,
        json_read(chunk, "/usage/completion_tokens"@) matches JsonView::Unsigned(n)
            ==> usage_counts(chunk).generated == n,
        json_read(
            chunk,
            "/usage/prompt_tokens_details/cached_tokens"@,
        ) matches JsonView::Unsigned(n) ==> usage_counts(chunk).cached == n,
        !(json_read(chunk, "/usage/prompt_tokens"@) is Unsigned) ==> usage_counts(chunk).prompt
            == 0,
        !(json_read(chunk, "/usage/completion_tokens"@) is Unsigned) ==> usage_counts(
            chunk,
        ).generated == 0,
        !(json_read(chunk, "/usage/prompt_tokens_details/cached_tokens"@) is Unsigned)
            ==> usage_counts(chunk).cached == 0,
        last_usage(Seq::empty()) == (TokenCounts { prompt: 0, generated: 0, cached: 0 }),
        last_usage(chunks.push(chunk)) == if json_read(chunk, "/usage"@) is Missing {
            last_usage(chunks)
        } else {
            usage_counts(chunk)
        },
        !s.saw_done ==> stream_counts(s) is None,
        s.saw_done ==> stream_counts(s) == Some(last_usage(s.chunks)),
{
    assert(chunks.push(chunk).drop_last() =~= chunks);
}

} // verus!
