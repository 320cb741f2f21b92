//! A stub backend: canned replies in the shapes of the real ones.

use vstd::prelude::*;
use vstd::slice::slice_subrange;
use crate::json::{
    flag, is_true, json_document, json_quoted, json_read, option_text, parse_document, quote,
    read_json, text_in, text_of, Json, JsonView,
};
use crate::multipart::{decode_lossy, lossy_text};
use crate::numbers::{decimal, to_decimal};
use crate::sse::{EventView, SseEvent};
use crate::text::{
    cat, cat3, chars_at, chars_of, find, find_chars, same_text, starts_with, string_of,
};

verus! {

// ── Sound ───────────────────────────────────────────────────────────────────

/// The `width` low bytes of a number, the lowest first.
pub open spec fn little_endian(n: nat, width: nat) -> Seq<u8>
    decreases width,
{
    if width == 0 {
        Seq::empty()
    } else {
        seq![(n % 256) as u8] + little_endian(n / 256, (width - 1) as nat)
    }
}

/// Samples in the canned sound: a tenth of a second at 16 kHz.
pub const STUB_SAMPLES: u32 = 1600;

/// A WAV file with that many 16-bit samples of mono silence.
pub open spec fn silent_wav(samples: nat) -> Seq<u8> {
    let len = 2 * samples;
    seq![82u8, 73u8, 70u8, 70u8] + little_endian(36 + len, 4) + seq![
        87u8,
        65u8,
        86u8,
        69u8,
        102u8,
        109u8,
        116u8,
        32u8,
    ] + little_endian(16, 4) + little_endian(1, 2) + little_endian(1, 2) + little_endian(16000, 4)
        + little_endian(32000, 4) + little_endian(2, 2) + little_endian(16, 2) + seq![
        100u8,
        97u8,
        116u8,
        97u8,
    ] + little_endian(len, 4) + Seq::new(len, |i: int| 0u8)
}

fn push_le(out: &mut Vec<u8>, n: u32, width: usize)
    requires
        width <= 4,
    ensures
        final(out)@ == old(out)@ + little_endian(n as nat, width as nat),
{
    let ghost start = out@;
    let mut rest: u32 = n;
    let mut left: usize = width;
    assert(start + little_endian(n as nat, width as nat) =~= out@ + little_endian(
        rest as nat,
        left as nat,
    ));
    while left > 0
        invariant
            start + little_endian(n as nat, width as nat) == out@ + little_endian(
                rest as nat,
                left as nat,
            ),
        decreases left,
    {
        let ghost before = out@;
        out.push((rest % 256) as u8);
        proof {
            assert(little_endian(rest as nat, left as nat) =~= seq![(rest % 256) as u8]
                + little_endian((rest / 256) as nat, (left - 1) as nat));
            assert(before + little_endian(rest as nat, left as nat) =~= out@ + little_endian(
                (rest / 256) as nat,
                (left - 1) as nat,
            ));
        }
        rest = rest / 256;
        left -= 1;
    }
    assert(out@ + little_endian(rest as nat, 0) =~= out@);
}

fn push_word(out: &mut Vec<u8>, a: u8, b: u8, c: u8, d: u8)
    ensures
        final(out)@ == old(out)@ + seq![a, b, c, d],
{
    let ghost before = out@;
    out.push(a);
    out.push(b);
    out.push(c);
    out.push(d);
    assert(out@ =~= before + seq![a, b, c, d]);
}

/// A tiny valid WAV file: a 44-byte PCM header and a short silence.
pub fn stub_wav() -> (r: Vec<u8>)
    ensures
        r@ == silent_wav(STUB_SAMPLES as nat),
{
    let data_len: u32 = STUB_SAMPLES * 2;
    let mut wav: Vec<u8> = Vec::new();
    push_word(&mut wav, 82, 73, 70, 70);
    assert(wav@ =~= seq![82u8, 73u8, 70u8, 70u8]);
    push_le(&mut wav, 36 + data_len, 4);
    let ghost head = wav@;
    push_word(&mut wav, 87, 65, 86, 69);
    push_word(&mut wav, 102, 109, 116, 32);
    assert(wav@ =~= head + seq![87u8, 65u8, 86u8, 69u8, 102u8, 109u8, 116u8, 32u8]);
    push_le(&mut wav, 16, 4);
    push_le(&mut wav, 1, 2);
    push_le(&mut wav, 1, 2);
    push_le(&mut wav, 16000, 4);
    push_le(&mut wav, 32000, 4);
    push_le(&mut wav, 2, 2);
    push_le(&mut wav, 16, 2);
    push_word(&mut wav, 100, 97, 116, 97);
    push_le(&mut wav, data_len, 4);
    let ghost header = wav@;
    assert(wav@ =~= header + Seq::new(0, |i: int| 0u8));
    for i in 0..data_len
        invariant
            wav@ == header + Seq::new(i as nat, |j: int| 0u8),
    {
        wav.push(0);
        assert(wav@ =~= header + Seq::new((i + 1) as nat, |j: int| 0u8));
    }
    assert(wav@ =~= silent_wav(STUB_SAMPLES as nat));
    wav
}

/// The base64 text of bytes, with the standard alphabet and padding.
pub uninterp spec fn base64_text(bytes: Seq<u8>) -> Seq<char>;

/// Calls `base64::Engine::encode` on
/// `base64::engine::general_purpose::STANDARD`. The result is a function of the
/// bytes, and is called `base64_text`.
#[verifier::external_body]
fn encode_base64(bytes: &[u8]) -> (r: String)
    ensures
        r@ == base64_text(bytes@),
{
    base64::Engine::encode(&base64::engine::general_purpose::STANDARD, bytes)
}

// ── Completions ─────────────────────────────────────────────────────────────

/// One canned token.
pub open spec fn token(i: nat) -> Seq<char> {
    "tok-"@ + decimal(i) + " "@
}

/// The canned tokens, one after the other.
pub open spec fn tokens(n: nat) -> Seq<char>
    decreases n,
{
    if n == 0 {
        Seq::empty()
    } else {
        tokens((n - 1) as nat) + token((n - 1) as nat)
    }
}

fn all_tokens(n: u64) -> (r: String)
    ensures
        r@ == tokens(n as nat),
{
    let mut out = String::new();
    for i in 0..n
        invariant
            out@ == tokens(i as nat),
    {
        let number = to_decimal(i);
        let t = cat3("tok-", number.as_str(), " ");
        out = cat(out.as_str(), t.as_str());
    }
    out
}

/// What a request asks for.
pub struct StubRequest {
    pub model: String,
    pub stream: bool,
}

/// The model that a request names, or a default.
pub open spec fn stub_model(body: Seq<char>, default_name: Seq<char>) -> Seq<char> {
    match text_in(json_read(body, "/model"@)) {
        Some(m) => m,
        None => default_name,
    }
}

fn model_or(body: &str, default_name: &str) -> (r: String)
    ensures
        r@ == stub_model(body@, default_name@),
{
    match text_of(read_json(body, "/model")) {
        Some(m) => m,
        None => default_name.to_owned(),
    }
}

/// Reads what a completion request asks for.
pub fn stub_request(body: &str) -> (r: StubRequest)
    ensures
        r.model@ == stub_model(body@, "stub"@),
        r.stream == is_true(json_read(body@, "/stream"@)),
{
    StubRequest { model: model_or(body, "stub"), stream: flag(read_json(body, "/stream")) }
}

/// The model that an audio request names, or a default.
pub fn audio_model(body: &str) -> (r: String)
    ensures
        r@ == stub_model(body@, "stub-audio"@),
{
    model_or(body, "stub-audio")
}

/// The usage in the shape of chat completions.
pub open spec fn chat_usage(n: nat) -> Seq<char> {
    "{\"prompt_tokens\":5,\"completion_tokens\":"@ + decimal(n) + (",\"total_tokens\":"@ + decimal(
        5 + n,
    ) + "}"@)
}

fn usage_text(n: u64) -> (r: String)
    requires
        n <= u64::MAX - 5,
    ensures
        r@ == chat_usage(n as nat),
{
    let a = to_decimal(n);
    let b = to_decimal(n + 5);
    let tail = cat3(",\"total_tokens\":", b.as_str(), "}");
    cat3("{\"prompt_tokens\":5,\"completion_tokens\":", a.as_str(), tail.as_str())
}

/// What every chunk of a chat stream begins with.
pub open spec fn chunk_head(model: Seq<char>) -> Seq<char> {
    "{\"id\":\"chatcmpl-stub\",\"object\":\"chat.completion.chunk\",\"created\":1,\"model\":"@
        + json_quoted(model) + ",\"choices\":["@
}

/// A chunk with one token.
pub open spec fn chat_chunk(model: Seq<char>, i: nat) -> Seq<char> {
    chunk_head(model) + "{\"index\":0,\"delta\":{\"content\":"@ + (json_quoted(token(i))
        + "},\"finish_reason\":null}]}"@)
}

/// The last chunk, with the usage.
pub open spec fn usage_chunk(model: Seq<char>, n: nat) -> Seq<char> {
    chunk_head(model) + "],\"usage\":"@ + (chat_usage(n) + "}"@)
}

/// An event without a type.
pub open spec fn plain(data: Seq<char>) -> EventView {
    EventView { data, event: None }
}

/// An event of a type.
pub open spec fn typed(event: Seq<char>, data: Seq<char>) -> EventView {
    EventView { data, event: Some(event) }
}

/// Events in terms of texts.
pub open spec fn event_views(events: Seq<SseEvent>) -> Seq<EventView> {
    events.map_values(|e: SseEvent| e@)
}

fn push_event(out: &mut Vec<SseEvent>, data: String, event: Option<String>)
    ensures
        event_views(final(out)@) == event_views(old(out)@).push(
            EventView { data: data@, event: option_text(event) },
        ),
{
    let ghost before = out@;
    out.push(SseEvent { data, event });
    assert(event_views(out@) =~= event_views(before).push(
        EventView { data: data@, event: option_text(event) },
    ));
}

fn head_text(model: &str) -> (r: String)
    ensures
        r@ == chunk_head(model@),
{
    let q = quote(model);
    cat3(
        "{\"id\":\"chatcmpl-stub\",\"object\":\"chat.completion.chunk\",\"created\":1,\"model\":",
        q.as_str(),
        ",\"choices\":[",
    )
}

/// The canned chat stream: the chunks, a usage chunk and `[DONE]`.
pub fn chat_events(model: &str, chunks: u64) -> (r: Vec<SseEvent>)
    requires
        chunks <= u64::MAX - 5,
    ensures
        event_views(r@) == Seq::new(chunks as nat, |i: int| plain(chat_chunk(model@, i as nat)))
            + seq![plain(usage_chunk(model@, chunks as nat)), plain("[DONE]"@)],
{
    let mut out: Vec<SseEvent> = Vec::new();
    let head = head_text(model);
    assert(event_views(out@) =~= Seq::new(0, |i: int| plain(chat_chunk(model@, i as nat))));
    for i in 0..chunks
        invariant
            head@ == chunk_head(model@),
            event_views(out@) == Seq::new(i as nat, |j: int| plain(chat_chunk(model@, j as nat))),
    {
        let number = to_decimal(i);
        let word = cat3("tok-", number.as_str(), " ");
        let q = quote(word.as_str());
        let tail = cat(q.as_str(), "},\"finish_reason\":null}]}");
        let data = cat3(head.as_str(), "{\"index\":0,\"delta\":{\"content\":", tail.as_str());
        push_event(&mut out, data, None);
        assert(event_views(out@) =~= Seq::new(
            (i + 1) as nat,
            |j: int| plain(chat_chunk(model@, j as nat)),
        ));
    }
    let usage = usage_text(chunks);
    let tail = cat(usage.as_str(), "}");
    let data = cat3(head.as_str(), "],\"usage\":", tail.as_str());
    push_event(&mut out, data, None);
    push_event(&mut out, "[DONE]".to_owned(), None);
    assert(event_views(out@) =~= Seq::new(
        chunks as nat,
        |i: int| plain(chat_chunk(model@, i as nat)),
    ) + seq![plain(usage_chunk(model@, chunks as nat)), plain("[DONE]"@)]);
    out
}

/// The canned chat reply.
pub fn chat_reply(model: &str, chunks: u64) -> (r: String)
    requires
        chunks <= u64::MAX - 5,
    ensures
        r@ == "{\"id\":\"chatcmpl-stub\",\"object\":\"chat.completion\",\"created\":1,\"model\":"@
            + json_quoted(model@) + (
        ",\"choices\":[{\"index\":0,\"message\":{\"role\":\"assistant\",\"content\":"@
            + json_quoted(tokens(chunks as nat)) + ("},\"finish_reason\":\"stop\"}],\"usage\":"@
            + chat_usage(chunks as nat) + "}"@)),
{
    let q = quote(model);
    let text = all_tokens(chunks);
    let content = quote(text.as_str());
    let usage = usage_text(chunks);
    let end = cat3("},\"finish_reason\":\"stop\"}],\"usage\":", usage.as_str(), "}");
    let tail = cat3(
        ",\"choices\":[{\"index\":0,\"message\":{\"role\":\"assistant\",\"content\":",
        content.as_str(),
        end.as_str(),
    );
    cat3(
        "{\"id\":\"chatcmpl-stub\",\"object\":\"chat.completion\",\"created\":1,\"model\":",
        q.as_str(),
        tail.as_str(),
    )
}

// ── Responses ───────────────────────────────────────────────────────────────

/// The canned Response object.
pub open spec fn response_json(model: Seq<char>, n: nat) -> Seq<char> {
    "{\"id\":\"resp-stub\",\"object\":\"response\",\"created_at\":1,\"status\":\"completed\",\"model\":"@
        + json_quoted(model) + (
    ",\"output\":[{\"type\":\"message\",\"id\":\"msg-stub\",\"status\":\"completed\",\"role\":\"assistant\",\"content\":[{\"type\":\"output_text\",\"text\":"@
        + json_quoted(tokens(n)) + (",\"annotations\":[]}]}],\"usage\":{\"input_tokens\":5,\"output_tokens\":"@
        + decimal(n) + (",\"total_tokens\":"@ + decimal(5 + n) + "}}"@)))
}

/// The canned Response object, as a reply and in the last event of a stream.
pub fn response_object(model: &str, chunks: u64) -> (r: String)
    requires
        chunks <= u64::MAX - 5,
    ensures
        r@ == response_json(model@, chunks as nat),
{
    let q = quote(model);
    let text = all_tokens(chunks);
    let content = quote(text.as_str());
    let a = to_decimal(chunks);
    let b = to_decimal(chunks + 5);
    let total = cat3(",\"total_tokens\":", b.as_str(), "}}");
    let usage = cat3(
        ",\"annotations\":[]}]}],\"usage\":{\"input_tokens\":5,\"output_tokens\":",
        a.as_str(),
        total.as_str(),
    );
    let output = cat3(
        ",\"output\":[{\"type\":\"message\",\"id\":\"msg-stub\",\"status\":\"completed\",\"role\":\"assistant\",\"content\":[{\"type\":\"output_text\",\"text\":",
        content.as_str(),
        usage.as_str(),
    );
    cat3(
        "{\"id\":\"resp-stub\",\"object\":\"response\",\"created_at\":1,\"status\":\"completed\",\"model\":",
        q.as_str(),
        output.as_str(),
    )
}

/// The first event of a Responses stream.
pub open spec fn created_json(model: Seq<char>) -> Seq<char> {
    "{\"type\":\"response.created\",\"response\":{\"id\":\"resp-stub\",\"object\":\"response\",\"created_at\":1,\"status\":\"in_progress\",\"model\":"@
        + json_quoted(model) + ",\"output\":[]}}"@
}

/// An event with one token.
pub open spec fn delta_json(i: nat) -> Seq<char> {
    "{\"type\":\"response.output_text.delta\",\"item_id\":\"msg-stub\",\"output_index\":0,\"content_index\":0,\"delta\":"@
        + json_quoted(token(i)) + "}"@
}

/// The last event.
pub open spec fn completed_json(model: Seq<char>, n: nat) -> Seq<char> {
    "{\"type\":\"response.completed\",\"response\":"@ + response_json(model, n) + "}"@
}

/// The canned Responses stream. It has no `[DONE]`: the API ends a stream
/// after the completed event.
pub fn responses_events(model: &str, chunks: u64) -> (r: Vec<SseEvent>)
    requires
        chunks <= u64::MAX - 5,
    ensures
        event_views(r@) == seq![typed("response.created"@, created_json(model@))] + Seq::new(
            chunks as nat,
            |i: int| typed("response.output_text.delta"@, delta_json(i as nat)),
        ) + seq![typed("response.completed"@, completed_json(model@, chunks as nat))],
{
    let mut out: Vec<SseEvent> = Vec::new();
    let q = quote(model);
    let created = cat3(
        "{\"type\":\"response.created\",\"response\":{\"id\":\"resp-stub\",\"object\":\"response\",\"created_at\":1,\"status\":\"in_progress\",\"model\":",
        q.as_str(),
        ",\"output\":[]}}",
    );
    push_event(&mut out, created, Some("response.created".to_owned()));
    let ghost first = seq![typed("response.created"@, created_json(model@))];
    assert(event_views(out@) =~= first + Seq::new(
        0,
        |i: int| typed("response.output_text.delta"@, delta_json(i as nat)),
    ));
    for i in 0..chunks
        invariant
            event_views(out@) == first + Seq::new(
                i as nat,
                |j: int| typed("response.output_text.delta"@, delta_json(j as nat)),
            ),
    {
        let number = to_decimal(i);
        let word = cat3("tok-", number.as_str(), " ");
        let content = quote(word.as_str());
        let data = cat3(
            "{\"type\":\"response.output_text.delta\",\"item_id\":\"msg-stub\",\"output_index\":0,\"content_index\":0,\"delta\":",
            content.as_str(),
            "}",
        );
        push_event(&mut out, data, Some("response.output_text.delta".to_owned()));
        assert(event_views(out@) =~= first + Seq::new(
            (i + 1) as nat,
            |j: int| typed("response.output_text.delta"@, delta_json(j as nat)),
        ));
    }
    let object = response_object(model, chunks);
    let completed = cat3(
        "{\"type\":\"response.completed\",\"response\":",
        object.as_str(),
        "}",
    );
    push_event(&mut out, completed, Some("response.completed".to_owned()));
    assert(event_views(out@) =~= first + Seq::new(
        chunks as nat,
        |i: int| typed("response.output_text.delta"@, delta_json(i as nat)),
    ) + seq![typed("response.completed"@, completed_json(model@, chunks as nat))]);
    out
}

/// The canned token count.
pub fn input_tokens_reply() -> (r: String)
    ensures
        r@ == "{\"object\":\"response.input_tokens\",\"input_tokens\":5}"@,
{
    "{\"object\":\"response.input_tokens\",\"input_tokens\":5}".to_owned()
}

/// The canned embedding.
pub fn embeddings_reply(model: &str) -> (r: String)
    ensures
        r@ == "{\"object\":\"list\",\"data\":[{\"object\":\"embedding\",\"index\":0,\"embedding\":[0.1,0.2,0.3]}],\"model\":"@
            + json_quoted(model@) + ",\"usage\":{\"prompt_tokens\":3,\"total_tokens\":3}}"@,
{
    let q = quote(model);
    cat3(
        "{\"object\":\"list\",\"data\":[{\"object\":\"embedding\",\"index\":0,\"embedding\":[0.1,0.2,0.3]}],\"model\":",
        q.as_str(),
        ",\"usage\":{\"prompt_tokens\":3,\"total_tokens\":3}}",
    )
}

// ── Audio ───────────────────────────────────────────────────────────────────

/// The reply to a speech request.
pub enum SpeechReply {
    /// A stream of events.
    Events(Vec<SseEvent>),
    /// A JSON document.
    Document(String),
    /// The sound itself.
    Sound(Vec<u8>),
}

/// An event with a piece of sound.
pub open spec fn sound_delta(model: Seq<char>, sound: Seq<u8>) -> Seq<char> {
    "{\"type\":\"speech.audio.delta\",\"model\":"@ + json_quoted(model) + (",\"audio\":"@
        + json_quoted(base64_text(sound)) + "}"@)
}

/// The end of a stream of sound.
pub open spec fn sound_done(model: Seq<char>) -> Seq<char> {
    "{\"type\":\"speech.audio.done\",\"model\":"@ + json_quoted(model) + "}"@
}

/// The sound in a JSON document.
pub open spec fn sound_json(model: Seq<char>, sound: Seq<u8>) -> Seq<char> {
    "{\"model\":"@ + json_quoted(model) + (",\"audio\":"@ + json_quoted(base64_text(sound)) + "}"@)
}

/// How sound is asked for.
pub open spec fn is_text(v: JsonView, word: Seq<char>) -> bool {
    text_in(v) == Some(word)
}

fn is_word(v: Json, word: &str) -> (r: bool)
    ensures
        r == is_text(v@, word@),
{
    match text_of(v) {
        Some(t) => same_text(t.as_str(), word),
        None => false,
    }
}

fn speech_events(model: &str, chunks: u64, wav: &[u8]) -> (r: Vec<SseEvent>)
    requires
        wav@.len() >= 64,
    ensures
        event_views(r@) == Seq::new(
            chunks as nat,
            |i: int| typed("speech.audio.delta"@, sound_delta(model@, wav@.take(64))),
        ) + seq![typed("speech.audio.done"@, sound_done(model@)), plain("[DONE]"@)],
{
    let mut out: Vec<SseEvent> = Vec::new();
    let q = quote(model);
    let piece = slice_subrange(wav, 0, 64);
    assert(piece@ =~= wav@.take(64));
    let ghost delta = typed("speech.audio.delta"@, sound_delta(model@, wav@.take(64)));
    assert(event_views(out@) =~= Seq::new(0, |i: int| delta));
    for i in 0..chunks
        invariant
            q@ == json_quoted(model@),
            piece@ == wav@.take(64),
            delta == typed("speech.audio.delta"@, sound_delta(model@, wav@.take(64))),
            event_views(out@) == Seq::new(i as nat, |j: int| delta),
    {
        let sound = encode_base64(piece);
        let quoted = quote(sound.as_str());
        let tail = cat3(",\"audio\":", quoted.as_str(), "}");
        let data = cat3(
            "{\"type\":\"speech.audio.delta\",\"model\":",
            q.as_str(),
            tail.as_str(),
        );
        push_event(&mut out, data, Some("speech.audio.delta".to_owned()));
        assert(event_views(out@) =~= Seq::new((i + 1) as nat, |j: int| delta));
    }
    let done = cat3("{\"type\":\"speech.audio.done\",\"model\":", q.as_str(), "}");
    push_event(&mut out, done, Some("speech.audio.done".to_owned()));
    push_event(&mut out, "[DONE]".to_owned(), None);
    assert(event_views(out@) =~= Seq::new(
        chunks as nat,
        |i: int| typed("speech.audio.delta"@, sound_delta(model@, wav@.take(64))),
    ) + seq![typed("speech.audio.done"@, sound_done(model@)), plain("[DONE]"@)]);
    out
}

/// The canned speech: a stream of events, a JSON document, or the sound.
pub fn audio_speech(body: &str, chunks: u64) -> (r: SpeechReply)
    ensures
        ({
            let model = stub_model(body@, "stub-audio"@);
            let wav = silent_wav(STUB_SAMPLES as nat);
            if is_text(json_read(body@, "/stream_format"@), "sse"@) {
                r matches SpeechReply::Events(events) && event_views(events@) == Seq::new(
                    chunks as nat,
                    |i: int| typed("speech.audio.delta"@, sound_delta(model, wav.take(64))),
                ) + seq![typed("speech.audio.done"@, sound_done(model)), plain("[DONE]"@)]
            } else if is_text(json_read(body@, "/response_format"@), "json"@) {
                r matches SpeechReply::Document(text) && text@ == sound_json(model, wav)
            } else {
                r matches SpeechReply::Sound(bytes) && bytes@ == wav
            }
        }),
{
    let model = audio_model(body);
    let wav = stub_wav();
    if is_word(read_json(body, "/stream_format"), "sse") {
        assert(wav@.len() >= 64);
        return SpeechReply::Events(speech_events(model.as_str(), chunks, wav.as_slice()));
    }
    if is_word(read_json(body, "/response_format"), "json") {
        let q = quote(model.as_str());
        let sound = encode_base64(wav.as_slice());
        let quoted = quote(sound.as_str());
        let tail = cat3(",\"audio\":", quoted.as_str(), "}");
        return SpeechReply::Document(cat3("{\"model\":", q.as_str(), tail.as_str()));
    }
    SpeechReply::Sound(wav)
}

/// The canned transcript.
pub open spec fn transcript() -> Seq<char> {
    ",\"text\":\"stub transcript: the quick brown fox\"}"@
}

/// The canned transcript, as a document.
pub fn transcript_json(model: &str) -> (r: String)
    ensures
        r@ == "{\"model\":"@ + json_quoted(model@) + transcript(),
{
    let q = quote(model);
    cat3("{\"model\":", q.as_str(), ",\"text\":\"stub transcript: the quick brown fox\"}")
}

/// An event with a piece of the transcript.
pub open spec fn transcript_delta(model: Seq<char>, i: nat) -> Seq<char> {
    "{\"type\":\"transcript.text.delta\",\"model\":"@ + json_quoted(model) + (",\"delta\":"@
        + json_quoted("chunk-"@ + decimal(i) + " "@) + "}"@)
}

/// The end of a stream of the transcript.
pub open spec fn transcript_done(model: Seq<char>) -> Seq<char> {
    "{\"type\":\"transcript.text.done\",\"model\":"@ + json_quoted(model) + transcript()
}

/// The canned transcript, as a stream.
pub fn transcript_sse(model: &str, chunks: u64) -> (r: Vec<SseEvent>)
    ensures
        event_views(r@) == Seq::new(
            chunks as nat,
            |i: int| typed("transcript.text.delta"@, transcript_delta(model@, i as nat)),
        ) + seq![typed("transcript.text.done"@, transcript_done(model@)), plain("[DONE]"@)],
{
    let mut out: Vec<SseEvent> = Vec::new();
    let q = quote(model);
    assert(event_views(out@) =~= Seq::new(
        0,
        |i: int| typed("transcript.text.delta"@, transcript_delta(model@, i as nat)),
    ));
    for i in 0..chunks
        invariant
            q@ == json_quoted(model@),
            event_views(out@) == Seq::new(
                i as nat,
                |j: int| typed("transcript.text.delta"@, transcript_delta(model@, j as nat)),
            ),
    {
        let number = to_decimal(i);
        let word = cat3("chunk-", number.as_str(), " ");
        let content = quote(word.as_str());
        let tail = cat3(",\"delta\":", content.as_str(), "}");
        let data = cat3(
            "{\"type\":\"transcript.text.delta\",\"model\":",
            q.as_str(),
            tail.as_str(),
        );
        push_event(&mut out, data, Some("transcript.text.delta".to_owned()));
        assert(event_views(out@) =~= Seq::new(
            (i + 1) as nat,
            |j: int| typed("transcript.text.delta"@, transcript_delta(model@, j as nat)),
        ));
    }
    let done = cat3(
        "{\"type\":\"transcript.text.done\",\"model\":",
        q.as_str(),
        ",\"text\":\"stub transcript: the quick brown fox\"}",
    );
    push_event(&mut out, done, Some("transcript.text.done".to_owned()));
    push_event(&mut out, "[DONE]".to_owned(), None);
    assert(event_views(out@) =~= Seq::new(
        chunks as nat,
        |i: int| typed("transcript.text.delta"@, transcript_delta(model@, i as nat)),
    ) + seq![typed("transcript.text.done"@, transcript_done(model@)), plain("[DONE]"@)]);
    out
}

/// The field of a form in a text: what stands between the first empty line
/// after its mark and the end of that line.
pub open spec fn scanned_field(text: Seq<char>, name: Seq<char>) -> Option<Seq<char>> {
    let mark = "name=\""@ + name + "\""@;
    match find(text, mark) {
        None => None,
        Some(p) => {
            let after = text.skip(p + mark.len());
            match find(after, "\r\n\r\n"@) {
                None => None,
                Some(s) => {
                    let rest = after.skip(s + 4);
                    match find(rest, "\r\n"@) {
                        None => None,
                        Some(e) => Some(rest.take(e)),
                    }
                },
            }
        },
    }
}

/// Scans a text for the field of a form.
pub fn scan_field(text: &str, name: &str) -> (r: Option<String>)
    ensures
        option_text(r) == scanned_field(text@, name@),
{
    let chars = chars_of(text);
    let mark_text = cat3("name=\"", name, "\"");
    let mark = chars_of(mark_text.as_str());
    let blank = chars_of("\r\n\r\n");
    let end = chars_of("\r\n");
    proof {
        reveal_strlit("\r\n\r\n");
    }
    let n: usize = chars.len();
    let p: usize = match find_chars(chars.as_slice(), mark.as_slice()) {
        Some(p) => p,
        None => {
            return None;
        },
    };
    let after = slice_subrange(chars.as_slice(), p + mark.len(), n);
    assert(after@ =~= text@.skip(p + mark@.len()));
    let m: usize = after.len();
    let s: usize = match find_chars(after, blank.as_slice()) {
        Some(s) => s,
        None => {
            return None;
        },
    };
    let rest = slice_subrange(after, s + 4, m);
    assert(rest@ =~= after@.skip(s + 4));
    match find_chars(rest, end.as_slice()) {
        Some(e) => {
            let value = slice_subrange(rest, 0, e);
            assert(value@ =~= rest@.take(e as int));
            Some(string_of(value))
        },
        None => None,
    }
}

/// What a transcription request asks for.
pub open spec fn transcription_asks(content_type: Seq<char>, body: Seq<u8>) -> (Seq<char>, bool) {
    if starts_with(content_type, "multipart/form-data"@) {
        let text = lossy_text(body);
        (
            match scanned_field(text, "model"@) {
                Some(m) => m,
                None => "stub-audio"@,
            },
            scanned_field(text, "stream"@) == Some("true"@),
        )
    } else {
        match json_document(body) {
            Ok(text) => (
                stub_model(text, "stub-audio"@),
                is_true(json_read(text, "/stream"@)),
            ),
            Err(_) => ("stub-audio"@, false),
        }
    }
}

/// Reads what a transcription request asks for.
pub fn transcription_request(content_type: &str, body: &[u8]) -> (r: StubRequest)
    ensures
        (r.model@, r.stream) == transcription_asks(content_type@, body@),
{
    let kind = chars_of(content_type);
    let form = chars_of("multipart/form-data");
    if chars_at(kind.as_slice(), form.as_slice(), 0) {
        let text = decode_lossy(body);
        let model = match scan_field(text.as_str(), "model") {
            Some(m) => m,
            None => "stub-audio".to_owned(),
        };
        let stream = match scan_field(text.as_str(), "stream") {
            Some(s) => same_text(s.as_str(), "true"),
            None => false,
        };
        return StubRequest { model, stream };
    }
    match parse_document(body) {
        Ok(text) => StubRequest {
            model: audio_model(text.as_str()),
            stream: flag(read_json(text.as_str(), "/stream")),
        },
        Err(_) => StubRequest { model: "stub-audio".to_owned(), stream: false },
    }
}

/// The canned voices of a model.
pub fn voices_reply(model: Option<&str>) -> (r: String)
    ensures
        r@ == "{\"model\":"@ + json_quoted(
            match model {
                Some(m) => m@,
                None => "stub-audio"@,
            },
        ) + ",\"voices\":[{\"voice_id\":\"alba\"},{\"voice_id\":\"cosette\"}]}"@,
{
    let name = match model {
        Some(m) => m,
        None => "stub-audio",
    };
    let q = quote(name);
    cat3(
        "{\"model\":",
        q.as_str(),
        ",\"voices\":[{\"voice_id\":\"alba\"},{\"voice_id\":\"cosette\"}]}",
    )
}

// ── Laws ────────────────────────────────────────────────────────────────────

/// Four bytes of a sound file, the lowest first, hold a number.
pub open spec fn word_at(w: Seq<u8>, i: int) -> int {
    w[i] + w[i + 1] * 256 + w[i + 2] * 65536 + w[i + 3] * 16777216
}

/// Two bytes of a sound file, the lowest first, hold a number.
pub open spec fn half_at(w: Seq<u8>, i: int) -> int {
    w[i] + w[i + 1] * 256
}

proof fn lemma_little_endian(n: nat)
    ensures
        n < 0x1_0000_0000 ==> little_endian(n, 4).len() == 4 && word_at(little_endian(n, 4), 0) == n,
        n < 0x1_0000 ==> little_endian(n, 2).len() == 2 && half_at(little_endian(n, 2), 0) == n,
{
    reveal_with_fuel(little_endian, 5);
    let a = n % 256;
    let b = n / 256 % 256;
    let c = n / 256 / 256 % 256;
    let d = n / 256 / 256 / 256 % 256;
    assert(little_endian(n, 4) =~= seq![a as u8, b as u8, c as u8, d as u8]);
    assert(little_endian(n, 2) =~= seq![a as u8, b as u8]);
}

/// The canned sound is a RIFF file of the kind WAVE: its header tells the sizes
/// and one channel of 16-bit samples at 16 kHz, and all its samples are zero.
pub proof fn law_canned_sound(samples: nat, i: int)
    requires
        samples < 0x4000_0000,
    ensures
        ({
            let w = silent_wav(samples);
            &&& w.len() == 44 + 2 * samples
            &&& w.subrange(0, 4) == seq![82u8, 73u8, 70u8, 70u8]
            &&& word_at(w, 4) == w.len() - 8
            &&& w.subrange(8, 16) == seq![87u8, 65u8, 86u8, 69u8, 102u8, 109u8, 116u8, 32u8]
            &&& word_at(w, 16) == 16
            &&& half_at(w, 20) == 1
            &&& half_at(w, 22) == 1
            &&& word_at(w, 24) == 16000
            &&& word_at(w, 28) == 16000 * 2
            &&& half_at(w, 32) == 2
            &&& half_at(w, 34) == 16
            &&& w.subrange(36, 40) == seq![100u8, 97u8, 116u8, 97u8]
            &&& word_at(w, 40) == 2 * samples
            &&& 44 <= i < w.len() ==> w[i] == 0
        }),
{
    let len = 2 * samples;
    lemma_little_endian(36 + len);
    lemma_little_endian(16);
    lemma_little_endian(1);
    lemma_little_endian(16000);
    lemma_little_endian(32000);
    lemma_little_endian(2);
    lemma_little_endian(len);
    let w = silent_wav(samples);
    let riff = seq![82u8, 73u8, 70u8, 70u8];
    let wave = seq![87u8, 65u8, 86u8, 69u8, 102u8, 109u8, 116u8, 32u8];
    let data = seq![100u8, 97u8, 116u8, 97u8];
    assert(w.len() == 44 + len);
    assert(w.subrange(0, 4) =~= riff);
    assert(w.subrange(4, 8) =~= little_endian(36 + len, 4));
    assert(w.subrange(8, 16) =~= wave);
    assert(w.subrange(16, 20) =~= little_endian(16, 4));
    assert(w.subrange(20, 22) =~= little_endian(1, 2));
    assert(w.subrange(22, 24) =~= little_endian(1, 2));
    assert(w.subrange(24, 28) =~= little_endian(16000, 4));
    assert(w.subrange(28, 32) =~= little_endian(32000, 4));
    assert(w.subrange(32, 34) =~= little_endian(2, 2));
    assert(w.subrange(34, 36) =~= little_endian(16, 2));
    assert(w.subrange(36, 40) =~= data);
    assert(w.subrange(40, 44) =~= little_endian(len, 4));
    lemma_parts(w);
}

/// The numbers in a part of a file are those at its places.
proof fn lemma_parts(w: Seq<u8>)
    requires
        w.len() >= 44,
    ensures
        word_at(w, 4) == word_at(w.subrange(4, 8), 0),
        word_at(w, 16) == word_at(w.subrange(16, 20), 0),
        half_at(w, 20) == half_at(w.subrange(20, 22), 0),
        half_at(w, 22) == half_at(w.subrange(22, 24), 0),
        word_at(w, 24) == word_at(w.subrange(24, 28), 0),
        word_at(w, 28) == word_at(w.subrange(28, 32), 0),
        half_at(w, 32) == half_at(w.subrange(32, 34), 0),
        half_at(w, 34) == half_at(w.subrange(34, 36), 0),
        word_at(w, 40) == word_at(w.subrange(40, 44), 0),
{
}

/// The canned texts count up: each token tells its number.
pub proof fn law_canned_tokens(n: nat)
    ensures
        tokens(0) == Seq::<char>::empty(),
        tokens(n + 1) == tokens(n) + ("tok-"@ + decimal(n) + " "@),
        token(n) == "tok-"@ + decimal(n) + " "@,
{
}

/// The canned chat documents. Five tokens of the prompt and as many generated
/// ones as there are chunks make up the usage.
pub proof fn law_canned_chat(model: Seq<char>, n: nat)
    ensures
        chat_usage(n) == "{\"prompt_tokens\":5,\"completion_tokens\":"@ + decimal(n) + (
        ",\"total_tokens\":"@ + decimal(n + 5) + "}"@),
        chat_chunk(model, n)
            == "{\"id\":\"chatcmpl-stub\",\"object\":\"chat.completion.chunk\",\"created\":1,\"model\":"@
            + json_quoted(model) + ",\"choices\":["@ + "{\"index\":0,\"delta\":{\"content\":"@ + (
        json_quoted("tok-"@ + decimal(n) + " "@) + "},\"finish_reason\":null}]}"@),
        usage_chunk(model, n)
            == "{\"id\":\"chatcmpl-stub\",\"object\":\"chat.completion.chunk\",\"created\":1,\"model\":"@
            + json_quoted(model) + ",\"choices\":["@ + "],\"usage\":"@ + (chat_usage(n) + "}"@),
        plain(model) == (EventView { data: model, event: None }),
        typed("response.created"@, model) == (EventView {
            data: model,
            event: Some("response.created"@),
        }),
{
}

/// The canned documents of the Responses API.
pub proof fn law_canned_responses(model: Seq<char>, n: nat)
    ensures
        response_json(model, n)
            == "{\"id\":\"resp-stub\",\"object\":\"response\",\"created_at\":1,\"status\":\"completed\",\"model\":"@
            + json_quoted(model) + (
        ",\"output\":[{\"type\":\"message\",\"id\":\"msg-stub\",\"status\":\"completed\",\"role\":\"assistant\",\"content\":[{\"type\":\"output_text\",\"text\":"@
            + json_quoted(tokens(n)) + (
        ",\"annotations\":[]}]}],\"usage\":{\"input_tokens\":5,\"output_tokens\":"@ + decimal(n) + (
        ",\"total_tokens\":"@ + decimal(n + 5) + "}}"@))),
        created_json(model)
            == "{\"type\":\"response.created\",\"response\":{\"id\":\"resp-stub\",\"object\":\"response\",\"created_at\":1,\"status\":\"in_progress\",\"model\":"@
            + json_quoted(model) + ",\"output\":[]}}"@,
        delta_json(n)
            == "{\"type\":\"response.output_text.delta\",\"item_id\":\"msg-stub\",\"output_index\":0,\"content_index\":0,\"delta\":"@
            + json_quoted("tok-"@ + decimal(n) + " "@) + "}"@,
        completed_json(model, n) == "{\"type\":\"response.completed\",\"response\":"@
            + response_json(model, n) + "}"@,
{
}

/// The canned audio documents.
pub proof fn law_canned_audio(model: Seq<char>, sound: Seq<u8>, n: nat)
    ensures
        sound_delta(model, sound) == "{\"type\":\"speech.audio.delta\",\"model\":"@ + json_quoted(
            model,
        ) + (",\"audio\":"@ + json_quoted(base64_text(sound)) + "}"@),
        sound_done(model) == "{\"type\":\"speech.audio.done\",\"model\":"@ + json_quoted(model)
            + "}"@,
        sound_json(model, sound) == "{\"model\":"@ + json_quoted(model) + (",\"audio\":"@
            + json_quoted(base64_text(sound)) + "}"@),
        transcript() == ",\"text\":\"stub transcript: the quick brown fox\"}"@,
        transcript_delta(model, n) == "{\"type\":\"transcript.text.delta\",\"model\":"@
            + json_quoted(model) + (",\"delta\":"@ + json_quoted("chunk-"@ + decimal(n) + " "@)
            + "}"@),
        transcript_done(model) == "{\"type\":\"transcript.text.done\",\"model\":"@ + json_quoted(
            model,
        ) + ",\"text\":\"stub transcript: the quick brown fox\"}"@,
{
}

/// A request is served under the model that it names, and under a default where
/// it names none.
pub proof fn law_stub_models(body: Seq<char>, other: Seq<char>, name: Seq<char>)
    ensures
        json_read(body, "/model"@) == JsonView::Text(name) ==> stub_model(body, other) == name,
        !(json_read(body, "/model"@) is Text) ==> stub_model(body, other) == other,
        is_text(JsonView::Text(name), name),
        name != other ==> !is_text(JsonView::Text(name), other),
        !(json_read(body, "/model"@) is Text) ==> !is_text(json_read(body, "/model"@), name),
{
}

/// The value of a field stands after the empty line that follows its mark, up to
/// the end of that line.
pub proof fn law_scanned_fields(
    before: Seq<char>,
    name: Seq<char>,
    between: Seq<char>,
    value: Seq<char>,
    rest: Seq<char>,
)
    requires
        ({
            let mark = "name=\""@ + name + "\""@;
            let tail = value + "\r\n"@ + rest;
            let after = between + "\r\n\r\n"@ + tail;
            &&& find(before + mark + after, mark) == Some(before.len() as int)
            &&& find(after, "\r\n\r\n"@) == Some(between.len() as int)
            &&& find(tail, "\r\n"@) == Some(value.len() as int)
        }),
    ensures
        scanned_field(
            before + ("name=\""@ + name + "\""@) + (between + "\r\n\r\n"@ + (value + "\r\n"@
                + rest)),
            name,
        ) == Some(value),
{
    reveal_strlit("\r\n\r\n");
    let mark = "name=\""@ + name + "\""@;
    let tail = value + "\r\n"@ + rest;
    let after = between + "\r\n\r\n"@ + tail;
    let text = before + mark + after;
    assert(text.skip(before.len() as int + mark.len()) =~= after);
    assert(after.skip(between.len() as int + 4) =~= tail);
    assert(tail.take(value.len() as int) =~= value);
}

/// A transcription request is read by the kind of its body: a form by its
/// fields, anything else as a document. What cannot be read asks for the
/// default, without a stream.
pub proof fn law_transcription_requests(
    content_type: Seq<char>,
    body: Seq<u8>,
    name: Seq<char>,
    document: Seq<char>,
)
    ensures
        starts_with(content_type, "multipart/form-data"@) ==> (scanned_field(
            lossy_text(body),
            "model"@,
        ) == Some(name) ==> transcription_asks(content_type, body).0 == name) && (scanned_field(
            lossy_text(body),
            "model"@,
        ) is None ==> transcription_asks(content_type, body).0 == "stub-audio"@) && (
        transcription_asks(content_type, body).1 <==> scanned_field(lossy_text(body), "stream"@)
            == Some("true"@)),
        !starts_with(content_type, "multipart/form-data"@) && json_document(body) is Err
            ==> transcription_asks(content_type, body) == ("stub-audio"@, false),
        !starts_with(content_type, "multipart/form-data"@) && json_document(body) == Ok::<
            Seq<char>,
            Seq<char>,
        >(document) ==> transcription_asks(content_type, body).0 == stub_model(
            document,
            "stub-audio"@,
        ) && (transcription_asks(content_type, body).1 <==> json_read(document, "/stream"@)
            == JsonView::Bool(true)),
{
}

} // verus!
