//! The stub backend.

use llm_orch::stub::{
    audio_model, audio_speech, chat_events, chat_reply, embeddings_reply, input_tokens_reply,
    response_object, responses_events, scan_field, stub_request, stub_wav, transcript_json,
    transcript_sse, transcription_request, voices_reply, SpeechReply,
};

fn parse(text: &str) -> serde_json::Value {
    serde_json::from_str(text).expect("a JSON document")
}

#[test]
fn the_sound_is_a_valid_wave_file() {
    let wav = stub_wav();
    assert_eq!(wav.len(), 44 + 3200);
    assert_eq!(&wav[0..4], b"RIFF");
    assert_eq!(u32::from_le_bytes([wav[4], wav[5], wav[6], wav[7]]), 36 + 3200);
    assert_eq!(&wav[8..16], b"WAVEfmt ");
    assert_eq!(u32::from_le_bytes([wav[24], wav[25], wav[26], wav[27]]), 16000);
    assert_eq!(&wav[36..40], b"data");
    assert_eq!(u32::from_le_bytes([wav[40], wav[41], wav[42], wav[43]]), 3200);
    assert!(wav[44..].iter().all(|b| *b == 0));
}

#[test]
fn requests_are_read_with_defaults() {
    let r = stub_request("{\"model\":\"x\",\"stream\":true}");
    assert_eq!((r.model.as_str(), r.stream), ("x", true));
    let r = stub_request("{}");
    assert_eq!((r.model.as_str(), r.stream), ("stub", false));
    assert_eq!(audio_model("{}"), "stub-audio");
    assert_eq!(audio_model("{\"model\":\"v\"}"), "v");
}

#[test]
fn chat_is_answered() {
    let events = chat_events("m\"x", 2);
    assert_eq!(events.len(), 4);
    let first = parse(&events[0].data);
    assert_eq!(first["model"], "m\"x");
    assert_eq!(first["choices"][0]["delta"]["content"], "tok-0 ");
    assert!(first["choices"][0]["finish_reason"].is_null());
    let usage = parse(&events[2].data);
    assert_eq!(usage["usage"]["completion_tokens"], 2);
    assert_eq!(usage["usage"]["total_tokens"], 7);
    assert_eq!(events[3].data, "[DONE]");
    let reply = parse(&chat_reply("m", 2));
    assert_eq!(reply["choices"][0]["message"]["content"], "tok-0 tok-1 ");
    assert_eq!(reply["usage"]["prompt_tokens"], 5);
}

#[test]
fn responses_are_answered() {
    let object = parse(&response_object("m", 1));
    assert_eq!(object["output"][0]["content"][0]["text"], "tok-0 ");
    assert_eq!(object["usage"]["output_tokens"], 1);
    let events = responses_events("m", 2);
    let kinds: Vec<&str> = events.iter().map(|e| e.event.as_deref().unwrap()).collect();
    assert_eq!(
        kinds,
        vec![
            "response.created",
            "response.output_text.delta",
            "response.output_text.delta",
            "response.completed"
        ]
    );
    for e in &events {
        assert_eq!(parse(&e.data)["type"], e.event.as_deref().unwrap());
    }
    assert_eq!(parse(&input_tokens_reply())["input_tokens"], 5);
    assert_eq!(parse(&embeddings_reply("m"))["data"][0]["embedding"][1], 0.2);
}

#[test]
fn speech_is_answered() {
    match audio_speech("{\"model\":\"v\"}", 1) {
        SpeechReply::Sound(bytes) => assert_eq!(bytes, stub_wav()),
        _ => panic!("sound was asked for"),
    }
    match audio_speech("{\"response_format\":\"json\"}", 1) {
        SpeechReply::Document(text) => {
            let v = parse(&text);
            assert_eq!(v["model"], "stub-audio");
            let audio = v["audio"].as_str().unwrap();
            assert!(audio.starts_with("UklGR"), "{audio}");
            assert_eq!(audio.len(), (44 + 3200 + 2) / 3 * 4);
        }
        _ => panic!("a document was asked for"),
    }
    match audio_speech("{\"stream_format\":\"sse\"}", 2) {
        SpeechReply::Events(events) => {
            assert_eq!(events.len(), 4);
            assert_eq!(parse(&events[0].data)["type"], "speech.audio.delta");
            assert_eq!(events[2].event.as_deref(), Some("speech.audio.done"));
            assert_eq!(events[3].data, "[DONE]");
        }
        _ => panic!("events were asked for"),
    }
}

#[test]
fn transcriptions_are_answered() {
    let form = "--b\r\nContent-Disposition: form-data; name=\"model\"\r\n\r\nasr\r\n\
                --b\r\nContent-Disposition: form-data; name=\"stream\"\r\n\r\ntrue\r\n--b--\r\n";
    let r = transcription_request("multipart/form-data; boundary=b", form.as_bytes());
    assert_eq!((r.model.as_str(), r.stream), ("asr", true));
    let r = transcription_request("application/json", b"{\"model\":\"j\"}");
    assert_eq!((r.model.as_str(), r.stream), ("j", false));
    let r = transcription_request("application/json", b"junk");
    assert_eq!((r.model.as_str(), r.stream), ("stub-audio", false));
    assert_eq!(scan_field(form, "nope"), None);
    assert_eq!(
        parse(&transcript_json("m"))["text"],
        "stub transcript: the quick brown fox"
    );
    let events = transcript_sse("m", 1);
    assert_eq!(events.len(), 3);
    assert_eq!(parse(&events[0].data)["delta"], "chunk-0 ");
    assert_eq!(parse(&events[1].data)["type"], "transcript.text.done");
    assert_eq!(parse(&voices_reply(None))["model"], "stub-audio");
    assert_eq!(parse(&voices_reply(Some("v")))["voices"][1]["voice_id"], "cosette");
}
