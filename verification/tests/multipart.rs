//! Multipart bodies.

use llm_orch::multipart::{extract_multipart_field, multipart_boundary, rewrite_multipart_field};

const MULTIPART: &str = "--bX\r\n\
Content-Disposition: form-data; name=\"model\"\r\n\r\n\
qwen3-asr\r\n\
--bX\r\n\
Content-Disposition: form-data; name=\"file\"; filename=\"a.wav\"\r\n\
Content-Type: audio/wav\r\n\r\n\
RIFF\x24\x00\x00\x00WAVE-binary-junk\r\n\
--bX\r\n\
Content-Disposition: form-data; name=\"stream\"\r\n\r\n\
true\r\n\
--bX--\r\n";

#[test]
fn multipart_boundary_parsed_from_content_type() {
    assert_eq!(
        multipart_boundary("multipart/form-data; boundary=bX"),
        Some("bX".into())
    );
    assert_eq!(
        multipart_boundary("multipart/form-data; charset=utf-8; boundary=\"abc-123\""),
        Some("abc-123".into())
    );
    assert_eq!(multipart_boundary("application/json"), None);
    assert_eq!(multipart_boundary("multipart/form-data; boundary="), None);
}

#[test]
fn extract_multipart_field_finds_text_fields() {
    assert_eq!(
        extract_multipart_field(MULTIPART.as_bytes(), "bX", "model"),
        Some("qwen3-asr".into())
    );
    assert_eq!(
        extract_multipart_field(MULTIPART.as_bytes(), "bX", "stream"),
        Some("true".into())
    );
    assert_eq!(
        extract_multipart_field(MULTIPART.as_bytes(), "bX", "nope"),
        None
    );
}

#[test]
fn rewrite_multipart_field_replaces_value_keeps_rest() {
    let out = rewrite_multipart_field(MULTIPART.as_bytes(), "bX", "model", "resolved-id");
    let out = String::from_utf8(out).unwrap();
    assert!(
        out.contains("name=\"model\"\r\n\r\nresolved-id\r\n"),
        "{out}"
    );
    assert!(!out.contains("qwen3-asr"), "old value must be gone: {out}");
    // Other parts are byte-identical.
    assert!(out.contains("RIFF\x24\x00\x00\x00WAVE-binary-junk"));
    assert!(out.contains("name=\"stream\"\r\n\r\ntrue\r\n"));
    assert!(out.ends_with("--bX--\r\n"));
}

#[test]
fn rewrite_multipart_field_noop_when_field_absent() {
    let body = "--b\r\nContent-Disposition: form-data; name=\"x\"\r\n\r\n1\r\n--b--\r\n";
    let out = rewrite_multipart_field(body.as_bytes(), "b", "model", "v");
    assert_eq!(out, body.as_bytes());
}

#[test]
fn a_rewritten_field_reads_back() {
    let out = rewrite_multipart_field(MULTIPART.as_bytes(), "bX", "model", "naïve-β");
    assert_eq!(
        extract_multipart_field(&out, "bX", "model").as_deref(),
        Some("naïve-β")
    );
    assert_eq!(
        extract_multipart_field(&out, "bX", "stream").as_deref(),
        Some("true")
    );
}

#[test]
fn bytes_that_are_no_text_are_replaced() {
    let mut body = b"--b\r\nContent-Disposition: form-data; name=\"model\"\r\n\r\n".to_vec();
    body.extend_from_slice(&[b'a', 0xff, b'z']);
    body.extend_from_slice(b"\r\n--b--\r\n");
    assert_eq!(
        extract_multipart_field(&body, "b", "model").as_deref(),
        Some("a\u{fffd}z")
    );
}

#[test]
fn a_file_name_is_no_field_name() {
    let body = "--b\r\nContent-Disposition: form-data; name=\"file\"; filename=\"model\"\r\n\r\nRIFF\r\n--b--\r\n";
    assert_eq!(extract_multipart_field(body.as_bytes(), "b", "model"), None);
    assert_eq!(
        extract_multipart_field(body.as_bytes(), "b", "file").as_deref(),
        Some("RIFF")
    );
    let out = rewrite_multipart_field(body.as_bytes(), "b", "model", "v");
    assert_eq!(out, body.as_bytes());
}

#[test]
fn a_field_name_stands_after_a_blank_or_a_semicolon() {
    for sep in [";", "; ", ";\t", ";\r\n "] {
        let body = format!(
            "--b\r\nContent-Disposition: form-data{sep}name=\"model\"\r\n\r\nx\r\n--b--\r\n"
        );
        assert_eq!(
            extract_multipart_field(body.as_bytes(), "b", "model").as_deref(),
            Some("x")
        );
        assert_eq!(
            rewrite_multipart_field(body.as_bytes(), "b", "model", "yz"),
            body.replace("\r\nx\r\n", "\r\nyz\r\n").as_bytes()
        );
    }
}

#[test]
fn a_file_named_like_the_field_keeps_its_bytes() {
    let body = "--b\r\nContent-Disposition: form-data; name=\"file\"; filename=\"model\"\r\n\r\nRIFF\r\n\
--b\r\nContent-Disposition: form-data; name=\"model\"\r\n\r\nold\r\n--b--\r\n";
    assert_eq!(
        extract_multipart_field(body.as_bytes(), "b", "model").as_deref(),
        Some("old")
    );
    let out = rewrite_multipart_field(body.as_bytes(), "b", "model", "new");
    assert_eq!(out, body.replace("old", "new").as_bytes());
}

#[test]
fn writing_back_what_was_read_changes_nothing() {
    for field in ["model", "stream"] {
        let value = extract_multipart_field(MULTIPART.as_bytes(), "bX", field).unwrap();
        let out = rewrite_multipart_field(MULTIPART.as_bytes(), "bX", field, &value);
        assert_eq!(out, MULTIPART.as_bytes());
    }
}

#[test]
fn the_second_write_wins() {
    let once = rewrite_multipart_field(MULTIPART.as_bytes(), "bX", "model", "first");
    let twice = rewrite_multipart_field(&once, "bX", "model", "second");
    assert_eq!(
        twice,
        rewrite_multipart_field(MULTIPART.as_bytes(), "bX", "model", "second")
    );
}

#[test]
fn a_write_leaves_other_fields_as_they_were() {
    let out = rewrite_multipart_field(MULTIPART.as_bytes(), "bX", "model", "v");
    for other in ["file", "stream", "nope"] {
        assert_eq!(
            extract_multipart_field(&out, "bX", other),
            extract_multipart_field(MULTIPART.as_bytes(), "bX", other)
        );
    }
}
