use whisper_proxy::batch::multipart;
use whisper_proxy::config::Config;
use whisper_proxy::multipart::{build_multipart, make_boundary};
use whisper_proxy::whisper_client::{
    endpoint, join_texts, joined, prepare, read_reply, read_result, transcribe, whole_segment, HttpReply, Seconds,
    Segment, TranscribeError, TranscribeRequest, TranscribeResult,
};

fn request<'a>() -> TranscribeRequest<'a> {
    TranscribeRequest {
        file_name: "chunk.wav",
        file_bytes: b"RIFF",
        mime: "audio/wav",
        language: Some("ko"),
        prompt: None,
        translate: false,
    }
}

fn ok(body: &str) -> TranscribeResult {
    match transcribe(HttpReply::Body(body.to_string())) {
        Ok(r) => r,
        Err(e) => panic!("{e}"),
    }
}

#[test]
fn a_multipart_body_is_laid_out_as_forms_are() {
    let body = build_multipart("B", &[("model", "m"), ("prompt", "한")], "a.wav", b"\x00\x01", "audio/wav");
    let mut expected: Vec<u8> = Vec::new();
    expected.extend_from_slice(b"--B\r\nContent-Disposition: form-data; name=\"model\"\r\n\r\nm\r\n");
    expected.extend_from_slice("--B\r\nContent-Disposition: form-data; name=\"prompt\"\r\n\r\n한\r\n".as_bytes());
    expected.extend_from_slice(b"--B\r\nContent-Disposition: form-data; name=\"file\"; filename=\"a.wav\"\r\n");
    expected.extend_from_slice(b"Content-Type: audio/wav\r\n\r\n\x00\x01\r\n--B--\r\n");
    assert_eq!(body, expected);
    assert_eq!(multipart("B", &[("model", "m"), ("prompt", "한")], "a.wav", b"\x00\x01", "audio/wav"), expected);
}

#[test]
fn a_body_without_fields_holds_the_file_alone() {
    let body = build_multipart("X", &[], "f", b"", "t");
    assert_eq!(
        body,
        b"--X\r\nContent-Disposition: form-data; name=\"file\"; filename=\"f\"\r\nContent-Type: t\r\n\r\n\r\n--X--\r\n"
    );
}

#[test]
fn a_body_splits_at_its_fields() {
    let whole = build_multipart("B", &[("a", "1"), ("b", "2")], "f", b"x", "t");
    let rest = build_multipart("B", &[("b", "2")], "f", b"x", "t");
    let first = b"--B\r\nContent-Disposition: form-data; name=\"a\"\r\n\r\n1\r\n";
    assert_eq!(whole, [first.to_vec(), rest].concat());
}

#[test]
fn a_boundary_names_the_time_and_the_process() {
    let b = make_boundary(0x1234, 0xab);
    assert_eq!(b, format!("----whisperproxy{:032x}{:08x}", 0x1234, 0xab));
    assert_eq!(b.len(), 56);
    assert_eq!(make_boundary(u128::MAX, u32::MAX).len(), 56);
}

#[test]
fn boundaries_of_other_times_and_processes_differ() {
    assert_ne!(make_boundary(1, 2), make_boundary(2, 2));
    assert_ne!(make_boundary(1, 2), make_boundary(1, 3));
}

#[test]
fn the_endpoint_follows_the_servers_address() {
    assert_eq!(endpoint("http://h/v1", false), "http://h/v1/audio/transcriptions");
    assert_eq!(endpoint("http://h/v1//", true), "http://h/v1/audio/translations");
    assert_eq!(endpoint("", false), "/audio/transcriptions");
}

#[test]
fn a_request_carries_model_format_and_language() {
    let cfg = Config { url: "http://h/v1/".to_string(), api_key: "k".to_string(), model: "m".to_string(), timeout: 9 };
    let call = prepare(&cfg, &request(), "B");
    assert_eq!(call.endpoint, "http://h/v1/audio/transcriptions");
    assert_eq!(call.content_type, "multipart/form-data; boundary=B");
    assert_eq!(call.authorization, Some("Bearer k".to_string()));
    assert_eq!(call.timeout, 9);
    assert_eq!(
        call.body,
        build_multipart(
            "B",
            &[("model", "m"), ("response_format", "verbose_json"), ("language", "ko")],
            "chunk.wav",
            b"RIFF",
            "audio/wav"
        )
    );
}

#[test]
fn without_a_key_no_authorization_is_sent() {
    let call = prepare(&Config::default(), &request(), "B");
    assert_eq!(call.authorization, None);
}

#[test]
fn an_automatic_or_empty_language_is_not_sent() {
    let cfg = Config::default();
    let plain: [(&str, &str); 2] = [("model", "Systran/faster-whisper-large-v3"), ("response_format", "verbose_json")];
    for language in [None, Some("auto"), Some("")] {
        let call = prepare(&cfg, &TranscribeRequest { language, ..request() }, "B");
        assert_eq!(call.body, build_multipart("B", &plain, "chunk.wav", b"RIFF", "audio/wav"));
    }
}

#[test]
fn a_prompt_is_sent_last() {
    let call = prepare(
        &Config::default(),
        &TranscribeRequest { prompt: Some("p"), translate: true, ..request() },
        "B",
    );
    let fields = [
        ("model", "Systran/faster-whisper-large-v3"),
        ("response_format", "verbose_json"),
        ("language", "ko"),
        ("prompt", "p"),
    ];
    assert_eq!(call.body, build_multipart("B", &fields, "chunk.wav", b"RIFF", "audio/wav"));
    assert_eq!(call.endpoint, "http://localhost:8000/v1/audio/translations");
}

#[test]
fn a_reply_lists_its_segments() {
    let r = ok("{\"text\":\"a b\",\"language\":\"ko\",\"segments\":[{\"start\":0.5,\"end\":2,\"text\":\" a\"},{\"text\":7}]}");
    assert_eq!(r.full_text, "a b");
    assert_eq!(r.language, Some("ko".to_string()));
    assert_eq!(r.segments.len(), 2);
    assert_eq!(f64::from_bits(r.segments[0].start.bits), 0.5);
    assert_eq!(f64::from_bits(r.segments[0].end.bits), 2.0);
    assert_eq!(r.segments[0].text, " a");
    assert_eq!(r.segments[1].text, "");
    assert_eq!(r.segments[1].start, Seconds { bits: 0 });
}

#[test]
fn a_reply_without_segments_is_one_segment() {
    let r = ok("{\"text\":\"all\",\"segments\":[]}");
    assert_eq!(r.segments.len(), 1);
    assert_eq!(r.segments[0].text, "all");
    assert_eq!(r.segments[0].end, Seconds { bits: 0 });
    assert_eq!(r.language, None);
    assert!(ok("{\"text\":\"\"}").segments.is_empty());
    assert!(ok("{\"segments\":3}").segments.is_empty());
    assert!(ok("[]").segments.is_empty());
    assert_eq!(ok("{}").full_text, "");
}

#[test]
fn a_reply_without_text_joins_its_segments() {
    let r = ok("{\"segments\":[{\"text\":\"a\"},{\"text\":\"b\"},{\"text\":\"c\"}]}");
    assert_eq!(r.full_text, "a b c");
    assert_eq!(ok("{\"segments\":[{\"text\":\"a\"}]}").full_text, "a");
}

#[test]
fn a_value_is_read_as_its_text_is() {
    let v: serde_json::Value = serde_json::from_str("{\"text\":\"x\",\"language\":\"en\"}").unwrap();
    let r = read_result(&v);
    assert_eq!(r.full_text, "x");
    assert_eq!(r.language, Some("en".to_string()));
}

#[test]
fn every_error_has_its_words_and_its_code() {
    let status = read_reply(HttpReply::Status(503, "busy".to_string())).err().unwrap();
    assert_eq!(status.message(), "HTTP 503: busy");
    assert_eq!(status.exit_code(), 2);
    let failed = read_reply(HttpReply::Failed("refused".to_string())).err().unwrap();
    assert_eq!(failed.message(), "request failed: refused");
    assert_eq!(failed.exit_code(), 3);
    let unreadable = read_reply(HttpReply::Unreadable("eof".to_string())).err().unwrap();
    assert_eq!(unreadable.message(), "read body: eof");
    assert_eq!(unreadable.exit_code(), 4);
    let text = format!("<html>{}", "x".repeat(300));
    let not_json = read_reply(HttpReply::Body(text.clone())).err().unwrap();
    assert_eq!(not_json.exit_code(), 4);
    let reason = serde_json::from_str::<serde_json::Value>(&text).unwrap_err().to_string();
    assert_eq!(not_json.message(), format!("non-JSON response: {reason} -- {}", &text[..200]));
    assert!(matches!(not_json, TranscribeError::NotJson(_, _)));
}

#[test]
fn errors_are_told_in_words() {
    assert_eq!(transcribe(HttpReply::Status(401, String::new())).err().unwrap(), "HTTP 401: ");
}

#[test]
fn helpers_join_and_wrap() {
    assert_eq!(joined("a", "b"), "ab");
    let s = |t: &str| Segment { start: Seconds { bits: 0 }, end: Seconds { bits: 0 }, text: t.to_string() };
    assert_eq!(join_texts(&[s("x"), s(""), s("y")]), "x  y");
    assert_eq!(join_texts(&[]), "");
    assert_eq!(whole_segment("w").len(), 1);
    assert!(whole_segment("").is_empty());
}
