use whisper_proxy::args::Args;
use whisper_proxy::batch::{file_request, final_code, finish_file, guess_mime, prepare_file, read_file_reply};
use whisper_proxy::config::Config;
use whisper_proxy::multipart::build_multipart;
use whisper_proxy::whisper_client::HttpReply;

fn args() -> Args {
    Args { language: Some("ko".to_string()), prompt: Some("p".to_string()), ..Args::default() }
}

#[test]
fn media_types() {
    assert_eq!(guess_mime("a.wav"), "audio/wav");
    assert_eq!(guess_mime("A.MP3"), "audio/mpeg");
    assert_eq!(guess_mime("x.ogg"), "audio/ogg");
    assert_eq!(guess_mime("dir/x.Flac"), "audio/flac");
    assert_eq!(guess_mime("x.m4a"), "audio/mp4");
    assert_eq!(guess_mime("x.wav.txt"), "application/octet-stream");
    assert_eq!(guess_mime(""), "application/octet-stream");
}

#[test]
fn a_file_is_sent_under_its_name() {
    let a = args();
    let r = file_request("d/x.MP3", Some("x.MP3"), &[1], &a);
    assert_eq!(r.file_name, "x.MP3");
    assert_eq!(r.mime, "audio/mpeg");
    assert_eq!(r.language, Some("ko"));
    assert_eq!(r.prompt, Some("p"));
    assert!(!r.translate);
    assert_eq!(file_request("..", None, &[], &a).file_name, "audio.wav");
}

#[test]
fn a_file_that_was_read_is_sent() {
    let cfg = Config::default();
    let call = match prepare_file("x.wav", Some("x.wav"), Ok(vec![1, 2]), &args(), &cfg, "B") {
        Ok(call) => call,
        Err(_) => unreachable!(),
    };
    let fields = [
        ("model", "Systran/faster-whisper-large-v3"),
        ("response_format", "verbose_json"),
        ("language", "ko"),
        ("prompt", "p"),
    ];
    assert_eq!(call.body, build_multipart("B", &fields, "x.wav", &[1, 2], "audio/wav"));
    assert_eq!(call.timeout, 120);
}

#[test]
fn a_file_that_cannot_be_read_ends_with_one() {
    let failure = prepare_file("x.wav", None, Err("gone".to_string()), &args(), &Config::default(), "B").err().unwrap();
    assert_eq!(failure.code, 1);
    assert_eq!(failure.message, "whisper-proxy: cannot read x.wav: gone");
}

#[test]
fn a_reply_is_a_transcript() {
    let body = "{\"text\":\"t\",\"language\":\"en\",\"segments\":[{\"start\":1,\"end\":2,\"text\":\"s\"}]}";
    let t = read_file_reply(HttpReply::Body(body.to_string()), &args()).ok().unwrap();
    assert_eq!(t.full_text, "t");
    assert_eq!(t.language, "en");
    assert_eq!(t.segments.len(), 1);
    assert_eq!(f64::from_bits(t.segments[0].start.bits), 1.0);
}

#[test]
fn the_language_is_the_replys_or_the_asked_one() {
    let reply = || HttpReply::Body("{}".to_string());
    assert_eq!(read_file_reply(reply(), &args()).ok().unwrap().language, "ko");
    assert_eq!(read_file_reply(reply(), &Args::default()).ok().unwrap().language, "auto");
}

#[test]
fn a_failed_exchange_ends_with_its_code() {
    let status = read_file_reply(HttpReply::Status(500, "x".to_string()), &args()).err().unwrap();
    assert_eq!((status.code, status.message.as_str()), (2, "whisper-proxy: HTTP 500: x"));
    let failed = read_file_reply(HttpReply::Failed("x".to_string()), &args()).err().unwrap();
    assert_eq!((failed.code, failed.message.as_str()), (3, "whisper-proxy: request failed: x"));
    let unread = read_file_reply(HttpReply::Unreadable("x".to_string()), &args()).err().unwrap();
    assert_eq!((unread.code, unread.message.as_str()), (4, "whisper-proxy: read body: x"));
    let garbled = read_file_reply(HttpReply::Body("x".to_string()), &args()).err().unwrap();
    assert_eq!(garbled.code, 4);
    assert!(garbled.message.starts_with("whisper-proxy: non-JSON response: "));
    assert!(garbled.message.ends_with(" -- x"));
}

#[test]
fn outputs_that_cannot_be_written_end_with_five() {
    assert!(finish_file(None).is_ok());
    let failure = finish_file(Some("disk full".to_string())).err().unwrap();
    assert_eq!(failure.code, 5);
    assert_eq!(failure.message, "whisper-proxy: write output: disk full");
}

#[test]
fn a_run_ends_with_the_code_of_the_last_failure() {
    assert_eq!(final_code(&[]), 0);
    assert_eq!(final_code(&[0, 0]), 0);
    assert_eq!(final_code(&[2, 0]), 2);
    assert_eq!(final_code(&[2, 1, 0]), 1);
}
