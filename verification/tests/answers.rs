use whisper_proxy::answer::{
    answer, chunk_call, chunk_request, is_stale, keep_cues, start_chunk, transcribe_chunk, worker_count, Cue,
};
use whisper_proxy::config::Config;
use whisper_proxy::frame::{FRAME_CONVERT_END, FRAME_SEGMENT_TEXT, FRAME_SEGMENT_TIMING};
use whisper_proxy::ipc::Job;
use whisper_proxy::multipart::build_multipart;
use whisper_proxy::wav::make_wav_f32_mono_16k;
use whisper_proxy::whisper_client::{Seconds, Segment, TranscribeResult};

fn job() -> Job {
    Job { ts_ms: 5000, flag: 2, status: 3, language: "ko".to_string(), audio: vec![] }
}

fn cue(start_ms: u64, end_ms: u64, text: &str) -> Cue {
    Cue { start_ms, end_ms, text: text.to_string() }
}

fn segment(seconds: f64, text: &str) -> Segment {
    Segment {
        start: Seconds { bits: seconds.to_bits() },
        end: Seconds { bits: (seconds + 1.0).to_bits() },
        text: text.to_string(),
    }
}

#[test]
fn an_answer_is_timing_and_text_of_each_cue_and_the_end() {
    let frames = answer(&job(), &[cue(0, 1500, "안녕"), cue(1500, 2000, "hi")]);
    assert_eq!(frames.len(), 5);
    let codes: Vec<u32> = frames.iter().map(|f| f.code).collect();
    assert_eq!(
        codes,
        [FRAME_SEGMENT_TIMING, FRAME_SEGMENT_TEXT, FRAME_SEGMENT_TIMING, FRAME_SEGMENT_TEXT, FRAME_CONVERT_END]
    );
    let mut timing = Vec::new();
    timing.extend_from_slice(&3u32.to_le_bytes());
    timing.extend_from_slice(&2u32.to_le_bytes());
    timing.extend_from_slice(&5000u64.to_le_bytes());
    timing.extend_from_slice(&6500u64.to_le_bytes());
    assert_eq!(frames[0].body, timing);
    assert_eq!(frames[1].body, "안녕\0".as_bytes());
    assert_eq!(frames[3].body, b"hi\0");
    assert_eq!(frames[4].body, b"ko/ko\0");
}

#[test]
fn a_timing_frame_is_read_back() {
    let body = &answer(&job(), &[cue(250, 1750, "x")])[0].body;
    let number = |a: usize, b: usize| body[a..b].iter().rev().fold(0u64, |n, d| n * 256 + *d as u64);
    assert_eq!(body.len(), 24);
    assert_eq!((number(0, 4), number(4, 8)), (3, 2));
    assert_eq!((number(8, 16), number(16, 24)), (5250, 6750));
}

#[test]
fn an_answer_without_cues_is_its_end() {
    let frames = answer(&job(), &[]);
    assert_eq!(frames.len(), 1);
    assert_eq!(frames[0].code, FRAME_CONVERT_END);
    assert_eq!(frames[0].body, b"ko/ko\0");
}

#[test]
fn a_time_beyond_64_bits_starts_over() {
    let frames = answer(&job(), &[cue(u64::MAX, 0, "x")]);
    assert_eq!(&frames[0].body[8..16], &4999u64.to_le_bytes());
}

#[test]
fn a_request_is_stale_once_the_epoch_has_passed_it() {
    assert!(is_stale(2, 3));
    assert!(!is_stale(3, 3));
    assert!(!is_stale(4, 3));
}

#[test]
fn cues_of_a_stale_request_are_dropped() {
    assert_eq!(keep_cues(3, 3, Some(vec![cue(0, 1, "a")]), 3).len(), 1);
    assert_eq!(keep_cues(3, 4, Some(vec![cue(0, 1, "a")]), 4).len(), 0);
    assert_eq!(keep_cues(3, 3, Some(vec![cue(0, 1, "a")]), 4).len(), 0);
    assert_eq!(keep_cues(3, 3, None, 3).len(), 0);
}

#[test]
fn the_number_of_workers_is_at_least_one() {
    assert_eq!(worker_count(None), 1);
    assert_eq!(worker_count(Some("4")), 4);
    assert_eq!(worker_count(Some("0")), 1);
    assert_eq!(worker_count(Some("many")), 1);
    assert_eq!(worker_count(Some("")), 1);
}

#[test]
fn a_chunk_is_sent_as_wav_with_its_language() {
    let r = chunk_request(&[1, 2], "ko");
    assert_eq!(r.file_name, "chunk.wav");
    assert_eq!(r.file_bytes, &[1, 2]);
    assert_eq!(r.mime, "audio/wav");
    assert_eq!(r.language, Some("ko"));
    assert_eq!(r.prompt, None);
    assert!(!r.translate);
    assert_eq!(chunk_request(&[], "").language, None);
}

#[test]
fn a_job_is_sent_as_its_sound_in_its_language() {
    let job = Job { audio: vec![9, 8, 7, 6], ..job() };
    let call = chunk_call(&Config::default(), &job, "B");
    let fields = [
        ("model", "Systran/faster-whisper-large-v3"),
        ("response_format", "verbose_json"),
        ("language", "ko"),
    ];
    let wav = make_wav_f32_mono_16k(&[9, 8, 7, 6]);
    assert_eq!(call.body, build_multipart("B", &fields, "chunk.wav", &wav, "audio/wav"));
    assert_eq!(call.endpoint, "http://localhost:8000/v1/audio/transcriptions");
    assert_eq!(call.content_type, "multipart/form-data; boundary=B");
}

#[test]
fn a_stale_chunk_is_not_sent() {
    let cfg = Config::default();
    assert!(start_chunk(&cfg, &job(), 4, "B").is_none());
    let call = start_chunk(&cfg, &job(), 3, "B").unwrap();
    assert_eq!(call.body, chunk_call(&cfg, &job(), "B").body);
    assert!(start_chunk(&cfg, &job(), 0, "B").is_some());
}

#[test]
fn segments_without_words_are_dropped_and_the_others_stripped() {
    let result = TranscribeResult {
        segments: vec![segment(0.0, "  hello "), segment(1.0, " \n"), segment(2.5, "world")],
        full_text: "hello world".to_string(),
        language: None,
    };
    let kept = transcribe_chunk(Ok(result)).unwrap();
    assert_eq!(kept.len(), 2);
    assert_eq!(kept[0].text, "hello");
    assert_eq!(kept[1].text, "world");
    assert_eq!(f64::from_bits(kept[1].start.bits), 2.5);
    assert_eq!(f64::from_bits(kept[1].end.bits), 3.5);
}

#[test]
fn the_whole_text_stands_in_for_missing_segments() {
    let result = TranscribeResult {
        segments: vec![segment(4.0, " ")],
        full_text: " all of it ".to_string(),
        language: None,
    };
    let kept = transcribe_chunk(Ok(result)).unwrap();
    assert_eq!(kept.len(), 1);
    assert_eq!(kept[0].text, "all of it");
    assert_eq!(kept[0].start.bits, 0);
    assert_eq!(kept[0].end.bits, 0);
    let nothing = TranscribeResult { segments: vec![], full_text: "  ".to_string(), language: None };
    assert!(transcribe_chunk(Ok(nothing)).unwrap().is_empty());
}

#[test]
fn an_error_is_passed_on() {
    assert_eq!(transcribe_chunk(Err("HTTP 500: x".to_string())).unwrap_err(), "HTTP 500: x");
}
