use whisper_proxy::answer::is_stale;
use whisper_proxy::frame::{Frame, FRAME_AUDIO, FRAME_CONVERT, FRAME_LOAD_MODEL};
use whisper_proxy::ipc::{build_init_response, Action, Event, Job, Phase, Session};

fn convert(language: &[u8], a: u32, b: u32, c: u32) -> Event {
    let mut body = language.to_vec();
    body.resize(32, 0);
    body.extend_from_slice(&a.to_le_bytes());
    body.extend_from_slice(&b.to_le_bytes());
    body.extend_from_slice(&c.to_le_bytes());
    Event::Received(Frame { code: FRAME_CONVERT, body })
}

fn audio(samples: &[u8]) -> Event {
    Event::Received(Frame { code: FRAME_AUDIO, body: samples.to_vec() })
}

fn serving() -> Session {
    let (s, _) = Session::new().step(Event::Received(Frame { code: FRAME_LOAD_MODEL, body: vec![0; 524] }));
    let (s, _) = s.step(Event::Sent);
    s
}

fn chunk(s: Session, ts: u32) -> (Session, Job) {
    let (s, action) = s.step(convert(b"ko", 0, ts, 0));
    assert!(matches!(action, Action::ReadAudio));
    match s.step(audio(&[1, 2, 3, 4])) {
        (s, Action::Queue(job)) => (s, job),
        _ => unreachable!(),
    }
}

fn exit_code(result: (Session, Action)) -> i32 {
    assert!(matches!(result.0.phase, Phase::Ended));
    match result.1 {
        Action::Exit(code) => code,
        _ => unreachable!(),
    }
}

#[test]
fn load_model_is_answered_with_the_log() {
    let (s, action) = Session::new().step(Event::Received(Frame { code: FRAME_LOAD_MODEL, body: vec![] }));
    match action {
        Action::Send(bytes) => assert_eq!(bytes, build_init_response()),
        _ => unreachable!(),
    }
    let (s, action) = s.step(Event::Sent);
    assert!(matches!(action, Action::Poll));
    assert!(matches!(s.phase, Phase::Serving));
}

#[test]
fn every_failed_start_has_its_exit_code() {
    assert_eq!(exit_code(Session::new().step(Event::LogUnavailable)), 40);
    assert_eq!(exit_code(Session::new().step(Event::PipeUnavailable)), 41);
    assert_eq!(exit_code(Session::new().step(Event::ReadFailed)), 42);
    assert_eq!(exit_code(Session::new().step(convert(b"ko", 0, 0, 0))), 43);
    let (s, _) = Session::new().step(Event::Received(Frame { code: FRAME_LOAD_MODEL, body: vec![] }));
    assert_eq!(exit_code(s.step(Event::SendFailed)), 44);
}

#[test]
fn a_request_and_its_audio_make_a_job() {
    let (s, action) = serving().step(convert(b"ko", 2, 5000, 0));
    assert!(matches!(action, Action::ReadAudio));
    match s.step(audio(&[7; 8])) {
        (s, Action::Queue(job)) => {
            assert_eq!(job.language, "ko");
            assert_eq!(job.flag, 2);
            assert_eq!(job.ts_ms, 5000);
            assert_eq!(job.status, 0);
            assert_eq!(job.audio, [7; 8]);
            assert_eq!(s.latest_ts, 5000);
        }
        _ => unreachable!(),
    }
}

#[test]
fn the_third_number_is_the_time_unless_it_is_zero() {
    let (s, _) = serving().step(convert(b"en", 0, 1000, 2000));
    match s.step(audio(&[])) {
        (_, Action::Queue(job)) => assert_eq!(job.ts_ms, 2000),
        _ => unreachable!(),
    }
}

#[test]
fn a_language_may_fill_its_field_or_be_malformed() {
    let (s, _) = serving().step(convert(&[b'x'; 32], 0, 1, 0));
    match s.step(audio(&[])) {
        (_, Action::Queue(job)) => assert_eq!(job.language, "x".repeat(32)),
        _ => unreachable!(),
    }
    let (s, _) = serving().step(convert(&[b'k', 0xff, b'o', 0, b'z'], 0, 1, 0));
    match s.step(audio(&[])) {
        (_, Action::Queue(job)) => assert_eq!(job.language, "k\u{fffd}o"),
        _ => unreachable!(),
    }
    let (s, _) = serving().step(convert("한".as_bytes(), 0, 1, 0));
    match s.step(audio(&[])) {
        (_, Action::Queue(job)) => assert_eq!(job.language, "한"),
        _ => unreachable!(),
    }
}

#[test]
fn a_short_request_is_passed_over() {
    let (s, action) = serving().step(Event::Received(Frame { code: FRAME_CONVERT, body: vec![0; 43] }));
    assert!(matches!(action, Action::Poll));
    assert!(matches!(s.phase, Phase::Serving));
}

#[test]
fn an_unknown_frame_is_passed_over() {
    let (s, action) = serving().step(audio(&[1]));
    assert!(matches!(action, Action::Poll));
    assert!(matches!(s.phase, Phase::Serving));
    let (s, _) = s.step(convert(b"ko", 0, 20_000, 0));
    let (s, action) = s.step(convert(b"ko", 0, 0, 0));
    assert!(matches!(action, Action::Poll));
    assert!(matches!(s.phase, Phase::Serving));
    assert_eq!(s.latest_ts, 0);
}

#[test]
fn chunks_in_a_row_share_an_epoch() {
    let (s, first) = chunk(serving(), 1000);
    let (s, second) = chunk(s, 11_000);
    let (s, third) = chunk(s, 1000);
    assert_eq!((first.status, second.status, third.status), (0, 0, 0));
    assert_eq!(s.seek_epoch, 0);
}

#[test]
fn a_jump_of_more_than_ten_seconds_is_a_seek() {
    let (s, first) = chunk(serving(), 1000);
    let (s, second) = chunk(s, 11_001);
    assert_eq!(second.status, 1);
    assert!(is_stale(first.status, s.seek_epoch));
    assert!(!is_stale(second.status, s.seek_epoch));
    let (s, third) = chunk(s, 1000);
    assert_eq!(third.status, 2);
    assert_eq!(s.seek_epoch, 2);
}

#[test]
fn the_first_chunk_is_no_seek() {
    let (s, job) = chunk(serving(), 3_600_000);
    assert_eq!(job.status, 0);
    assert_eq!(s.latest_ts, 3_600_000);
}

#[test]
fn a_seek_counts_even_if_its_audio_does_not_come() {
    let (s, _) = chunk(serving(), 1000);
    let (s, _) = s.step(convert(b"ko", 0, 60_000, 0));
    let (s, _) = s.step(convert(b"ko", 0, 60_000, 0));
    assert_eq!(s.seek_epoch, 1);
    assert_eq!(s.latest_ts, 1000);
    let (s, job) = chunk(s, 60_000);
    assert_eq!(job.status, 2);
    assert_eq!(s.seek_epoch, 2);
}

#[test]
fn the_epoch_starts_over_after_the_last() {
    let s = Session { phase: Phase::Serving, latest_ts: 1, seek_epoch: u32::MAX };
    let (_, job) = chunk(s, 50_000);
    assert_eq!(job.status, 0);
}

#[test]
fn a_broken_pipe_or_missing_workers_end_the_session() {
    assert_eq!(exit_code(serving().step(Event::ReadFailed)), 0);
    assert_eq!(exit_code(serving().step(Event::WorkersGone)), 0);
    let (s, _) = serving().step(convert(b"ko", 0, 1, 0));
    assert_eq!(exit_code(s.step(Event::ReadFailed)), 0);
}

#[test]
fn an_ended_session_does_nothing_more() {
    let (s, _) = serving().step(Event::ReadFailed);
    let (s, action) = s.step(convert(b"ko", 0, 1, 0));
    assert!(matches!(action, Action::Poll));
    assert!(matches!(s.phase, Phase::Ended));
}
