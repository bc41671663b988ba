use whisper_proxy::answer::Cue;
use whisper_proxy::desk::Desk;
use whisper_proxy::frame::{Frame, FRAME_AUDIO, FRAME_CONVERT, FRAME_CONVERT_END, FRAME_LOAD_MODEL};
use whisper_proxy::ipc::{Action, Event, Job, Session};

fn job(language: &str) -> Job {
    Job { ts_ms: 0, flag: 0, status: 1, language: language.to_string(), audio: vec![] }
}

fn cues(texts: &[&str]) -> Option<Vec<Cue>> {
    Some(texts.iter().map(|t| Cue { start_ms: 0, end_ms: 1, text: t.to_string() }).collect())
}

fn convert(language: &str) -> Event {
    let mut body = language.as_bytes().to_vec();
    body.resize(44, 0);
    Event::Received(Frame { code: FRAME_CONVERT, body })
}

#[test]
fn jobs_are_taken_in_the_order_in_which_they_came() {
    let mut desk = Desk::new();
    assert!(desk.take().is_none());
    desk.receive(job("a"));
    desk.receive(job("b"));
    assert_eq!(desk.take().unwrap().language, "a");
    desk.receive(job("c"));
    assert_eq!(desk.take().unwrap().language, "b");
    assert_eq!(desk.take().unwrap().language, "c");
    assert!(desk.take().is_none());
}

#[test]
fn answers_go_out_in_the_order_in_which_they_were_laid_down() {
    let mut desk = Desk::new();
    assert!(desk.collect().is_none());
    desk.finish(&job("a"), 1, cues(&["x", "y"]), 1);
    desk.finish(&job("b"), 1, None, 1);
    assert_eq!(desk.collect().unwrap().len(), 5);
    let second = desk.collect().unwrap();
    assert_eq!(second.len(), 1);
    assert_eq!(second[0].body, b"b/b\0");
    assert!(desk.collect().is_none());
}

#[test]
fn a_stale_or_failed_job_is_answered_by_its_end() {
    let mut desk = Desk::new();
    desk.finish(&job("a"), 2, cues(&["x"]), 2);
    desk.finish(&job("a"), 1, cues(&["x"]), 2);
    desk.finish(&job("a"), 1, None, 1);
    for _ in 0..3 {
        let frames = desk.collect().unwrap();
        assert_eq!(frames.len(), 1);
        assert_eq!(frames[0].code, FRAME_CONVERT_END);
        assert_eq!(frames[0].body, b"a/a\0");
    }
}

#[test]
fn one_worker_answers_every_request_once_and_in_order() {
    let (s, _) = Session::new().step(Event::Received(Frame { code: FRAME_LOAD_MODEL, body: vec![] }));
    let (mut session, _) = s.step(Event::Sent);
    let mut desk = Desk::new();
    let mut written: Vec<Vec<Frame>> = Vec::new();
    let languages = ["ko", "en", "ja", "fr"];
    for (i, language) in languages.iter().enumerate() {
        let (s, _) = session.step(convert(language));
        let (s, action) = s.step(Event::Received(Frame { code: FRAME_AUDIO, body: vec![i as u8] }));
        session = s;
        match action {
            Action::Queue(job) => desk.receive(job),
            _ => unreachable!(),
        }
        // The worker keeps up with every second request only.
        if i % 2 == 1 {
            let job = desk.take().unwrap();
            desk.finish(&job, 0, cues(&["x"]), 0);
            written.extend(desk.collect());
        }
    }
    while let Some(job) = desk.take() {
        desk.finish(&job, 0, None, 0);
    }
    while let Some(frames) = desk.collect() {
        written.push(frames);
    }
    assert_eq!(written.len(), 4);
    for (i, frames) in written.iter().enumerate() {
        let last = frames.last().unwrap();
        assert_eq!(last.code, FRAME_CONVERT_END);
        assert_eq!(last.body, format!("{0}/{0}\0", languages[i]).as_bytes());
        assert_eq!(frames.iter().filter(|f| f.code == FRAME_CONVERT_END).count(), 1);
    }
}
