//! The engine's side of PotPlayer's `-IPC` protocol: the answer to LOAD_MODEL, the
//! handling of CONVERT requests, the seek epoch, and the answers to requests.
//!
//! The pipe, the worker threads and the clock belong to the caller. It reports what
//! happened as an `Event` and performs the `Action` that `Session::step` returns.
use crate::answer::stale;
use crate::bytes::{byte_position, find_byte, le_value, lossy_text, push_text, read_lossy, read_u32, utf8_length};
use crate::frame::{
    frames_of, push_frame, stream_bytes, stream_reads_back, Frame, FrameView, FRAME_AUDIO, FRAME_CONVERT,
    FRAME_LOAD_MODEL, FRAME_LOG, FRAME_READY,
};
use vstd::prelude::*;
use vstd::slice::slice_subrange;
use vstd::utf8::{decode_utf8, encode_utf8, valid_utf8};

verus! {

/// Two consecutive chunks further apart than this are a seek.
pub const SEEK_THRESHOLD_MS: i64 = 10_000;

/// The length of a CONVERT body: a language of 32 bytes and three numbers.
pub const CONVERT_LEN: usize = 44;

/// The log lines that whisper.cpp prints while it loads a model.
pub const INIT_LOG_LINES: [&'static str; 35] = [
    "whisper_init_from_file_with_params_no_state: loading model from '<remote API>'",
    "whisper_init_with_params_no_state: use gpu    = 1",
    "whisper_init_with_params_no_state: flash attn = 1",
    "whisper_init_with_params_no_state: gpu_device = 0",
    "whisper_init_with_params_no_state: dtw        = 0",
    "whisper_init_with_params_no_state: devices    = 2",
    "whisper_init_with_params_no_state: backends   = 2",
    "whisper_model_load: loading model",
    "whisper_model_load: n_vocab       = 51865",
    "whisper_model_load: n_audio_ctx   = 1500",
    "whisper_model_load: n_audio_state = 384",
    "whisper_model_load: n_audio_head  = 6",
    "whisper_model_load: n_audio_layer = 4",
    "whisper_model_load: n_text_ctx    = 448",
    "whisper_model_load: n_text_state  = 384",
    "whisper_model_load: n_text_head   = 6",
    "whisper_model_load: n_text_layer  = 4",
    "whisper_model_load: n_mels        = 80",
    "whisper_model_load: ftype         = 1",
    "whisper_model_load: qntvr         = 0",
    "whisper_model_load: type          = 1 (tiny)",
    "whisper_model_load: adding 1608 extra tokens",
    "whisper_model_load: n_langs       = 99",
    "whisper_model_load:      Vulkan0 total size =    77.11 MB",
    "whisper_model_load: model size    =   77.11 MB",
    "whisper_backend_init_gpu: device 0: Vulkan0 (type: 1)",
    "whisper_backend_init_gpu: found GPU device 0: Vulkan0 (type: 1, cnt: 0)",
    "whisper_backend_init_gpu: using Vulkan0 backend",
    "whisper_init_state: kv self size  =    3.15 MB",
    "whisper_init_state: kv cross size =    9.44 MB",
    "whisper_init_state: kv pad  size  =    2.36 MB",
    "whisper_init_state: compute buffer (conv)   =   14.17 MB",
    "whisper_init_state: compute buffer (encode) =   17.72 MB",
    "whisper_init_state: compute buffer (cross)  =   13.11 MB",
    "whisper_init_state: compute buffer (decode) =   96.83 MB",
];

/// A log line as a frame: the text, a line feed and a null byte.
pub open spec fn log_frame(line: Seq<char>) -> FrameView {
    FrameView { code: FRAME_LOG, body: encode_utf8(line) + seq![10u8, 0u8] }
}

/// The frames that answer LOAD_MODEL: the log lines in order, then READY.
pub open spec fn init_frames() -> Seq<FrameView> {
    Seq::new(INIT_LOG_LINES@.len(), |i: int| log_frame(INIT_LOG_LINES@[i]@)).push(
        FrameView { code: FRAME_READY, body: seq![0u8] },
    )
}

/// The answer to LOAD_MODEL.
pub fn build_init_response() -> (out: Vec<u8>)
    ensures
        out@ == stream_bytes(init_frames()),
{
    let mut out: Vec<u8> = Vec::new();
    for i in 0..INIT_LOG_LINES.len()
        invariant
            out@ == stream_bytes(init_frames().take(i as int)),
    {
        let line: &'static str = INIT_LOG_LINES[i];
        let mut body: Vec<u8> = Vec::new();
        push_text(&mut body, line);
        body.push(10);
        body.push(0);
        assert(body@ =~= log_frame(line@).body);
        push_frame(&mut out, FRAME_LOG, body.as_slice());
        assert(init_frames().take(i + 1).drop_last() =~= init_frames().take(i as int));
        assert(init_frames().take(i + 1).last() == log_frame(line@));
    }
    let ready: [u8; 1] = [0u8];
    assert(ready@ =~= seq![0u8]);
    push_frame(&mut out, FRAME_READY, &ready);
    assert(init_frames().drop_last() =~= init_frames().take(INIT_LOG_LINES@.len() as int));
    out
}

/// A CONVERT request whose audio is still to come.
pub struct Pending {
    pub language: String,
    pub flag: u32,
    pub ts_ms: u32,
    /// The seek epoch at which the request came.
    pub status: u32,
}

/// A chunk to transcribe.
pub struct Job {
    pub ts_ms: u32,
    pub flag: u32,
    /// The seek epoch at which the request came.
    pub status: u32,
    pub language: String,
    pub audio: Vec<u8>,
}

pub struct PendingView {
    pub language: Seq<char>,
    pub flag: u32,
    pub ts_ms: u32,
    pub status: u32,
}

pub struct JobView {
    pub ts_ms: u32,
    pub flag: u32,
    pub status: u32,
    pub language: Seq<char>,
    pub audio: Seq<u8>,
}

impl View for Pending {
    type V = PendingView;

    open spec fn view(&self) -> PendingView {
        PendingView {
            language: self.language@,
            flag: self.flag,
            ts_ms: self.ts_ms,
            status: self.status,
        }
    }
}

impl View for Job {
    type V = JobView;

    open spec fn view(&self) -> JobView {
        JobView {
            ts_ms: self.ts_ms,
            flag: self.flag,
            status: self.status,
            language: self.language@,
            audio: self.audio@,
        }
    }
}

/// What the session waits for.
pub enum Phase {
    AwaitModel,
    SendingInit,
    Serving,
    AwaitAudio(Pending),
    Ended,
}

pub enum PhaseView {
    AwaitModel,
    SendingInit,
    Serving,
    AwaitAudio(PendingView),
    Ended,
}

impl View for Phase {
    type V = PhaseView;

    open spec fn view(&self) -> PhaseView {
        match self {
            Phase::AwaitModel => PhaseView::AwaitModel,
            Phase::SendingInit => PhaseView::SendingInit,
            Phase::Serving => PhaseView::Serving,
            Phase::AwaitAudio(p) => PhaseView::AwaitAudio(p@),
            Phase::Ended => PhaseView::Ended,
        }
    }
}

/// What happened outside.
pub enum Event {
    /// The log file cannot be opened.
    LogUnavailable,
    /// The pipe cannot be opened.
    PipeUnavailable,
    /// A frame was read.
    Received(Frame),
    /// No frame could be read.
    ReadFailed,
    /// The bytes of the last `Send` went out.
    Sent,
    /// The bytes of the last `Send` did not go out.
    SendFailed,
    /// The job of the last `Queue` was handed to no worker: there is none any more.
    WorkersGone,
}

pub enum EventView {
    LogUnavailable,
    PipeUnavailable,
    Received(FrameView),
    ReadFailed,
    Sent,
    SendFailed,
    WorkersGone,
}

impl View for Event {
    type V = EventView;

    open spec fn view(&self) -> EventView {
        match self {
            Event::LogUnavailable => EventView::LogUnavailable,
            Event::PipeUnavailable => EventView::PipeUnavailable,
            Event::Received(f) => EventView::Received(f@),
            Event::ReadFailed => EventView::ReadFailed,
            Event::Sent => EventView::Sent,
            Event::SendFailed => EventView::SendFailed,
            Event::WorkersGone => EventView::WorkersGone,
        }
    }
}

/// What to do next.
pub enum Action {
    /// Write the bytes to the pipe.
    Send(Vec<u8>),
    /// Write finished answers, and read a frame once a header has come.
    Poll,
    /// Read the frame that must follow at once.
    ReadAudio,
    /// Hand the job to a worker, then go on as for `Poll`.
    Queue(Job),
    /// Leave with the exit code.
    Exit(i32),
}

pub enum ActionView {
    Send(Seq<u8>),
    Poll,
    ReadAudio,
    Queue(JobView),
    Exit(i32),
}

impl View for Action {
    type V = ActionView;

    open spec fn view(&self) -> ActionView {
        match self {
            Action::Send(b) => ActionView::Send(b@),
            Action::Poll => ActionView::Poll,
            Action::ReadAudio => ActionView::ReadAudio,
            Action::Queue(j) => ActionView::Queue(j@),
            Action::Exit(c) => ActionView::Exit(*c),
        }
    }
}

/// The exit codes of a session that could not start.
pub const EXIT_LOG: i32 = 40;

pub const EXIT_PIPE: i32 = 41;

pub const EXIT_NO_FIRST_FRAME: i32 = 42;

pub const EXIT_NO_MODEL: i32 = 43;

pub const EXIT_INIT_NOT_SENT: i32 = 44;

/// The four bytes at an offset, as a number.
pub open spec fn number_at(body: Seq<u8>, at: int) -> u32 {
    le_value(body.subrange(at, at + 4)) as u32
}

/// The bytes of the language that a CONVERT body names: the first 32, up to a null byte.
pub open spec fn convert_name(body: Seq<u8>) -> Seq<u8> {
    let field = body.take(32);
    field.take(byte_position(field, 0))
}

/// The language that a CONVERT body names.
pub open spec fn convert_language(body: Seq<u8>) -> Seq<char> {
    lossy_text(convert_name(body))
}

pub open spec fn convert_flag(body: Seq<u8>) -> u32 {
    number_at(body, 32)
}

/// The time of the chunk: the third number, or the second where the third is zero.
pub open spec fn convert_ts(body: Seq<u8>) -> u32 {
    if number_at(body, 40) != 0 {
        number_at(body, 40)
    } else {
        number_at(body, 36)
    }
}

/// Whether a chunk at `ts_ms` is a seek away from the last chunk taken at `latest_ts`.
/// Zero stands for no chunk yet.
pub open spec fn is_seek(latest_ts: u32, ts_ms: u32) -> bool {
    latest_ts != 0 && (ts_ms - latest_ts > SEEK_THRESHOLD_MS || latest_ts - ts_ms
        > SEEK_THRESHOLD_MS)
}

/// The epoch after a seek.
pub open spec fn epoch_after(epoch: u32) -> u32 {
    if epoch == u32::MAX {
        0
    } else {
        (epoch + 1) as u32
    }
}

/// A session: what it waits for, the time of the last chunk taken, the seek epoch.
pub struct Session {
    pub phase: Phase,
    pub latest_ts: u32,
    pub seek_epoch: u32,
}

pub struct SessionView {
    pub phase: PhaseView,
    pub latest_ts: u32,
    pub seek_epoch: u32,
}

impl View for Session {
    type V = SessionView;

    open spec fn view(&self) -> SessionView {
        SessionView {
            phase: self.phase@,
            latest_ts: self.latest_ts,
            seek_epoch: self.seek_epoch,
        }
    }
}

impl SessionView {
    pub open spec fn in_phase(self, phase: PhaseView) -> SessionView {
        SessionView { phase, ..self }
    }

    pub open spec fn exit(self, code: i32) -> (SessionView, ActionView) {
        (self.in_phase(PhaseView::Ended), ActionView::Exit(code))
    }

    /// Whether the frame is a CONVERT request of full length.
    pub open spec fn is_request(frame: FrameView) -> bool {
        frame.code == FRAME_CONVERT && frame.body.len() >= CONVERT_LEN
    }

    /// Whether the event is a CONVERT request that seeks.
    pub open spec fn seeks(self, event: EventView) -> bool {
        match (self.phase, event) {
            (PhaseView::Serving, EventView::Received(frame)) => Self::is_request(frame) && is_seek(
                self.latest_ts,
                convert_ts(frame.body),
            ),
            _ => false,
        }
    }

    /// The request that a CONVERT frame makes. It carries the epoch that holds after it.
    pub open spec fn requested(self, body: Seq<u8>) -> PendingView {
        PendingView {
            language: convert_language(body),
            flag: convert_flag(body),
            ts_ms: convert_ts(body),
            status: if is_seek(self.latest_ts, convert_ts(body)) {
                epoch_after(self.seek_epoch)
            } else {
                self.seek_epoch
            },
        }
    }

    /// The next state and what to do. An event that the phase does not await changes nothing.
    pub open spec fn next(self, event: EventView) -> (SessionView, ActionView) {
        match self.phase {
            PhaseView::AwaitModel => match event {
                EventView::LogUnavailable => self.exit(EXIT_LOG),
                EventView::PipeUnavailable => self.exit(EXIT_PIPE),
                EventView::ReadFailed => self.exit(EXIT_NO_FIRST_FRAME),
                EventView::Received(frame) => if frame.code == FRAME_LOAD_MODEL {
                    (
                        self.in_phase(PhaseView::SendingInit),
                        ActionView::Send(stream_bytes(init_frames())),
                    )
                } else {
                    self.exit(EXIT_NO_MODEL)
                },
                _ => (self, ActionView::Poll),
            },
            PhaseView::SendingInit => match event {
                EventView::Sent => (self.in_phase(PhaseView::Serving), ActionView::Poll),
                EventView::SendFailed => self.exit(EXIT_INIT_NOT_SENT),
                _ => (self, ActionView::Poll),
            },
            PhaseView::Serving => match event {
                EventView::Received(frame) => if Self::is_request(frame) {
                    let request = self.requested(frame.body);
                    (
                        SessionView {
                            phase: PhaseView::AwaitAudio(request),
                            seek_epoch: request.status,
                            ..self
                        },
                        ActionView::ReadAudio,
                    )
                } else {
                    (self, ActionView::Poll)
                },
                EventView::ReadFailed => self.exit(0),
                EventView::WorkersGone => self.exit(0),
                _ => (self, ActionView::Poll),
            },
            PhaseView::AwaitAudio(p) => match event {
                EventView::Received(frame) => if frame.code == FRAME_AUDIO {
                    (
                        SessionView {
                            phase: PhaseView::Serving,
                            latest_ts: p.ts_ms,
                            ..self
                        },
                        ActionView::Queue(
                            JobView {
                                ts_ms: p.ts_ms,
                                flag: p.flag,
                                status: p.status,
                                language: p.language,
                                audio: frame.body,
                            },
                        ),
                    )
                } else {
                    (self.in_phase(PhaseView::Serving), ActionView::Poll)
                },
                EventView::ReadFailed => self.exit(0),
                _ => (self, ActionView::Poll),
            },
            PhaseView::Ended => (self, ActionView::Poll),
        }
    }
}

/// Reads the request of a CONVERT body.
fn read_request(latest_ts: u32, seek_epoch: u32, body: &[u8]) -> (r: Pending)
    requires
        body@.len() >= CONVERT_LEN,
    ensures
        forall|phase: PhaseView|
            r@ == #[trigger] (SessionView { phase, latest_ts, seek_epoch }).requested(body@),
        valid_utf8(convert_name(body@)) ==> convert_language(body@) == decode_utf8(
            convert_name(body@),
        ),
{
    let field = slice_subrange(body, 0, 32);
    assert(field@ =~= body@.take(32));
    let name = slice_subrange(field, 0, find_byte(field, 0));
    assert(name@ =~= convert_name(body@));
    let language = read_lossy(name);
    let flag = read_u32(body, 32);
    let b = read_u32(body, 36);
    let c = read_u32(body, 40);
    let ts_ms = if c != 0 {
        c
    } else {
        b
    };
    let distance: i64 = if ts_ms as i64 >= latest_ts as i64 {
        ts_ms as i64 - latest_ts as i64
    } else {
        latest_ts as i64 - ts_ms as i64
    };
    let status = if latest_ts != 0 && distance > SEEK_THRESHOLD_MS {
        if seek_epoch == u32::MAX {
            0
        } else {
            seek_epoch + 1
        }
    } else {
        seek_epoch
    };
    Pending { language, flag, ts_ms, status }
}

impl Session {
    /// A session before its first frame.
    pub fn new() -> (s: Session)
        ensures
            s@ == (SessionView { phase: PhaseView::AwaitModel, latest_ts: 0, seek_epoch: 0 }),
    {
        Session { phase: Phase::AwaitModel, latest_ts: 0, seek_epoch: 0 }
    }

    fn leave(self, code: i32) -> (r: (Session, Action))
        ensures
            (r.0@, r.1@) == self@.exit(code),
    {
        (Session { phase: Phase::Ended, ..self }, Action::Exit(code))
    }

    /// Takes an event: the session that follows, and what to do. A language in
    /// well-formed UTF-8 is read as the characters that it encodes.
    pub fn step(self, event: Event) -> (r: (Session, Action))
        ensures
            (r.0@, r.1@) == self@.next(event@),
            match (self@.phase, event@) {
                (PhaseView::Serving, EventView::Received(frame)) => SessionView::is_request(frame)
                    && valid_utf8(convert_name(frame.body)) ==> convert_language(frame.body)
                    == decode_utf8(convert_name(frame.body)) && (
                r.0@.phase matches PhaseView::AwaitAudio(p) && p.language == decode_utf8(
                    convert_name(frame.body),
                )),
                _ => true,
            },
    {
        let Session { phase, latest_ts, seek_epoch } = self;
        match phase {
            Phase::AwaitModel => {
                let same = Session { phase: Phase::AwaitModel, latest_ts, seek_epoch };
                match event {
                    Event::LogUnavailable => same.leave(EXIT_LOG),
                    Event::PipeUnavailable => same.leave(EXIT_PIPE),
                    Event::ReadFailed => same.leave(EXIT_NO_FIRST_FRAME),
                    Event::Received(frame) => {
                        if frame.code == FRAME_LOAD_MODEL {
                            (
                                Session { phase: Phase::SendingInit, latest_ts, seek_epoch },
                                Action::Send(build_init_response()),
                            )
                        } else {
                            same.leave(EXIT_NO_MODEL)
                        }
                    },
                    _ => (same, Action::Poll),
                }
            },
            Phase::SendingInit => {
                let same = Session { phase: Phase::SendingInit, latest_ts, seek_epoch };
                match event {
                    Event::Sent => (
                        Session { phase: Phase::Serving, latest_ts, seek_epoch },
                        Action::Poll,
                    ),
                    Event::SendFailed => same.leave(EXIT_INIT_NOT_SENT),
                    _ => (same, Action::Poll),
                }
            },
            Phase::Serving => {
                let same = Session { phase: Phase::Serving, latest_ts, seek_epoch };
                match event {
                    Event::Received(frame) => {
                        if frame.code == FRAME_CONVERT && frame.body.len() >= CONVERT_LEN {
                            let request = read_request(
                                latest_ts,
                                seek_epoch,
                                frame.body.as_slice(),
                            );
                            assert(request@ == (SessionView {
                                phase: PhaseView::Serving,
                                latest_ts,
                                seek_epoch,
                            }).requested(frame.body@));
                            let epoch = request.status;
                            (
                                Session {
                                    phase: Phase::AwaitAudio(request),
                                    latest_ts,
                                    seek_epoch: epoch,
                                },
                                Action::ReadAudio,
                            )
                        } else {
                            (same, Action::Poll)
                        }
                    },
                    Event::ReadFailed => same.leave(0),
                    Event::WorkersGone => same.leave(0),
                    _ => (same, Action::Poll),
                }
            },
            Phase::AwaitAudio(p) => match event {
                Event::Received(frame) => {
                    if frame.code == FRAME_AUDIO {
                        let job = Job {
                            ts_ms: p.ts_ms,
                            flag: p.flag,
                            status: p.status,
                            language: p.language,
                            audio: frame.body,
                        };
                        (
                            Session { phase: Phase::Serving, latest_ts: job.ts_ms, seek_epoch },
                            Action::Queue(job),
                        )
                    } else {
                        (Session { phase: Phase::Serving, latest_ts, seek_epoch }, Action::Poll)
                    }
                },
                Event::ReadFailed => (
                    Session { phase: Phase::Ended, latest_ts, seek_epoch },
                    Action::Exit(0),
                ),
                _ => (
                    Session { phase: Phase::AwaitAudio(p), latest_ts, seek_epoch },
                    Action::Poll,
                ),
            },
            Phase::Ended => (Session { phase: Phase::Ended, latest_ts, seek_epoch }, Action::Poll),
        }
    }
}

/// What answers LOAD_MODEL is read as the log lines, each ended by a line feed and a
/// null byte, and then READY.
pub proof fn init_response_reads_back()
    ensures
        frames_of(stream_bytes(init_frames())) == Some(init_frames()),
        init_frames().len() == 36,
        init_frames().last() == (FrameView { code: FRAME_READY, body: seq![0u8] }),
{
    reveal_strlit("whisper_init_from_file_with_params_no_state: loading model from '<remote API>'");
    reveal_strlit("whisper_init_with_params_no_state: use gpu    = 1");
    reveal_strlit("whisper_init_with_params_no_state: flash attn = 1");
    reveal_strlit("whisper_init_with_params_no_state: gpu_device = 0");
    reveal_strlit("whisper_init_with_params_no_state: dtw        = 0");
    reveal_strlit("whisper_init_with_params_no_state: devices    = 2");
    reveal_strlit("whisper_init_with_params_no_state: backends   = 2");
    reveal_strlit("whisper_model_load: loading model");
    reveal_strlit("whisper_model_load: n_vocab       = 51865");
    reveal_strlit("whisper_model_load: n_audio_ctx   = 1500");
    reveal_strlit("whisper_model_load: n_audio_state = 384");
    reveal_strlit("whisper_model_load: n_audio_head  = 6");
    reveal_strlit("whisper_model_load: n_audio_layer = 4");
    reveal_strlit("whisper_model_load: n_text_ctx    = 448");
    reveal_strlit("whisper_model_load: n_text_state  = 384");
    reveal_strlit("whisper_model_load: n_text_head   = 6");
    reveal_strlit("whisper_model_load: n_text_layer  = 4");
    reveal_strlit("whisper_model_load: n_mels        = 80");
    reveal_strlit("whisper_model_load: ftype         = 1");
    reveal_strlit("whisper_model_load: qntvr         = 0");
    reveal_strlit("whisper_model_load: type          = 1 (tiny)");
    reveal_strlit("whisper_model_load: adding 1608 extra tokens");
    reveal_strlit("whisper_model_load: n_langs       = 99");
    reveal_strlit("whisper_model_load:      Vulkan0 total size =    77.11 MB");
    reveal_strlit("whisper_model_load: model size    =   77.11 MB");
    reveal_strlit("whisper_backend_init_gpu: device 0: Vulkan0 (type: 1)");
    reveal_strlit("whisper_backend_init_gpu: found GPU device 0: Vulkan0 (type: 1, cnt: 0)");
    reveal_strlit("whisper_backend_init_gpu: using Vulkan0 backend");
    reveal_strlit("whisper_init_state: kv self size  =    3.15 MB");
    reveal_strlit("whisper_init_state: kv cross size =    9.44 MB");
    reveal_strlit("whisper_init_state: kv pad  size  =    2.36 MB");
    reveal_strlit("whisper_init_state: compute buffer (conv)   =   14.17 MB");
    reveal_strlit("whisper_init_state: compute buffer (encode) =   17.72 MB");
    reveal_strlit("whisper_init_state: compute buffer (cross)  =   13.11 MB");
    reveal_strlit("whisper_init_state: compute buffer (decode) =   96.83 MB");
    assert forall|i: int| 0 <= i < init_frames().len() implies (
    #[trigger] init_frames()[i]).body.len() <= u32::MAX by {
        if i < INIT_LOG_LINES@.len() {
            assert(INIT_LOG_LINES@[i]@.len() <= 100);
            utf8_length(INIT_LOG_LINES@[i]@);
        }
    }
    stream_reads_back(init_frames());
}

/// The state after a run of events.
pub open spec fn after(s: SessionView, events: Seq<EventView>) -> SessionView
    decreases events.len(),
{
    if events.len() == 0 {
        s
    } else {
        after(s, events.drop_last()).next(events.last()).0
    }
}

/// How many of the events were seeks.
pub open spec fn seek_count(s: SessionView, events: Seq<EventView>) -> nat
    decreases events.len(),
{
    if events.len() == 0 {
        0
    } else {
        let before = after(s, events.drop_last());
        seek_count(s, events.drop_last()) + if before.seeks(events.last()) {
            1nat
        } else {
            0nat
        }
    }
}

impl SessionView {
    /// A request that awaits its audio carries the current epoch.
    pub open spec fn consistent(self) -> bool {
        match self.phase {
            PhaseView::AwaitAudio(p) => p.status == self.seek_epoch,
            _ => true,
        }
    }
}

/// Every event keeps the request that awaits its audio at the current epoch, and a
/// job is queued with the epoch that holds then.
pub proof fn step_keeps_consistent(s: SessionView, event: EventView)
    requires
        s.consistent(),
    ensures
        s.next(event).0.consistent(),
        s.next(event).1 matches ActionView::Queue(job) ==> job.status == s.next(event).0.seek_epoch
            && job.ts_ms == s.next(event).0.latest_ts,
{
}

/// A new session is consistent, and stays so.
pub proof fn run_keeps_consistent(s: SessionView, events: Seq<EventView>)
    requires
        s.consistent(),
    ensures
        after(s, events).consistent(),
    decreases events.len(),
{
    if events.len() > 0 {
        run_keeps_consistent(s, events.drop_last());
        step_keeps_consistent(after(s, events.drop_last()), events.last());
    }
}

/// The epoch counts the seeks, as long as 32 bits can hold the count.
pub proof fn epoch_counts_seeks(s: SessionView, events: Seq<EventView>)
    requires
        s.seek_epoch + seek_count(s, events) <= u32::MAX,
    ensures
        after(s, events).seek_epoch == s.seek_epoch + seek_count(s, events),
    decreases events.len(),
{
    if events.len() > 0 {
        epoch_counts_seeks(s, events.drop_last());
    }
}

/// A queued job is stale at a later moment exactly if a seek has come since it was queued.
pub proof fn job_is_stale_after_a_seek(
    s: SessionView,
    event: EventView,
    later: Seq<EventView>,
    job: JobView,
)
    requires
        s.consistent(),
        s.next(event).1 == ActionView::Queue(job),
        s.next(event).0.seek_epoch + seek_count(s.next(event).0, later) <= u32::MAX,
    ensures
        stale(job.status, after(s.next(event).0, later).seek_epoch) <==> seek_count(
            s.next(event).0,
            later,
        ) > 0,
{
    step_keeps_consistent(s, event);
    epoch_counts_seeks(s.next(event).0, later);
}

/// A CONVERT request and the audio that follows it make a job, in the language that the
/// request names, and the session is ready for the next.
pub proof fn request_and_audio_make_a_job(s: SessionView, request: FrameView, audio: FrameView)
    requires
        s.phase == PhaseView::Serving,
        SessionView::is_request(request),
        audio.code == FRAME_AUDIO,
    ensures
        ({
            let asked = s.next(EventView::Received(request));
            let heard = asked.0.next(EventView::Received(audio));
            &&& asked.1 == ActionView::ReadAudio
            &&& heard.0.phase == PhaseView::Serving
            &&& heard.1 == ActionView::Queue(
                JobView {
                    ts_ms: convert_ts(request.body),
                    flag: convert_flag(request.body),
                    status: asked.0.seek_epoch,
                    language: convert_language(request.body),
                    audio: audio.body,
                },
            )
        }),
{
}

/// Only a request further than the threshold from the last chunk taken moves the epoch.
pub proof fn near_chunks_share_an_epoch(s: SessionView, frame: FrameView)
    requires
        s.phase == PhaseView::Serving,
        SessionView::is_request(frame),
        -SEEK_THRESHOLD_MS <= convert_ts(frame.body) - s.latest_ts <= SEEK_THRESHOLD_MS
            || s.latest_ts == 0,
    ensures
        s.next(EventView::Received(frame)).0.seek_epoch == s.seek_epoch,
        s.next(EventView::Received(frame)).0.phase == PhaseView::AwaitAudio(
            s.requested(frame.body),
        ),
        s.requested(frame.body).status == s.seek_epoch,
{
}

/// A session that has ended does nothing more.
pub proof fn ended_stays_ended(s: SessionView, events: Seq<EventView>)
    requires
        s.phase == PhaseView::Ended,
    ensures
        after(s, events) == s,
    decreases events.len(),
{
    if events.len() > 0 {
        ended_stays_ended(s, events.drop_last());
    }
}

} // verus!
