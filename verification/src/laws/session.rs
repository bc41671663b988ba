//! The `-IPC` session, in the numbers and bytes of the pipe.
use crate::bytes::lossy_text;
use crate::frame::{
    frame_bytes, header_bytes, header_of, header_reads_back, stream_bytes, FrameView, FRAME_AUDIO, FRAME_CONVERT,
    FRAME_CONVERT_END, FRAME_LOAD_MODEL, FRAME_LOG, FRAME_READY, FRAME_SEGMENT_TEXT, FRAME_SEGMENT_TIMING, HEADER_LEN,
};
use crate::ipc::{
    convert_name, init_frames, Action, ActionView, Event, EventView, JobView, PendingView, Phase, PhaseView, Session,
    SessionView, INIT_LOG_LINES,
};
use crate::laws::numerals::{first_byte, four, four_bytes, number_in_four_bytes};
use vstd::prelude::*;
use vstd::utf8::encode_utf8;

verus! {

/// The time that a CONVERT body gives: its last number, or where that is zero the one before.
pub open spec fn time_in(body: Seq<u8>) -> int {
    if four(body, 40) != 0 {
        four(body, 40)
    } else {
        four(body, 36)
    }
}

/// Where the name in a CONVERT body ends: at its first zero byte, or after 32 bytes.
pub open spec fn is_name_end(body: Seq<u8>, n: int) -> bool {
    &&& 0 <= n <= 32
    &&& forall|i: int| 0 <= i < n ==> #[trigger] body[i] != 0
    &&& n < 32 ==> body[n] == 0
}

/// A viewer who jumps by more than ten seconds, back or forth and however far, moves the
/// epoch by one; one who does not leaves it. The request carries the epoch that holds
/// then, and what its bytes say.
pub proof fn a_jump_moves_the_epoch(s: SessionView, frame: FrameView)
    requires
        s.phase == PhaseView::Serving,
        frame.code == 0x20,
        frame.body.len() >= 44,
    ensures
        ({
            let (t, action) = s.next(EventView::Received(frame));
            let ts = time_in(frame.body);
            let jump = s.latest_ts != 0 && (ts - s.latest_ts > 10_000 || s.latest_ts - ts > 10_000);
            &&& action == ActionView::ReadAudio
            &&& t.latest_ts == s.latest_ts
            &&& jump && s.seek_epoch < u32::MAX ==> t.seek_epoch == s.seek_epoch + 1
            &&& jump && s.seek_epoch == u32::MAX ==> t.seek_epoch == 0
            &&& !jump ==> t.seek_epoch == s.seek_epoch
            &&& t.phase matches PhaseView::AwaitAudio(p) && {
                &&& p.ts_ms == ts
                &&& p.flag == four(frame.body, 32)
                &&& p.status == t.seek_epoch
                &&& forall|n: int|
                    #[trigger] is_name_end(frame.body, n) ==> p.language == lossy_text(
                        frame.body.take(n),
                    )
                &&& exists|n: int| #[trigger] is_name_end(frame.body, n)
            }
        }),
{
    let b = frame.body;
    let t = s.next(EventView::Received(frame)).0;
    four_bytes(b, 32);
    four_bytes(b, 36);
    four_bytes(b, 40);
    let field = b.take(32);
    first_byte(field, 0);
    let k = convert_name(b).len() as int;
    assert(forall|i: int| 0 <= i < 32 ==> #[trigger] field[i] == b[i]);
    assert(convert_name(b) =~= b.take(k));
    assert(is_name_end(b, k)) by {
        assert forall|i: int| 0 <= i < k implies #[trigger] b[i] != 0 by {
            assert(field[i] == b[i]);
        }
    }
    assert forall|n: int| #[trigger] is_name_end(b, n) implies n == k by {
        if n < k {
            assert(b[n] != 0);
        } else if k < n {
            assert(b[k] != 0);
        }
    }
}

/// Where a session starts: LOAD_MODEL is answered, anything else ends it with a code that
/// tells why.
pub proof fn a_session_starts_with_load_model(s: SessionView, frame: FrameView)
    requires
        s.phase == PhaseView::AwaitModel,
    ensures
        frame.code == 0x10 ==> s.next(EventView::Received(frame)) == (
            SessionView { phase: PhaseView::SendingInit, ..s },
            ActionView::Send(stream_bytes(init_frames())),
        ),
        frame.code != 0x10 ==> s.next(EventView::Received(frame)) == (
            SessionView { phase: PhaseView::Ended, ..s },
            ActionView::Exit(43),
        ),
        s.next(EventView::LogUnavailable) == (
            SessionView { phase: PhaseView::Ended, ..s },
            ActionView::Exit(40),
        ),
        s.next(EventView::PipeUnavailable) == (
            SessionView { phase: PhaseView::Ended, ..s },
            ActionView::Exit(41),
        ),
        s.next(EventView::ReadFailed) == (
            SessionView { phase: PhaseView::Ended, ..s },
            ActionView::Exit(42),
        ),
{
}

/// Once the answer to LOAD_MODEL is out, requests are taken; if it is not, the session ends.
pub proof fn the_init_answer_must_go_out(s: SessionView)
    requires
        s.phase == PhaseView::SendingInit,
    ensures
        s.next(EventView::Sent) == (
            SessionView { phase: PhaseView::Serving, ..s },
            ActionView::Poll,
        ),
        s.next(EventView::SendFailed) == (
            SessionView { phase: PhaseView::Ended, ..s },
            ActionView::Exit(44),
        ),
{
}

/// A frame that is no request, or a request that is too short, is passed over; a pipe that
/// cannot be read and workers that are gone end the session with zero.
pub proof fn other_frames_are_passed_over(s: SessionView, frame: FrameView)
    requires
        s.phase == PhaseView::Serving,
    ensures
        frame.code != 0x20 || frame.body.len() < 44 ==> s.next(EventView::Received(frame)) == (
            s,
            ActionView::Poll,
        ),
        s.next(EventView::ReadFailed) == (
            SessionView { phase: PhaseView::Ended, ..s },
            ActionView::Exit(0),
        ),
        s.next(EventView::WorkersGone) == (
            SessionView { phase: PhaseView::Ended, ..s },
            ActionView::Exit(0),
        ),
{
}

/// The audio of a request makes a job of it; the time of the chunk becomes the latest.
/// Any other frame drops the request and leaves the latest time and the epoch.
pub proof fn audio_makes_a_job(s: SessionView, p: PendingView, frame: FrameView)
    requires
        s.phase == PhaseView::AwaitAudio(p),
    ensures
        frame.code == 0x21 ==> s.next(EventView::Received(frame)) == (
            SessionView {
                phase: PhaseView::Serving,
                latest_ts: p.ts_ms,
                seek_epoch: s.seek_epoch,
            },
            ActionView::Queue(
                JobView {
                    ts_ms: p.ts_ms,
                    flag: p.flag,
                    status: p.status,
                    language: p.language,
                    audio: frame.body,
                },
            ),
        ),
        frame.code != 0x21 ==> s.next(EventView::Received(frame)) == (
            SessionView { phase: PhaseView::Serving, ..s },
            ActionView::Poll,
        ),
        s.next(EventView::ReadFailed) == (
            SessionView { phase: PhaseView::Ended, ..s },
            ActionView::Exit(0),
        ),
{
}

/// An ended session neither changes nor asks for anything.
pub proof fn an_ended_session_rests(s: SessionView, event: EventView)
    requires
        s.phase == PhaseView::Ended,
    ensures
        s.next(event) == (s, ActionView::Poll),
{
}

/// An event that a phase does not wait for changes nothing.
pub proof fn unawaited_events_change_nothing(s: SessionView, event: EventView)
    requires
        match s.phase {
            PhaseView::AwaitModel => event is Sent || event is SendFailed || event is WorkersGone,
            PhaseView::SendingInit => !(event is Sent || event is SendFailed),
            PhaseView::Serving => event is Sent || event is SendFailed || event is LogUnavailable
                || event is PipeUnavailable,
            PhaseView::AwaitAudio(_) => !(event is Received || event is ReadFailed),
            PhaseView::Ended => true,
        },
    ensures
        s.next(event) == (s, ActionView::Poll),
{
}

/// A frame on the pipe, byte by byte: four times 0x11, the code and the length of the body
/// with the least byte first, and the body.
pub proof fn a_frame_in_bytes(frame: FrameView)
    ensures
        frame_bytes(frame) == seq![
            0x11u8,
            0x11u8,
            0x11u8,
            0x11u8,
            (frame.code as int % 0x100) as u8,
            (frame.code as int / 0x100 % 0x100) as u8,
            (frame.code as int / 0x1_0000 % 0x100) as u8,
            (frame.code as int / 0x100_0000 % 0x100) as u8,
            (frame.body.len() % 0x100) as u8,
            (frame.body.len() / 0x100 % 0x100) as u8,
            (frame.body.len() / 0x1_0000 % 0x100) as u8,
            (frame.body.len() / 0x100_0000 % 0x100) as u8,
        ] + frame.body,
        header_bytes(frame.code, frame.body.len()) == frame_bytes(frame).take(12),
{
    number_in_four_bytes(0x1111_1111);
    number_in_four_bytes(frame.code as nat);
    number_in_four_bytes(frame.body.len());
    header_reads_back(frame.code, frame.body.len());
    assert(frame_bytes(frame).take(12) =~= header_bytes(frame.code, frame.body.len()));
    assert(frame_bytes(frame) =~= seq![
        0x11u8,
        0x11u8,
        0x11u8,
        0x11u8,
        (frame.code as int % 0x100) as u8,
        (frame.code as int / 0x100 % 0x100) as u8,
        (frame.code as int / 0x1_0000 % 0x100) as u8,
        (frame.code as int / 0x100_0000 % 0x100) as u8,
        (frame.body.len() % 0x100) as u8,
        (frame.body.len() / 0x100 % 0x100) as u8,
        (frame.body.len() / 0x1_0000 % 0x100) as u8,
        (frame.body.len() / 0x100_0000 % 0x100) as u8,
    ] + frame.body);
}

/// What twelve bytes announce: after four times 0x11 the code and the length; else nothing
/// but the number that stands there.
pub proof fn a_header_in_bytes(h: Seq<u8>)
    requires
        h.len() == 12,
    ensures
        HEADER_LEN == 12,
        h[0] == 0x11 && h[1] == 0x11 && h[2] == 0x11 && h[3] == 0x11 ==> (header_of(h) matches Ok(
            r,
        ) && r.code == four(h, 4) && r.body_len == four(h, 8)),
        !(h[0] == 0x11 && h[1] == 0x11 && h[2] == 0x11 && h[3] == 0x11) ==> (header_of(
            h,
        ) matches Err(magic) && magic == four(h, 0)),
{
    four_bytes(h, 0);
    four_bytes(h, 4);
    four_bytes(h, 8);
}

/// A stream of frames is the frames one behind the other.
pub proof fn streams_join(a: Seq<FrameView>, b: Seq<FrameView>, frame: FrameView)
    ensures
        stream_bytes(seq![]) == Seq::<u8>::empty(),
        stream_bytes(seq![frame]) == frame_bytes(frame),
        stream_bytes(a + b) == stream_bytes(a) + stream_bytes(b),
    decreases b.len(),
{
    assert(seq![frame].drop_last() =~= seq![]);
    assert(stream_bytes(seq![frame].drop_last()) =~= seq![]);
    assert(seq![frame].last() == frame);
    assert(stream_bytes(seq![frame]) =~= frame_bytes(frame));
    if b.len() == 0 {
        assert(a + b =~= a);
        assert(stream_bytes(a) + stream_bytes(b) =~= stream_bytes(a));
    } else {
        streams_join(a, b.drop_last(), frame);
        assert((a + b).drop_last() =~= a + b.drop_last());
        assert(stream_bytes(a + b) =~= stream_bytes(a) + stream_bytes(b));
    }
}

/// The codes of the frames.
pub proof fn frame_codes()
    ensures
        FRAME_LOAD_MODEL == 0x10,
        FRAME_READY == 0x11,
        FRAME_CONVERT == 0x20,
        FRAME_AUDIO == 0x21,
        FRAME_CONVERT_END == 0x22,
        FRAME_LOG == 0x1_0000,
        FRAME_SEGMENT_TIMING == 0x2_0000,
        FRAME_SEGMENT_TEXT == 0x2_0001,
{
}

/// LOAD_MODEL is answered with every log line in its order, as a text that ends with a line
/// feed and a zero byte, and then with one READY that holds a zero byte.
pub proof fn load_model_is_answered(i: int)
    requires
        0 <= i < 35,
    ensures
        init_frames().len() == 36,
        init_frames()[i].code == 0x1_0000,
        init_frames()[i].body == encode_utf8(INIT_LOG_LINES@[i]@).push(10u8).push(0u8),
        init_frames()[35].code == 0x11,
        init_frames()[35].body == seq![0u8],
{
    assert(init_frames()[i].body =~= encode_utf8(INIT_LOG_LINES@[i]@).push(10u8).push(0u8));
}

/// What the log says while a model loads, line by line.
pub proof fn the_log_of_a_model()
    ensures
        INIT_LOG_LINES@.len() == 35,
        INIT_LOG_LINES@[0]@ == "whisper_init_from_file_with_params_no_state: loading model from '<remote API>'"@,
        INIT_LOG_LINES@[1]@ == "whisper_init_with_params_no_state: use gpu    = 1"@,
        INIT_LOG_LINES@[2]@ == "whisper_init_with_params_no_state: flash attn = 1"@,
        INIT_LOG_LINES@[3]@ == "whisper_init_with_params_no_state: gpu_device = 0"@,
        INIT_LOG_LINES@[4]@ == "whisper_init_with_params_no_state: dtw        = 0"@,
        INIT_LOG_LINES@[5]@ == "whisper_init_with_params_no_state: devices    = 2"@,
        INIT_LOG_LINES@[6]@ == "whisper_init_with_params_no_state: backends   = 2"@,
        INIT_LOG_LINES@[7]@ == "whisper_model_load: loading model"@,
        INIT_LOG_LINES@[8]@ == "whisper_model_load: n_vocab       = 51865"@,
        INIT_LOG_LINES@[9]@ == "whisper_model_load: n_audio_ctx   = 1500"@,
        INIT_LOG_LINES@[10]@ == "whisper_model_load: n_audio_state = 384"@,
        INIT_LOG_LINES@[11]@ == "whisper_model_load: n_audio_head  = 6"@,
        INIT_LOG_LINES@[12]@ == "whisper_model_load: n_audio_layer = 4"@,
        INIT_LOG_LINES@[13]@ == "whisper_model_load: n_text_ctx    = 448"@,
        INIT_LOG_LINES@[14]@ == "whisper_model_load: n_text_state  = 384"@,
        INIT_LOG_LINES@[15]@ == "whisper_model_load: n_text_head   = 6"@,
        INIT_LOG_LINES@[16]@ == "whisper_model_load: n_text_layer  = 4"@,
        INIT_LOG_LINES@[17]@ == "whisper_model_load: n_mels        = 80"@,
        INIT_LOG_LINES@[18]@ == "whisper_model_load: ftype         = 1"@,
        INIT_LOG_LINES@[19]@ == "whisper_model_load: qntvr         = 0"@,
        INIT_LOG_LINES@[20]@ == "whisper_model_load: type          = 1 (tiny)"@,
        INIT_LOG_LINES@[21]@ == "whisper_model_load: adding 1608 extra tokens"@,
        INIT_LOG_LINES@[22]@ == "whisper_model_load: n_langs       = 99"@,
        INIT_LOG_LINES@[23]@ == "whisper_model_load:      Vulkan0 total size =    77.11 MB"@,
        INIT_LOG_LINES@[24]@ == "whisper_model_load: model size    =   77.11 MB"@,
        INIT_LOG_LINES@[25]@ == "whisper_backend_init_gpu: device 0: Vulkan0 (type: 1)"@,
        INIT_LOG_LINES@[26]@ == "whisper_backend_init_gpu: found GPU device 0: Vulkan0 (type: 1, cnt: 0)"@,
        INIT_LOG_LINES@[27]@ == "whisper_backend_init_gpu: using Vulkan0 backend"@,
        INIT_LOG_LINES@[28]@ == "whisper_init_state: kv self size  =    3.15 MB"@,
        INIT_LOG_LINES@[29]@ == "whisper_init_state: kv cross size =    9.44 MB"@,
        INIT_LOG_LINES@[30]@ == "whisper_init_state: kv pad  size  =    2.36 MB"@,
        INIT_LOG_LINES@[31]@ == "whisper_init_state: compute buffer (conv)   =   14.17 MB"@,
        INIT_LOG_LINES@[32]@ == "whisper_init_state: compute buffer (encode) =   17.72 MB"@,
        INIT_LOG_LINES@[33]@ == "whisper_init_state: compute buffer (cross)  =   13.11 MB"@,
        INIT_LOG_LINES@[34]@ == "whisper_init_state: compute buffer (decode) =   96.83 MB"@,
{
}

/// Sessions, events and actions are seen as they are.
pub proof fn sessions_are_seen_as_they_are(
    s: Session,
    phase: Phase,
    event: Event,
    action: Action,
)
    ensures
        s@.phase == s.phase@ && s@.latest_ts == s.latest_ts && s@.seek_epoch == s.seek_epoch,
        match phase {
            Phase::AwaitModel => phase@ == PhaseView::AwaitModel,
            Phase::SendingInit => phase@ == PhaseView::SendingInit,
            Phase::Serving => phase@ == PhaseView::Serving,
            Phase::AwaitAudio(p) => phase@ == PhaseView::AwaitAudio(p@),
            Phase::Ended => phase@ == PhaseView::Ended,
        },
        match event {
            Event::LogUnavailable => event@ == EventView::LogUnavailable,
            Event::PipeUnavailable => event@ == EventView::PipeUnavailable,
            Event::Received(f) => event@ == EventView::Received(f@),
            Event::ReadFailed => event@ == EventView::ReadFailed,
            Event::Sent => event@ == EventView::Sent,
            Event::SendFailed => event@ == EventView::SendFailed,
            Event::WorkersGone => event@ == EventView::WorkersGone,
        },
        match action {
            Action::Send(b) => action@ == ActionView::Send(b@),
            Action::Poll => action@ == ActionView::Poll,
            Action::ReadAudio => action@ == ActionView::ReadAudio,
            Action::Queue(j) => action@ == ActionView::Queue(j@),
            Action::Exit(c) => action@ == ActionView::Exit(c),
        },
{
}

} // verus!
