//! What a worker makes of a chunk: whether the chunk is still wanted, what is sent to the
//! server for it, which of its segments are kept, and the frames that answer the request.
use crate::bytes::{eight_bytes_read_back, four_bytes_read_back, le_bytes, le_value, push_le, push_text};
use crate::config::Config;
use crate::frame::{Frame, FrameView, FRAME_CONVERT_END, FRAME_SEGMENT_TEXT, FRAME_SEGMENT_TIMING};
use crate::ipc::{Job, JobView};
use crate::laws::exchange::{goes_to, where_a_request_goes};
use crate::number::{read_unsigned, unsigned_value, within};
use crate::text::{chars_of, push_str, string_of, trim_str, trimmed, trimming_twice};
use crate::wav::{make_wav_f32_mono_16k, wav_header};
use crate::whisper_client::{
    call_of, prepare, segment_views, whole_as_segment, whole_segment, HttpCall, Segment, SegmentView, TranscribeRequest,
    TranscribeRequestView, TranscribeResult, TranscribeResultView,
};
use vstd::prelude::*;
use vstd::utf8::encode_utf8;

verus! {

/// A segment of a chunk, in whole milliseconds from the start of the chunk.
pub struct Cue {
    pub start_ms: u64,
    pub end_ms: u64,
    pub text: String,
}

pub struct CueView {
    pub start_ms: u64,
    pub end_ms: u64,
    pub text: Seq<char>,
}

impl View for Cue {
    type V = CueView;

    open spec fn view(&self) -> CueView {
        CueView { start_ms: self.start_ms, end_ms: self.end_ms, text: self.text@ }
    }
}

/// What a list of cues holds.
pub open spec fn cue_views(cues: Seq<Cue>) -> Seq<CueView> {
    Seq::new(cues.len(), |i: int| cues[i]@)
}

/// What a list of frames holds.
pub open spec fn frame_views(frames: Seq<Frame>) -> Seq<FrameView> {
    Seq::new(frames.len(), |i: int| frames[i]@)
}

/// A request is stale once a later seek has moved the epoch past its own.
pub open spec fn stale(status: u32, epoch: u32) -> bool {
    status < epoch
}

pub fn is_stale(status: u32, epoch: u32) -> (r: bool)
    ensures
        r == stale(status, epoch),
{
    status < epoch
}

/// The cues that are shown: those transcribed, if transcription gave any and the
/// request was stale neither before nor after it.
pub open spec fn kept(
    status: u32,
    epoch_before: u32,
    transcribed: Option<Seq<CueView>>,
    epoch_after: u32,
) -> Seq<CueView> {
    if stale(status, epoch_before) || stale(status, epoch_after) {
        seq![]
    } else {
        match transcribed {
            Some(cues) => cues,
            None => seq![],
        }
    }
}

/// The cues to show of a chunk.
pub fn keep_cues(
    status: u32,
    epoch_before: u32,
    transcribed: Option<Vec<Cue>>,
    epoch_after: u32,
) -> (r: Vec<Cue>)
    ensures
        cue_views(r@) == kept(
            status,
            epoch_before,
            match transcribed {
                Some(cues) => Some(cue_views(cues@)),
                None => None,
            },
            epoch_after,
        ),
{
    if is_stale(status, epoch_before) || is_stale(status, epoch_after) {
        let none: Vec<Cue> = Vec::new();
        assert(cue_views(none@) =~= Seq::<CueView>::empty());
        none
    } else {
        match transcribed {
            Some(cues) => cues,
            None => {
                let none: Vec<Cue> = Vec::new();
                assert(cue_views(none@) =~= Seq::<CueView>::empty());
                none
            },
        }
    }
}

/// The frame that tells when a cue is shown: the epoch and the flag of the request,
/// then the start and the end from the start of the film, modulo `2^64`.
pub open spec fn timing_frame(job: JobView, cue: CueView) -> FrameView {
    FrameView {
        code: FRAME_SEGMENT_TIMING,
        body: le_bytes(job.status as nat, 4) + le_bytes(job.flag as nat, 4) + le_bytes(
            cue.start_ms as nat + job.ts_ms as nat,
            8,
        ) + le_bytes(cue.end_ms as nat + job.ts_ms as nat, 8),
    }
}

/// The frame that tells what a cue says, ended by a null byte.
pub open spec fn text_frame(cue: CueView) -> FrameView {
    FrameView { code: FRAME_SEGMENT_TEXT, body: encode_utf8(cue.text) + seq![0u8] }
}

/// The frame that ends an answer: the language twice, ended by a null character.
pub open spec fn end_frame(language: Seq<char>) -> FrameView {
    FrameView {
        code: FRAME_CONVERT_END,
        body: encode_utf8(language + seq!['/'] + language + seq!['\0']),
    }
}

/// The answer to a request: timing and text of each cue, then the end.
pub open spec fn answer_frames(job: JobView, cues: Seq<CueView>) -> Seq<FrameView> {
    Seq::new(
        2 * cues.len(),
        |i: int|
            if i % 2 == 0 {
                timing_frame(job, cues[i / 2])
            } else {
                text_frame(cues[i / 2])
            },
    ).push(end_frame(job.language))
}

/// The frames that answer a request with its cues.
pub fn answer(job: &Job, cues: &[Cue]) -> (frames: Vec<Frame>)
    ensures
        frame_views(frames@) == answer_frames(job@, cue_views(cues@)),
{
    let mut frames: Vec<Frame> = Vec::new();
    let ghost all = answer_frames(job@, cue_views(cues@));
    for i in 0..cues.len()
        invariant
            all == answer_frames(job@, cue_views(cues@)),
            frames@.len() == 2 * i,
            frame_views(frames@) == all.take(2 * i),
    {
        let cue = &cues[i];
        let start_ms: u64 = cue.start_ms.wrapping_add(job.ts_ms as u64);
        let end_ms: u64 = cue.end_ms.wrapping_add(job.ts_ms as u64);
        proof {
            eight_bytes_read_back(cue.start_ms as nat + job.ts_ms as nat);
            eight_bytes_read_back(cue.end_ms as nat + job.ts_ms as nat);
        }
        let mut timing: Vec<u8> = Vec::new();
        push_le(&mut timing, job.status as u64, 4);
        push_le(&mut timing, job.flag as u64, 4);
        push_le(&mut timing, start_ms, 8);
        push_le(&mut timing, end_ms, 8);
        assert(timing@ =~= timing_frame(job@, cue@).body);
        let mut words: Vec<u8> = Vec::new();
        push_text(&mut words, cue.text.as_str());
        words.push(0);
        assert(words@ =~= text_frame(cue@).body);
        frames.push(Frame { code: FRAME_SEGMENT_TIMING, body: timing });
        frames.push(Frame { code: FRAME_SEGMENT_TEXT, body: words });
        assert(frame_views(frames@) =~= all.take(2 * (i + 1)));
    }
    let mut pair: Vec<char> = Vec::new();
    push_str(&mut pair, job.language.as_str());
    pair.push('/');
    push_str(&mut pair, job.language.as_str());
    pair.push('\0');
    assert(pair@ =~= job@.language + seq!['/'] + job@.language + seq!['\0']);
    let mut body: Vec<u8> = Vec::new();
    push_text(&mut body, string_of(pair.as_slice()).as_str());
    assert(body@ =~= end_frame(job@.language).body);
    let ghost before = frame_views(frames@);
    frames.push(Frame { code: FRAME_CONVERT_END, body });
    assert(frame_views(frames@) =~= before.push(end_frame(job@.language)));
    assert(before =~= all.drop_last());
    assert(all =~= all.drop_last().push(end_frame(job@.language)));
    frames
}

/// The number of workers that a setting asks for: one where it names none.
pub open spec fn workers(setting: Option<Seq<char>>) -> int {
    match setting {
        Some(s) => match within(unsigned_value(s), 0, usize::MAX as int) {
            Some(n) => if n < 1 {
                1
            } else {
                n
            },
            None => 1,
        },
        None => 1,
    }
}

pub fn worker_count(setting: Option<&str>) -> (n: usize)
    ensures
        n == workers(match setting {
            Some(s) => Some(s@),
            None => None,
        }),
{
    match setting {
        Some(s) => match read_unsigned(chars_of(s).as_slice(), usize::MAX as u64) {
            Some(n) => if n < 1 {
                1
            } else {
                n as usize
            },
            None => 1,
        },
        None => 1,
    }
}

/// An answer ends with CONVERT_END and holds no other; before it each cue has its
/// timing and then its text.
pub proof fn answer_ends_once(job: JobView, cues: Seq<CueView>)
    ensures
        answer_frames(job, cues).len() == 2 * cues.len() + 1,
        answer_frames(job, cues).last() == end_frame(job.language),
        forall|i: int|
            0 <= i < 2 * cues.len() ==> (#[trigger] answer_frames(job, cues)[i]).code
                != FRAME_CONVERT_END,
        forall|k: int|
            #![trigger cues[k]]
            0 <= k < cues.len() ==> answer_frames(job, cues)[2 * k] == timing_frame(job, cues[k])
                && answer_frames(job, cues)[2 * k + 1] == text_frame(cues[k]),
{
}

/// A player reads from a timing frame the epoch and the flag of its request, and the
/// times of the cue from the start of the film, where 64 bits can hold them.
pub proof fn timing_reads_back(job: JobView, cue: CueView)
    requires
        cue.start_ms + job.ts_ms <= u64::MAX,
        cue.end_ms + job.ts_ms <= u64::MAX,
    ensures
        ({
            let body = timing_frame(job, cue).body;
            &&& body.len() == 24
            &&& le_value(body.subrange(0, 4)) == job.status
            &&& le_value(body.subrange(4, 8)) == job.flag
            &&& le_value(body.subrange(8, 16)) == cue.start_ms + job.ts_ms
            &&& le_value(body.subrange(16, 24)) == cue.end_ms + job.ts_ms
        }),
{
    let body = timing_frame(job, cue).body;
    let start = (cue.start_ms + job.ts_ms) as nat;
    let end = (cue.end_ms + job.ts_ms) as nat;
    four_bytes_read_back(job.status as nat);
    four_bytes_read_back(job.flag as nat);
    eight_bytes_read_back(start);
    eight_bytes_read_back(end);
    assert(body.subrange(0, 4) =~= le_bytes(job.status as nat, 4));
    assert(body.subrange(4, 8) =~= le_bytes(job.flag as nat, 4));
    assert(body.subrange(8, 16) =~= le_bytes(start, 8));
    assert(body.subrange(16, 24) =~= le_bytes(end, 8));
}

/// A request that is stale before or after transcription, or whose transcription failed,
/// is answered by CONVERT_END alone.
pub proof fn request_without_cues_is_answered_by_its_end(
    job: JobView,
    epoch_before: u32,
    transcribed: Option<Seq<CueView>>,
    epoch_after: u32,
)
    requires
        stale(job.status, epoch_before) || stale(job.status, epoch_after) || transcribed is None,
    ensures
        answer_frames(job, kept(job.status, epoch_before, transcribed, epoch_after)) == seq![
            end_frame(job.language),
        ],
{
    let cues = kept(job.status, epoch_before, transcribed, epoch_after);
    assert(answer_frames(job, cues) =~= seq![end_frame(job.language)]);
}

/// The request that transcribes a chunk. An empty language is none.
pub open spec fn request_for_chunk(wav: Seq<u8>, language: Seq<char>) -> TranscribeRequestView {
    TranscribeRequestView {
        file_name: "chunk.wav"@,
        file_bytes: wav,
        mime: "audio/wav"@,
        language: if language.len() == 0 {
            None
        } else {
            Some(language)
        },
        prompt: None,
        translate: false,
    }
}

/// The request that transcribes a chunk.
pub fn chunk_request<'a>(wav: &'a [u8], language: &'a str) -> (r: TranscribeRequest<'a>)
    ensures
        r@ == request_for_chunk(wav@, language@),
{
    TranscribeRequest {
        file_name: "chunk.wav",
        file_bytes: wav,
        mime: "audio/wav",
        language: if language.is_empty() {
            None
        } else {
            Some(language)
        },
        prompt: None,
        translate: false,
    }
}

/// The request that is sent for a job: its sound as a WAV file, in its language.
pub fn chunk_call(cfg: &Config, job: &Job, boundary: &str) -> (call: HttpCall)
    ensures
        call@ == call_of(
            cfg@,
            request_for_chunk(wav_header(job@.audio.len()) + job@.audio, job@.language),
            boundary@,
        ),
        goes_to(call.endpoint@, cfg.url@, false),
{
    proof {
        where_a_request_goes(cfg@.url, false);
    }
    let wav = make_wav_f32_mono_16k(job.audio.as_slice());
    prepare(cfg, &chunk_request(wav.as_slice(), job.language.as_str()), boundary)
}

/// What is sent for a job when a worker takes it: nothing if the job is stale by then.
pub fn start_chunk(cfg: &Config, job: &Job, epoch: u32, boundary: &str) -> (r: Option<HttpCall>)
    ensures
        r is None <==> stale(job.status, epoch),
        r matches Some(call) ==> call@ == call_of(
            cfg@,
            request_for_chunk(wav_header(job@.audio.len()) + job@.audio, job@.language),
            boundary@,
        ),
        r matches Some(call) ==> goes_to(call.endpoint@, cfg.url@, false),
{
    if is_stale(job.status, epoch) {
        None
    } else {
        Some(chunk_call(cfg, job, boundary))
    }
}

/// The segments that say something, stripped of white space.
pub open spec fn spoken(segments: Seq<SegmentView>) -> Seq<SegmentView>
    decreases segments.len(),
{
    if segments.len() == 0 {
        seq![]
    } else {
        let before = spoken(segments.drop_last());
        let text = trimmed(segments.last().text);
        if text.len() > 0 {
            before.push(SegmentView { text, ..segments.last() })
        } else {
            before
        }
    }
}

/// The segments to show of a chunk: those that say something, or the whole text as one.
pub open spec fn chunk_segments(result: TranscribeResultView) -> Seq<SegmentView> {
    if spoken(result.segments).len() > 0 {
        spoken(result.segments)
    } else {
        whole_as_segment(trimmed(result.full_text))
    }
}

/// The segments to show of a chunk, from what the transcription of the chunk came to.
pub fn transcribe_chunk(outcome: Result<TranscribeResult, String>) -> (r: Result<
    Vec<Segment>,
    String,
>)
    ensures
        match outcome {
            Ok(result) => r matches Ok(segments) && segment_views(segments@) == chunk_segments(
                result@,
            ),
            Err(e) => r == Err::<Vec<Segment>, String>(e),
        },
{
    let result = match outcome {
        Ok(result) => result,
        Err(e) => return Err(e),
    };
    let mut segments: Vec<Segment> = Vec::new();
    let ghost views = result@.segments;
    for i in 0..result.segments.len()
        invariant
            views == segment_views(result.segments@),
            segment_views(segments@) == spoken(views.take(i as int)),
    {
        let segment = &result.segments[i];
        let text = trim_str(segment.text.as_str());
        let ghost before = segment_views(segments@);
        assert(views.take(i + 1).drop_last() =~= views.take(i as int));
        assert(views.take(i + 1).last() == segment@);
        if !text.as_str().is_empty() {
            segments.push(Segment { start: segment.start, end: segment.end, text });
            assert(segment_views(segments@) =~= before.push(segments@.last()@));
        }
    }
    assert(views.take(views.len() as int) =~= views);
    assert(segment_views(segments@).len() == segments@.len());
    if segments.len() == 0 {
        let text = trim_str(result.full_text.as_str());
        Ok(whole_segment(text.as_str()))
    } else {
        Ok(segments)
    }
}

/// Every segment shown of a chunk has text, without white space at its ends.
pub proof fn shown_segments_say_something(result: TranscribeResultView)
    ensures
        forall|i: int|
            0 <= i < chunk_segments(result).len() ==> ({
                let text = (#[trigger] chunk_segments(result)[i]).text;
                text.len() > 0 && trimmed(text) == text
            }),
{
    spoken_is_trimmed(result.segments);
    trimming_twice(result.full_text);
}

proof fn spoken_is_trimmed(segments: Seq<SegmentView>)
    ensures
        forall|i: int|
            0 <= i < spoken(segments).len() ==> (#[trigger] spoken(segments)[i]).text.len() > 0
                && trimmed(spoken(segments)[i].text) == spoken(segments)[i].text,
    decreases segments.len(),
{
    if segments.len() > 0 {
        spoken_is_trimmed(segments.drop_last());
        trimming_twice(segments.last().text);
        assert forall|i: int| 0 <= i < spoken(segments).len() implies (
        #[trigger] spoken(segments)[i]).text.len() > 0 && trimmed(spoken(segments)[i].text)
            == spoken(segments)[i].text by {
            if i < spoken(segments.drop_last()).len() {
                assert(spoken(segments)[i] == spoken(segments.drop_last())[i]);
            }
        }
    }
}

} // verus!
