//! What a chunk of sound is sent as, what is shown of it, and the frames that show it.
use crate::answer::{
    answer_frames, chunk_segments, cue_views, frame_views, kept, request_for_chunk, spoken, stale, text_frame,
    timing_frame, workers, Cue, CueView,
};
use crate::bytes::{eight_bytes_read_back, four_bytes_read_back, le_bytes, le_value};
use crate::desk::{answer_to, Desk, DeskView, Finding};
use crate::frame::{Frame, FrameView};
use crate::ipc::{Job, JobView, Pending};
use crate::laws::numerals::{all_white, number_in_four_bytes, stripping_takes_the_white_ends};
use crate::number::unsigned_value;
use crate::text::trimmed;
use crate::wav::{data_head, format_chunk, riff_head, wav_header, WAV_HEADER_LEN};
use crate::whisper_client::{Seconds, Segment, SegmentView, TranscribeResultView};
use vstd::prelude::*;
use vstd::utf8::encode_utf8;

verus! {

/// Whether a segment has more than white space in its text.
pub open spec fn says_something(segment: SegmentView) -> bool {
    !all_white(segment.text)
}

/// How many of the first `n` segments say something.
pub open spec fn count_spoken(segments: Seq<SegmentView>, n: int) -> int
    decreases n,
{
    if n <= 0 {
        0
    } else {
        count_spoken(segments, n - 1) + if says_something(segments[n - 1]) {
            1int
        } else {
            0int
        }
    }
}

proof fn count_of_a_start(a: Seq<SegmentView>, b: Seq<SegmentView>, n: int)
    requires
        n <= a.len(),
        n <= b.len(),
        forall|i: int| 0 <= i < n ==> #[trigger] a[i] == b[i],
    ensures
        count_spoken(a, n) == count_spoken(b, n),
    decreases n,
{
    if n > 0 {
        count_of_a_start(a, b, n - 1);
        assert(a[n - 1] == b[n - 1]);
    }
}

proof fn counting_goes_up(segments: Seq<SegmentView>, i: int, n: int)
    requires
        0 <= i < n,
        says_something(segments[i]),
    ensures
        0 <= count_spoken(segments, i) < count_spoken(segments, n),
    decreases n,
{
    count_is_positive(segments, i);
    if i < n - 1 {
        counting_goes_up(segments, i, n - 1);
    }
}

proof fn count_is_positive(segments: Seq<SegmentView>, n: int)
    ensures
        count_spoken(segments, n) >= 0,
    decreases n,
{
    if n > 0 {
        count_is_positive(segments, n - 1);
    }
}

proof fn spoken_in_place(segments: Seq<SegmentView>)
    ensures
        spoken(segments).len() == count_spoken(segments, segments.len() as int),
        forall|i: int|
            #![trigger segments[i]]
            0 <= i < segments.len() && says_something(segments[i]) ==> {
                let k = count_spoken(segments, i);
                &&& 0 <= k < spoken(segments).len()
                &&& spoken(segments)[k].start == segments[i].start
                &&& spoken(segments)[k].end == segments[i].end
                &&& spoken(segments)[k].text == trimmed(segments[i].text)
            },
    decreases segments.len(),
{
    if segments.len() > 0 {
        let rest = segments.drop_last();
        let n = rest.len() as int;
        spoken_in_place(rest);
        count_of_a_start(segments, rest, n);
        stripping_takes_the_white_ends(segments.last().text);
        assert forall|i: int|
            #![trigger segments[i]]
            0 <= i < segments.len() && says_something(segments[i]) implies {
            let k = count_spoken(segments, i);
            &&& 0 <= k < spoken(segments).len()
            &&& spoken(segments)[k].start == segments[i].start
            &&& spoken(segments)[k].end == segments[i].end
            &&& spoken(segments)[k].text == trimmed(segments[i].text)
        } by {
            counting_goes_up(segments, i, segments.len() as int);
            if i < n {
                assert(rest[i] == segments[i]);
                count_of_a_start(segments, rest, i);
                let k = count_spoken(segments, i);
                assert(spoken(segments)[k] == spoken(rest)[k]);
            }
        }
    }
}

/// Every segment that says something is shown, and no other: as many are shown as say
/// something, each in its place among them, with its own times and its text without the
/// white space at its ends. Where none does, the whole text is shown at time zero, and
/// nothing where there is no text.
pub proof fn every_spoken_segment_is_shown(result: TranscribeResultView)
    ensures
        ({
            let shown = chunk_segments(result);
            let n = count_spoken(result.segments, result.segments.len() as int);
            &&& n > 0 ==> shown.len() == n && forall|i: int|
                #![trigger result.segments[i]]
                0 <= i < result.segments.len() && says_something(result.segments[i]) ==> {
                    let k = count_spoken(result.segments, i);
                    &&& 0 <= k < shown.len()
                    &&& shown[k].start == result.segments[i].start
                    &&& shown[k].end == result.segments[i].end
                    &&& shown[k].text == trimmed(result.segments[i].text)
                }
            &&& n == 0 && !all_white(result.full_text) ==> shown == seq![
                SegmentView {
                    start: Seconds { bits: 0 },
                    end: Seconds { bits: 0 },
                    text: trimmed(result.full_text),
                },
            ]
            &&& n == 0 && all_white(result.full_text) ==> shown.len() == 0
        }),
{
    spoken_in_place(result.segments);
    stripping_takes_the_white_ends(result.full_text);
    count_is_positive(result.segments, result.segments.len() as int);
}

/// A chunk's cues are shown if no seek has moved the epoch past its request, neither when
/// it was taken nor after; then all of them are, in their order.
pub proof fn cues_are_shown_unless_a_seek_came(
    status: u32,
    epoch_before: u32,
    cues: Seq<CueView>,
    epoch_after: u32,
)
    ensures
        epoch_before <= status && epoch_after <= status ==> kept(
            status,
            epoch_before,
            Some(cues),
            epoch_after,
        ) == cues,
        epoch_before > status || epoch_after > status ==> kept(
            status,
            epoch_before,
            Some(cues),
            epoch_after,
        ).len() == 0,
        kept(status, epoch_before, None, epoch_after).len() == 0,
        stale(status, epoch_before) <==> epoch_before > status,
{
}

/// The frames of an answer: for each cue, in order, a frame 0x20000 and then a frame
/// 0x20001; at the end, once, a frame 0x22. The times are those of the cue from the start
/// of the film, cut to 64 bits.
pub proof fn an_answer_in_frames(job: JobView, cues: Seq<CueView>, k: int)
    requires
        0 <= k < cues.len(),
    ensures
        ({
            let frames = answer_frames(job, cues);
            let timing = frames[2 * k];
            let text = frames[2 * k + 1];
            let whole = 0x1_0000_0000_0000_0000;
            &&& frames.len() == 2 * cues.len() + 1
            &&& timing.code == 0x2_0000
            &&& timing.body.len() == 24
            &&& le_value(timing.body.subrange(0, 4)) == job.status
            &&& le_value(timing.body.subrange(4, 8)) == job.flag
            &&& le_value(timing.body.subrange(8, 16)) == (cues[k].start_ms + job.ts_ms) % whole
            &&& le_value(timing.body.subrange(16, 24)) == (cues[k].end_ms + job.ts_ms) % whole
            &&& text.code == 0x2_0001
            &&& text.body == encode_utf8(cues[k].text).push(0u8)
        }),
{
    let body = timing_frame(job, cues[k]).body;
    let start = (cues[k].start_ms + job.ts_ms) as nat;
    let end = (cues[k].end_ms + job.ts_ms) as nat;
    four_bytes_read_back(job.status as nat);
    four_bytes_read_back(job.flag as nat);
    eight_bytes_read_back(start);
    eight_bytes_read_back(end);
    assert(body.subrange(0, 4) =~= le_bytes(job.status as nat, 4));
    assert(body.subrange(4, 8) =~= le_bytes(job.flag as nat, 4));
    assert(body.subrange(8, 16) =~= le_bytes(start, 8));
    assert(body.subrange(16, 24) =~= le_bytes(end, 8));
    assert(answer_frames(job, cues)[2 * k] == timing_frame(job, cues[k]));
    assert(answer_frames(job, cues)[2 * k + 1] == text_frame(cues[k]));
    assert(text_frame(cues[k]).body =~= encode_utf8(cues[k].text).push(0u8));
}

/// The end of an answer: the language, a slash, the language and a null character.
pub proof fn an_answer_ends_with_its_language(job: JobView, cues: Seq<CueView>)
    ensures
        answer_frames(job, cues).len() == 2 * cues.len() + 1,
        answer_frames(job, cues).last().code == 0x22,
        answer_frames(job, cues).last().body == encode_utf8(
            job.language.push('/') + job.language.push('\0'),
        ),
{
    assert(job.language + seq!['/'] + job.language + seq!['\0'] =~= job.language.push('/')
        + job.language.push('\0'));
}

/// What is laid down for a job are the frames that show its cues, if no seek came.
pub proof fn a_finding_is_answered(job: JobView, finding: Finding)
    ensures
        finding.transcribed matches Some(cues) ==> finding.epoch_before <= job.status
            && finding.epoch_after <= job.status ==> answer_to(job, finding) == answer_frames(
            job,
            cues,
        ),
        finding.transcribed is None || finding.epoch_before > job.status || finding.epoch_after
            > job.status ==> answer_to(job, finding) == answer_frames(job, seq![]),
{
    if finding.transcribed is None || finding.epoch_before > job.status || finding.epoch_after
        > job.status {
        assert(kept(
            job.status,
            finding.epoch_before,
            finding.transcribed,
            finding.epoch_after,
        ) =~= seq![]);
    }
}

/// Jobs and answers leave the desk in the order in which they came.
pub proof fn the_desk_keeps_order(desk: DeskView, job: JobView, answer: Seq<FrameView>)
    ensures
        desk.with_job(job).waiting == desk.waiting + seq![job],
        desk.with_job(job).answers == desk.answers,
        desk.with_answer(answer).answers == desk.answers + seq![answer],
        desk.with_answer(answer).waiting == desk.waiting,
        desk.waiting.len() > 0 ==> seq![desk.waiting[0]] + desk.without_first_job().waiting
            == desk.waiting,
        desk.without_first_job().answers == desk.answers,
        desk.answers.len() > 0 ==> seq![desk.answers[0]] + desk.without_first_answer().answers
            == desk.answers,
        desk.without_first_answer().waiting == desk.waiting,
{
    assert(desk.with_job(job).waiting =~= desk.waiting + seq![job]);
    assert(desk.with_answer(answer).answers =~= desk.answers + seq![answer]);
    if desk.waiting.len() > 0 {
        assert(seq![desk.waiting[0]] + desk.without_first_job().waiting =~= desk.waiting);
    }
    if desk.answers.len() > 0 {
        assert(seq![desk.answers[0]] + desk.without_first_answer().answers =~= desk.answers);
    }
}

/// A setting that is a number above zero is the number of workers; any other means one.
pub proof fn workers_are_at_least_one(setting: Seq<char>)
    ensures
        workers(None) == 1,
        unsigned_value(setting) matches Some(n) ==> 1 <= n <= usize::MAX ==> workers(Some(setting)) == n,
        unsigned_value(setting) is None ==> workers(Some(setting)) == 1,
        unsigned_value(setting) matches Some(n) ==> n < 1 || n > usize::MAX ==> workers(
            Some(setting),
        ) == 1,
{
}

/// A chunk is sent under a fixed name, in its language unless that is empty.
pub proof fn a_chunk_is_sent_as_it_is(wav: Seq<u8>, language: Seq<char>)
    ensures
        ({
            let r = request_for_chunk(wav, language);
            &&& r.file_name == "chunk.wav"@
            &&& r.file_bytes == wav
            &&& r.mime == "audio/wav"@
            &&& r.language is None <==> language.len() == 0
            &&& r.language matches Some(l) ==> l == language
            &&& r.prompt is None
            &&& !r.translate
        }),
{
}

/// The header of a WAV file, byte by byte: 32-bit float samples, one channel, 16000 a second.
pub proof fn a_wav_header_in_bytes(n: nat)
    ensures
        WAV_HEADER_LEN == 44,
        wav_header(n) == seq![
            // RIFF, the length of what follows, WAVE
            82u8, 73, 70, 70,
            ((n + 36) % 0x100) as u8, ((n + 36) / 0x100 % 0x100) as u8,
            ((n + 36) / 0x1_0000 % 0x100) as u8, ((n + 36) / 0x100_0000 % 0x100) as u8,
            87, 65, 86, 69,
            // fmt, 16 bytes, IEEE float, one channel
            102, 109, 116, 32, 16, 0, 0, 0, 3, 0, 1, 0,
            // 16000 samples and 64000 bytes a second
            0x80, 0x3e, 0, 0, 0, 0xfa, 0, 0,
            // four bytes and 32 bits a sample
            4, 0, 32, 0,
            // data and its length
            100, 97, 116, 97,
            (n % 0x100) as u8, (n / 0x100 % 0x100) as u8,
            (n / 0x1_0000 % 0x100) as u8, (n / 0x100_0000 % 0x100) as u8,
        ],
{
    number_in_four_bytes(n + 36);
    number_in_four_bytes(36 + n);
    number_in_four_bytes(n);
    number_in_four_bytes(16);
    number_in_four_bytes(16000);
    number_in_four_bytes(64000);
    assert(le_bytes(3, 2) =~= seq![3u8, 0]) by {
        reveal_with_fuel(le_bytes, 3);
    }
    assert(le_bytes(1, 2) =~= seq![1u8, 0]) by {
        reveal_with_fuel(le_bytes, 3);
    }
    assert(le_bytes(4, 2) =~= seq![4u8, 0]) by {
        reveal_with_fuel(le_bytes, 3);
    }
    assert(le_bytes(32, 2) =~= seq![32u8, 0]) by {
        reveal_with_fuel(le_bytes, 3);
    }
    assert(riff_head(n) =~= seq![
        82u8, 73, 70, 70,
        ((n + 36) % 0x100) as u8, ((n + 36) / 0x100 % 0x100) as u8,
        ((n + 36) / 0x1_0000 % 0x100) as u8, ((n + 36) / 0x100_0000 % 0x100) as u8,
        87, 65, 86, 69,
    ]);
    assert(format_chunk() =~= seq![
        102u8, 109, 116, 32, 16, 0, 0, 0, 3, 0, 1, 0,
        0x80, 0x3e, 0, 0, 0, 0xfa, 0, 0,
        4, 0, 32, 0,
    ]);
    assert(data_head(n) =~= seq![
        100u8, 97, 116, 97,
        (n % 0x100) as u8, (n / 0x100 % 0x100) as u8,
        (n / 0x1_0000 % 0x100) as u8, (n / 0x100_0000 % 0x100) as u8,
    ]);
    assert(wav_header(n) =~= seq![
        82u8, 73, 70, 70,
        ((n + 36) % 0x100) as u8, ((n + 36) / 0x100 % 0x100) as u8,
        ((n + 36) / 0x1_0000 % 0x100) as u8, ((n + 36) / 0x100_0000 % 0x100) as u8,
        87, 65, 86, 69,
        102, 109, 116, 32, 16, 0, 0, 0, 3, 0, 1, 0,
        0x80, 0x3e, 0, 0, 0, 0xfa, 0, 0,
        4, 0, 32, 0,
        100, 97, 116, 97,
        (n % 0x100) as u8, (n / 0x100 % 0x100) as u8,
        (n / 0x1_0000 % 0x100) as u8, (n / 0x100_0000 % 0x100) as u8,
    ]);
}

/// Jobs, requests, cues, segments and frames are seen as they are.
pub proof fn chunks_are_seen_as_they_are(
    job: Job,
    pending: Pending,
    cue: Cue,
    segment: Segment,
    frame: Frame,
)
    ensures
        job@.ts_ms == job.ts_ms && job@.flag == job.flag && job@.status == job.status,
        job@.language == job.language@ && job@.audio == job.audio@,
        pending@.ts_ms == pending.ts_ms && pending@.flag == pending.flag && pending@.status
            == pending.status && pending@.language == pending.language@,
        cue@.start_ms == cue.start_ms && cue@.end_ms == cue.end_ms && cue@.text == cue.text@,
        segment@.start == segment.start && segment@.end == segment.end && segment@.text
            == segment.text@,
        frame@.code == frame.code && frame@.body == frame.body@,
{
}

/// Lists of cues and frames, and the desk, are seen as they are: each item in its place.
pub proof fn lists_are_seen_as_they_are(cues: Seq<Cue>, frames: Seq<Frame>, desk: Desk)
    ensures
        cue_views(cues).len() == cues.len(),
        forall|i: int| 0 <= i < cues.len() ==> #[trigger] cue_views(cues)[i] == cues[i]@,
        frame_views(frames).len() == frames.len(),
        forall|i: int| 0 <= i < frames.len() ==> #[trigger] frame_views(frames)[i] == frames[i]@,
        desk@.waiting.len() == desk.waiting@.len(),
        forall|i: int|
            0 <= i < desk.waiting@.len() ==> #[trigger] desk@.waiting[i] == desk.waiting@[i]@,
        desk@.answers.len() == desk.answers@.len(),
        forall|i: int|
            0 <= i < desk.answers@.len() ==> #[trigger] desk@.answers[i] == frame_views(
                desk.answers@[i]@,
            ),
{
}

} // verus!
