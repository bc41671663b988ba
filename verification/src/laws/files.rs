//! File mode: what is sent for a file, what is shown and written of it, and how it ends.
use crate::args::ArgsView;
use crate::batch::{
    mime_of, request_for_file, run_code, transcript_of, unreadable_file, untranscribed_file, unwritten_output,
    Failure, Transcript,
};
use crate::config::{text_of, ConfigView};
use crate::json::{Json, JsonNumber};
use crate::laws::exchange::{goes_to, where_a_request_goes};
use crate::laws::numerals::{numbers_are_written_short, padding_is_zeros};
use crate::number::{decimal, padded_decimal_length, plain_value, signed_decimal, zero_padded};
use crate::output::{
    arranged, console_text, csv_text_reads_back, file_views, files_before_json, json_document, minutes_of,
    quoted_field, span, timed_views, timestamp, timestamp_reads_back, with_file, FileView, Listing, OutputFile,
    Outputs, TimedSegment, TimedSegmentView,
};
use crate::text::{lower, replaced, trimmed};
use crate::whisper_client::{call_of, segment_views, TranscribeErrorView, TranscribeResultView};
use vstd::prelude::*;

verus! {

/// A time that is not before zero.
pub open spec fn from_zero(ms: int) -> int {
    if ms < 0 {
        0
    } else {
        ms
    }
}

/// Whether a text shows a time: hours, minutes and seconds of two digits with colons
/// between them, a comma or a point, and milliseconds of three digits. Only hours can
/// have more digits, and then no zero before them.
pub open spec fn shows_time(t: Seq<char>, comma: bool, ms: int) -> bool {
    let n = t.len() as int;
    let hours = plain_value(t.take(n - 10));
    let minutes = plain_value(t.subrange(n - 9, n - 7));
    let seconds = plain_value(t.subrange(n - 6, n - 4));
    let milliseconds = plain_value(t.subrange(n - 3, n));
    &&& n >= 12
    &&& n > 12 ==> t[0] != '0'
    &&& t[n - 10] == ':'
    &&& t[n - 7] == ':'
    &&& t[n - 4] == if comma {
        ','
    } else {
        '.'
    }
    &&& hours is Some && minutes is Some && seconds is Some && milliseconds is Some
    &&& minutes->0 < 60 && seconds->0 < 60
    &&& hours->0 * 3_600_000 + minutes->0 * 60_000 + seconds->0 * 1000 + milliseconds->0 == ms
}

/// A timestamp shows its time, and zero for a time before zero.
pub proof fn a_timestamp_shows_its_time(ms: int, comma: bool)
    ensures
        shows_time(timestamp(ms, comma), comma, from_zero(ms)),
{
    let at = from_zero(ms);
    assert(timestamp(ms, comma) == timestamp(at, comma));
    timestamp_reads_back(at, comma);
    let h = (at / 3_600_000) as nat;
    let t = timestamp(at, comma);
    padded_decimal_length((at % 3_600_000 / 60_000) as nat, 2);
    padded_decimal_length((at % 60_000 / 1_000) as nat, 2);
    padded_decimal_length((at % 1_000) as nat, 3);
    padding_is_zeros(decimal(h), 2);
    numbers_are_written_short(h);
    assert(t.len() == zero_padded(decimal(h), 2).len() + 10);
    if t.len() > 12 {
        assert(zero_padded(decimal(h), 2) =~= decimal(h));
        assert(t[0] == decimal(h)[0]);
    }
}

/// Whether a text shows a start, an arrow and an end.
pub open spec fn shows_span(x: Seq<char>, comma: bool, start: int, end: int) -> bool {
    exists|n: int|
        0 <= n && n + 5 <= x.len() && x.subrange(n, n + 5) == " --> "@ && #[trigger] shows_time(
            x.take(n),
            comma,
            start,
        ) && shows_time(x.skip(n + 5), comma, end)
}

/// What stands before the arrow is the start of the segment, and what stands behind it is
/// its end.
pub proof fn a_span_shows_start_and_end(s: TimedSegmentView, comma: bool)
    ensures
        shows_span(span(s, comma), comma, from_zero(s.start_ms as int), from_zero(s.end_ms as int)),
{
    reveal_strlit(" --> ");
    assert(" --> "@.len() == 5);
    let x = span(s, comma);
    let a = timestamp(s.start_ms as int, comma);
    let b = timestamp(s.end_ms as int, comma);
    let n = a.len() as int;
    a_timestamp_shows_its_time(s.start_ms as int, comma);
    a_timestamp_shows_its_time(s.end_ms as int, comma);
    assert(x.take(n) =~= a);
    assert(x.subrange(n, n + 5) =~= " --> "@);
    assert(x.skip(n + 5) =~= b);
    assert(shows_time(x.take(n), comma, from_zero(s.start_ms as int)));
}

/// An entry of an SRT file: its number, its span with commas, its text without the white
/// space at its ends, and an empty line.
pub proof fn an_srt_entry(s: TimedSegmentView, number: nat)
    ensures
        exists|x: Seq<char>| #[trigger]
            shows_span(x, true, from_zero(s.start_ms as int), from_zero(s.end_ms as int))
                && Listing::Srt.entry(s, number) == decimal(number) + seq!['\n'] + x + seq!['\n']
                + trimmed(s.text) + seq!['\n', '\n'],
{
    reveal_strlit("\n\n");
    assert("\n\n"@ =~= seq!['\n', '\n']);
    a_span_shows_start_and_end(s, true);
}

/// An entry of a VTT file: its span with points, its text without the white space at its
/// ends, and an empty line.
pub proof fn a_vtt_entry(s: TimedSegmentView, number: nat)
    ensures
        exists|x: Seq<char>| #[trigger]
            shows_span(x, false, from_zero(s.start_ms as int), from_zero(s.end_ms as int))
                && Listing::Vtt.entry(s, number) == x + seq!['\n'] + trimmed(s.text) + seq![
                '\n',
                '\n',
            ],
{
    reveal_strlit("\n\n");
    assert("\n\n"@ =~= seq!['\n', '\n']);
    a_span_shows_start_and_end(s, false);
}

/// A line on the console: the span in brackets unless it is not wanted, and the text
/// without the white space at its ends.
pub proof fn a_line_on_the_console(s: TimedSegmentView, number: nat)
    ensures
        (Listing::Console { no_timestamps: true }).entry(s, number) == trimmed(s.text).push('\n'),
        exists|x: Seq<char>| #[trigger]
            shows_span(x, false, from_zero(s.start_ms as int), from_zero(s.end_ms as int)) && (
            Listing::Console { no_timestamps: false }).entry(s, number) == seq!['['] + x + seq![
                ']',
                ' ',
                ' ',
            ] + trimmed(s.text) + seq!['\n'],
{
    reveal_strlit("]  ");
    assert("]  "@ =~= seq![']', ' ', ' ']);
    a_span_shows_start_and_end(s, false);
    assert(trimmed(s.text) + seq!['\n'] =~= trimmed(s.text).push('\n'));
}

/// An entry of an LRC file: in brackets the whole minutes of the start, of two digits at
/// least, and its seconds; then the text without the white space at its ends.
pub proof fn an_lrc_entry(s: TimedSegmentView, number: nat)
    ensures
        exists|m: int|
            (s.start_s >= 0 ==> 0 <= s.start_s - 60 * m < 60) && (s.start_s < 0 ==> -60 < s.start_s
                - 60 * m <= 0) && Listing::Lrc.entry(s, number) == seq!['['] + #[trigger]
            signed_decimal(m, 2) + seq![':'] + s.lrc_seconds + seq![']'] + trimmed(s.text) + seq![
                '\n',
            ],
{
    let m = minutes_of(s.start_s as int);
    assert(Listing::Lrc.entry(s, number) == seq!['['] + signed_decimal(m, 2) + seq![':']
        + s.lrc_seconds + seq![']'] + trimmed(s.text) + seq!['\n']);
}

/// An entry of a CSV file: start and end in whole milliseconds, and a quoted field that is
/// read back as the text, whatever it holds.
pub proof fn a_csv_entry(s: TimedSegmentView, number: nat)
    ensures
        exists|q: Seq<char>|
            Listing::Csv.entry(s, number) == signed_decimal(s.start_whole_ms as int, 1) + seq![',']
                + signed_decimal(s.end_whole_ms as int, 1) + seq![',', '"'] + q && #[trigger]
            quoted_field(q) == (s.text, seq!['\n']),
{
    let r = replaced(s.text, seq!['"'], seq!['"', '"']);
    let q = r + seq!['"'] + seq!['\n'];
    csv_text_reads_back(s.text, seq!['\n']);
    assert(Listing::Csv.entry(s, number) =~= signed_decimal(s.start_whole_ms as int, 1) + seq![',']
        + signed_decimal(s.end_whole_ms as int, 1) + seq![',', '"'] + q);
}

/// A listing starts with its heading, and a segment more stands behind the others, under
/// the next number.
pub proof fn a_listing_lists_every_segment(
    listing: Listing,
    segments: Seq<TimedSegmentView>,
    s: TimedSegmentView,
)
    ensures
        Listing::Srt.contents(seq![]) == Seq::<char>::empty(),
        Listing::Vtt.contents(seq![]) == "WEBVTT\n\n"@,
        Listing::Lrc.contents(seq![]) == Seq::<char>::empty(),
        Listing::Csv.contents(seq![]) == "start,end,text\n"@,
        (Listing::Console { no_timestamps: true }).contents(seq![]) == Seq::<char>::empty(),
        (Listing::Console { no_timestamps: false }).contents(seq![]) == Seq::<char>::empty(),
        listing.contents(segments.push(s)) == listing.contents(segments) + listing.entry(
            s,
            segments.len() + 1,
        ),
{
    assert(segments.push(s).drop_last() =~= segments);
}

/// The console shows all segments, with their times unless they are not wanted, or nothing.
pub proof fn the_console_shows_all_or_nothing(args: ArgsView, segments: Seq<TimedSegmentView>)
    ensures
        args.no_prints ==> console_text(args, segments).len() == 0,
        !args.no_prints ==> console_text(args, segments) == (Listing::Console {
            no_timestamps: args.no_timestamps,
        }).contents(segments),
{
}

/// The file that a flag asks for.
pub open spec fn asked(wanted: bool, path: Seq<char>, contents: Seq<char>) -> Seq<FileView> {
    if wanted {
        seq![FileView { path, contents }]
    } else {
        seq![]
    }
}

/// Each format has its own file, named after the prefix, with its own contents; they are
/// written in this order. Without a prefix there are none. A JSON document that could not
/// be made is told, and stops what would come after it.
pub proof fn every_format_has_its_file(
    args: ArgsView,
    segments: Seq<TimedSegmentView>,
    full_text: Seq<char>,
    json: Result<Seq<char>, Seq<char>>,
)
    ensures
        ({
            let r = arranged(args, segments, full_text, json);
            &&& args.output_prefix is None ==> r.files.len() == 0 && r.failure is None
            &&& args.output_prefix matches Some(p) ==> {
                let wants_json = args.out_json || args.out_json_full;
                let first = asked(args.out_txt, p + ".txt"@, full_text) + asked(
                    args.out_srt,
                    p + ".srt"@,
                    Listing::Srt.contents(segments),
                ) + asked(args.out_vtt, p + ".vtt"@, Listing::Vtt.contents(segments));
                let last = asked(args.out_lrc, p + ".lrc"@, Listing::Lrc.contents(segments))
                    + asked(args.out_csv, p + ".csv"@, Listing::Csv.contents(segments));
                &&& !wants_json ==> r.files == first + last && r.failure is None
                &&& wants_json && json is Ok ==> r.files == first + asked(
                    true,
                    p + ".json"@,
                    json->Ok_0,
                ) + last && r.failure is None
                &&& wants_json && json is Err ==> r.files == first && r.failure == Some(
                    json->Err_0,
                )
            }
        }),
{
    if let Some(p) = args.output_prefix {
        let txt = asked(args.out_txt, p + ".txt"@, full_text);
        let srt = asked(args.out_srt, p + ".srt"@, Listing::Srt.contents(segments));
        let vtt = asked(args.out_vtt, p + ".vtt"@, Listing::Vtt.contents(segments));
        let lrc = asked(args.out_lrc, p + ".lrc"@, Listing::Lrc.contents(segments));
        let csv = asked(args.out_csv, p + ".csv"@, Listing::Csv.contents(segments));
        let first = txt + srt + vtt;
        assert(Seq::<FileView>::empty() + txt =~= txt);
        one_file_more(seq![], args.out_txt, p, ".txt"@, full_text);
        one_file_more(txt, args.out_srt, p, ".srt"@, Listing::Srt.contents(segments));
        one_file_more(txt + srt, args.out_vtt, p, ".vtt"@, Listing::Vtt.contents(segments));
        assert(files_before_json(args, p, segments, full_text) == first);
        one_file_more(first, args.out_lrc, p, ".lrc"@, Listing::Lrc.contents(segments));
        one_file_more(first + lrc, args.out_csv, p, ".csv"@, Listing::Csv.contents(segments));
        assert(first + lrc + csv =~= first + (lrc + csv));
        if let Ok(text) = json {
            let doc = asked(true, p + ".json"@, text);
            one_file_more(first, true, p, ".json"@, text);
            one_file_more(first + doc, args.out_lrc, p, ".lrc"@, Listing::Lrc.contents(segments));
            one_file_more(
                first + doc + lrc,
                args.out_csv,
                p,
                ".csv"@,
                Listing::Csv.contents(segments),
            );
            assert(first + doc + lrc + csv =~= first + doc + (lrc + csv));
        }
    }
}

proof fn one_file_more(
    files: Seq<FileView>,
    wanted: bool,
    prefix: Seq<char>,
    extension: Seq<char>,
    contents: Seq<char>,
)
    ensures
        with_file(files, wanted, prefix, extension, contents) == files + asked(
            wanted,
            prefix + extension,
            contents,
        ),
{
    assert(with_file(files, wanted, prefix, extension, contents) =~= files + asked(
        wanted,
        prefix + extension,
        contents,
    ));
}

/// The JSON document: what made it, the model, what was asked for, the language, and as many
/// items as there are segments.
pub proof fn what_the_json_document_says(
    segments: Seq<TimedSegmentView>,
    lang: Seq<char>,
    translate: bool,
)
    ensures
        ({
            let doc = json_document(segments, lang, translate);
            &&& doc is Object
            &&& doc->Object_0.dom() =~= set![
                "systeminfo"@,
                "model"@,
                "params"@,
                "result"@,
                "transcription"@,
            ]
            &&& doc->Object_0["systeminfo"@] == Json::Text("whisper-proxy-rs"@)
            &&& doc->Object_0["model"@] is Object
            &&& doc->Object_0["model"@]->Object_0 =~= Map::empty().insert(
                "type"@,
                Json::Text("remote"@),
            )
            &&& doc->Object_0["params"@] is Object
            &&& doc->Object_0["params"@]->Object_0 =~= Map::empty().insert(
                "language"@,
                Json::Text(lang),
            ).insert("translate"@, Json::Boolean(translate))
            &&& doc->Object_0["result"@] is Object
            &&& doc->Object_0["result"@]->Object_0 =~= Map::empty().insert(
                "language"@,
                Json::Text(lang),
            )
            &&& doc->Object_0["transcription"@] is Array
            &&& doc->Object_0["transcription"@]->Array_0.len() == segments.len()
        }),
{
    members_differ();
}

/// The item of each segment, in its place: its times as timestamps and in milliseconds, and
/// its text as it is.
pub proof fn every_segment_is_in_the_json_document(
    segments: Seq<TimedSegmentView>,
    lang: Seq<char>,
    translate: bool,
    i: int,
)
    requires
        0 <= i < segments.len(),
    ensures
        ({
            let items = json_document(
                segments,
                lang,
                translate,
            )->Object_0["transcription"@]->Array_0;
            let item = items[i]->Object_0;
            &&& items[i] is Object
            &&& item.dom() =~= set!["timestamps"@, "offsets"@, "text"@]
            &&& item["text"@] == Json::Text(segments[i].text)
            &&& item["offsets"@] is Object
            &&& item["offsets"@]->Object_0 =~= Map::empty().insert(
                "from"@,
                Json::Number(JsonNumber::Integer(segments[i].start_whole_ms as int)),
            ).insert("to"@, Json::Number(JsonNumber::Integer(segments[i].end_whole_ms as int)))
            &&& item["timestamps"@] is Object
            &&& item["timestamps"@]->Object_0.dom() =~= set!["from"@, "to"@]
            &&& item["timestamps"@]->Object_0["from"@] is Text
            &&& item["timestamps"@]->Object_0["to"@] is Text
            &&& shows_time(
                item["timestamps"@]->Object_0["from"@]->Text_0,
                true,
                from_zero(segments[i].start_ms as int),
            )
            &&& shows_time(
                item["timestamps"@]->Object_0["to"@]->Text_0,
                true,
                from_zero(segments[i].end_ms as int),
            )
        }),
{
    members_differ();
    a_timestamp_shows_its_time(segments[i].start_ms as int, true);
    a_timestamp_shows_its_time(segments[i].end_ms as int, true);
}

proof fn members_differ()
    ensures
        "systeminfo"@ != "model"@,
        "systeminfo"@ != "params"@,
        "systeminfo"@ != "result"@,
        "systeminfo"@ != "transcription"@,
        "model"@ != "params"@,
        "model"@ != "result"@,
        "model"@ != "transcription"@,
        "params"@ != "result"@,
        "params"@ != "transcription"@,
        "result"@ != "transcription"@,
        "language"@ != "translate"@,
        "timestamps"@ != "offsets"@,
        "timestamps"@ != "text"@,
        "offsets"@ != "text"@,
        "from"@ != "to"@,
{
    reveal_strlit("systeminfo");
    reveal_strlit("model");
    reveal_strlit("params");
    reveal_strlit("result");
    reveal_strlit("transcription");
    reveal_strlit("language");
    reveal_strlit("translate");
    reveal_strlit("timestamps");
    reveal_strlit("offsets");
    reveal_strlit("text");
    reveal_strlit("from");
    reveal_strlit("to");
    assert("systeminfo"@.len() == 10 && "model"@.len() == 5 && "transcription"@.len() == 13);
    assert("params"@[0] == 'p' && "params"@.len() == 6);
    assert("result"@[0] == 'r' && "result"@.len() == 6);
    assert("language"@.len() == 8 && "translate"@.len() == 9);
    assert("timestamps"@.len() == 10 && "offsets"@.len() == 7 && "text"@.len() == 4);
    assert("from"@.len() == 4 && "to"@.len() == 2);
}

/// Where a file goes: to the server's address without the slashes at its end, and there to
/// the translations exactly if the command line asks for a translation.
pub proof fn where_a_file_goes(
    cfg: ConfigView,
    path: Seq<char>,
    file_name: Option<Seq<char>>,
    bytes: Seq<u8>,
    args: ArgsView,
    boundary: Seq<char>,
)
    ensures
        goes_to(
            call_of(cfg, request_for_file(path, file_name, bytes, args), boundary).endpoint,
            cfg.url,
            args.translate,
        ),
{
    where_a_request_goes(cfg.url, args.translate);
}

/// What is sent for a file: its bytes, its name or `audio.wav`, and the language, the
/// prompt and the wish for a translation of the command line.
pub proof fn what_is_sent_for_a_file(
    path: Seq<char>,
    file_name: Option<Seq<char>>,
    bytes: Seq<u8>,
    args: ArgsView,
)
    ensures
        ({
            let r = request_for_file(path, file_name, bytes, args);
            &&& file_name matches Some(name) ==> r.file_name == name
            &&& file_name is None ==> r.file_name == "audio.wav"@
            &&& r.file_bytes == bytes
            &&& r.mime == mime_of(path)
            &&& r.language == args.language
            &&& r.prompt == args.prompt
            &&& r.translate == args.translate
        }),
{
}

/// The media type follows the end of a file's name, in any case of its letters.
pub proof fn media_types(stem: Seq<char>, path: Seq<char>)
    ensures
        lower(path) == stem + ".wav"@ ==> mime_of(path) == "audio/wav"@,
        lower(path) == stem + ".mp3"@ ==> mime_of(path) == "audio/mpeg"@,
        lower(path) == stem + ".ogg"@ ==> mime_of(path) == "audio/ogg"@,
        lower(path) == stem + ".flac"@ ==> mime_of(path) == "audio/flac"@,
        lower(path) == stem + ".m4a"@ ==> mime_of(path) == "audio/mp4"@,
        !(".wav"@.is_suffix_of(lower(path)) || ".mp3"@.is_suffix_of(lower(path))
            || ".ogg"@.is_suffix_of(lower(path)) || ".flac"@.is_suffix_of(lower(path))
            || ".m4a"@.is_suffix_of(lower(path))) ==> mime_of(path) == "application/octet-stream"@,
{
    reveal_strlit(".wav");
    reveal_strlit(".mp3");
    reveal_strlit(".ogg");
    reveal_strlit(".flac");
    reveal_strlit(".m4a");
    let p = lower(path);
    ends_so(p, stem, ".wav"@);
    ends_so(p, stem, ".mp3"@);
    ends_so(p, stem, ".ogg"@);
    ends_so(p, stem, ".flac"@);
    ends_so(p, stem, ".m4a"@);
    if ".wav"@.is_suffix_of(p) {
        assert(p.last() == 'v');
    }
    if ".mp3"@.is_suffix_of(p) {
        assert(p.last() == '3');
    }
    if ".ogg"@.is_suffix_of(p) {
        assert(p.last() == 'g');
    }
    if ".flac"@.is_suffix_of(p) {
        assert(p.last() == 'c');
    }
    if ".m4a"@.is_suffix_of(p) {
        assert(p.last() == 'a');
    }
    assert(".wav"@.last() == 'v' && ".mp3"@.last() == '3' && ".ogg"@.last() == 'g' && ".flac"@.last()
        == 'c' && ".m4a"@.last() == 'a');
}

proof fn ends_so(p: Seq<char>, stem: Seq<char>, end: Seq<char>)
    ensures
        p == stem + end ==> end.is_suffix_of(p),
        end.len() > 0 && end.is_suffix_of(p) ==> p.last() == end.last(),
{
    if p == stem + end {
        assert(end =~= p.subrange(p.len() - end.len(), p.len() as int));
    }
    if end.len() > 0 && end.is_suffix_of(p) {
        assert(p.subrange(p.len() - end.len(), p.len() as int).last() == p.last());
    }
}

/// The transcript of a file is the reply's; its language is the reply's, else the one that
/// was asked for, else `auto`.
pub proof fn the_transcript_is_the_replys(result: TranscribeResultView, args: ArgsView)
    ensures
        ({
            let t = transcript_of(result, args);
            &&& t.segments == result.segments
            &&& t.full_text == result.full_text
            &&& result.language matches Some(l) ==> t.language == l
            &&& result.language is None && args.language is Some ==> t.language == args.language->0
            &&& result.language is None && args.language is None ==> t.language == "auto"@
        }),
{
}

/// What is printed of a file that failed, and its exit code.
pub proof fn failures_in_words(path: Seq<char>, reason: Seq<char>, error: TranscribeErrorView)
    ensures
        unreadable_file(path, reason).code == 1,
        unreadable_file(path, reason).message == "whisper-proxy: cannot read "@ + path + ": "@ + reason,
        untranscribed_file(error).code == error.exit_code(),
        untranscribed_file(error).message == "whisper-proxy: "@ + error.message(),
        unwritten_output(reason).code == 5,
        unwritten_output(reason).message == "whisper-proxy: write output: "@ + reason,
{
}

/// A run ends with the code of the last file that failed: a file that fails decides, one
/// that does not leaves the code.
pub proof fn the_last_failure_decides(codes: Seq<i32>, more: Seq<i32>, code: i32)
    ensures
        run_code(seq![]) == 0,
        code != 0 && (forall|i: int| 0 <= i < more.len() ==> #[trigger] more[i] == 0) ==> run_code(
            codes.push(code) + more,
        ) == code,
        (forall|i: int| 0 <= i < more.len() ==> #[trigger] more[i] == 0) ==> run_code(codes + more)
            == run_code(codes),
    decreases more.len(),
{
    if forall|i: int| 0 <= i < more.len() ==> #[trigger] more[i] == 0 {
        if more.len() == 0 {
            assert(codes + more =~= codes);
            assert(codes.push(code) + more =~= codes.push(code));
            assert(codes.push(code).last() == code);
        } else {
            let rest = more.drop_last();
            assert forall|i: int| 0 <= i < rest.len() implies #[trigger] rest[i] == 0 by {
                assert(more[i] == 0);
            }
            assert(more[more.len() - 1] == 0);
            the_last_failure_decides(codes, rest, code);
            assert((codes + more).drop_last() =~= codes + rest);
            assert((codes.push(code) + more).drop_last() =~= codes.push(code) + rest);
        }
    }
}

/// Segments, files, outputs, failures and transcripts are seen as they are.
pub proof fn files_are_seen_as_they_are(
    s: TimedSegment,
    file: OutputFile,
    outputs: Outputs,
    failure: Failure,
    transcript: Transcript,
    segments: Seq<TimedSegment>,
    files: Seq<OutputFile>,
)
    ensures
        s@.start_ms == s.start_ms && s@.end_ms == s.end_ms && s@.start_whole_ms == s.start_whole_ms
            && s@.end_whole_ms == s.end_whole_ms && s@.start_s == s.start_s && s@.lrc_seconds
            == s.lrc_seconds@ && s@.text == s.text@,
        file@.path == file.path@ && file@.contents == file.contents@,
        outputs@.files == file_views(outputs.files@) && outputs@.failure == text_of(outputs.failure),
        failure@.code == failure.code && failure@.message == failure.message@,
        transcript@.segments == segment_views(transcript.segments@) && transcript@.full_text
            == transcript.full_text@ && transcript@.language == transcript.language@,
        timed_views(segments).len() == segments.len(),
        forall|i: int|
            0 <= i < segments.len() ==> #[trigger] timed_views(segments)[i] == segments[i]@,
        file_views(files).len() == files.len(),
        forall|i: int| 0 <= i < files.len() ==> #[trigger] file_views(files)[i] == files[i]@,
{
}

} // verus!
