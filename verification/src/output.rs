//! The outputs that whisper.cpp offers: lines on the console, and TXT, SRT, VTT, JSON,
//! LRC and CSV files.
//!
//! Times come in as whole numbers that the caller has made from the seconds of a
//! transcription.
use crate::args::{Args, ArgsView};
use crate::config::text_of;
use crate::json::{
    empty_object, from_boolean, from_integer, from_list, from_text, json_list, json_of, json_pretty, pretty, put, Json,
    JsonNumber,
};
use crate::number::{
    decimal, decimal_digits, padded_decimal_length, padded_decimal_reads_back, plain_value, push_decimal, push_padded,
    push_signed, signed_decimal, zero_padded,
};
use crate::text::{chars_of, push_str, replace, replaced, string_of, trim, trimmed};
use vstd::prelude::*;

verus! {

/// A segment with its times as the outputs show them.
pub struct TimedSegment {
    /// Start and end in milliseconds, rounded to the nearest.
    pub start_ms: i64,
    pub end_ms: i64,
    /// Start and end in milliseconds, cut to whole ones.
    pub start_whole_ms: i64,
    pub end_whole_ms: i64,
    /// Start in seconds, cut to whole ones.
    pub start_s: i64,
    /// The seconds of the start past its minute, as an LRC file shows them.
    pub lrc_seconds: String,
    pub text: String,
}

pub struct TimedSegmentView {
    pub start_ms: i64,
    pub end_ms: i64,
    pub start_whole_ms: i64,
    pub end_whole_ms: i64,
    pub start_s: i64,
    pub lrc_seconds: Seq<char>,
    pub text: Seq<char>,
}

impl View for TimedSegment {
    type V = TimedSegmentView;

    open spec fn view(&self) -> TimedSegmentView {
        TimedSegmentView {
            start_ms: self.start_ms,
            end_ms: self.end_ms,
            start_whole_ms: self.start_whole_ms,
            end_whole_ms: self.end_whole_ms,
            start_s: self.start_s,
            lrc_seconds: self.lrc_seconds@,
            text: self.text@,
        }
    }
}

pub open spec fn timed_views(segments: Seq<TimedSegment>) -> Seq<TimedSegmentView> {
    Seq::new(segments.len(), |i: int| segments[i]@)
}

/// A time as `hours:minutes:seconds` and milliseconds, behind a comma or a point. A
/// time before zero shows as zero.
pub open spec fn timestamp(ms: int, comma: bool) -> Seq<char> {
    let t: int = if ms < 0 {
        0
    } else {
        ms
    };
    zero_padded(decimal((t / 3_600_000) as nat), 2) + seq![':'] + zero_padded(
        decimal((t % 3_600_000 / 60_000) as nat),
        2,
    ) + seq![':'] + zero_padded(decimal((t % 60_000 / 1_000) as nat), 2) + seq![
        if comma {
            ','
        } else {
            '.'
        },
    ] + zero_padded(decimal((t % 1_000) as nat), 3)
}

fn push_ts(out: &mut Vec<char>, ms: i64, comma: bool)
    ensures
        final(out)@ == old(out)@ + timestamp(ms as int, comma),
{
    let t: u64 = if ms < 0 {
        0
    } else {
        ms as u64
    };
    let ghost start = out@;
    push_padded(out, decimal_digits(t / 3_600_000).as_slice(), 2);
    out.push(':');
    push_padded(out, decimal_digits(t % 3_600_000 / 60_000).as_slice(), 2);
    out.push(':');
    push_padded(out, decimal_digits(t % 60_000 / 1_000).as_slice(), 2);
    out.push(
        if comma {
            ','
        } else {
            '.'
        },
    );
    push_padded(out, decimal_digits(t % 1_000).as_slice(), 3);
    assert(out@ =~= start + timestamp(ms as int, comma));
}

/// A time in milliseconds as `hours:minutes:seconds` and milliseconds.
pub fn fmt_ts(ms: i64, comma: bool) -> (r: String)
    ensures
        r@ == timestamp(ms as int, comma),
{
    let mut out: Vec<char> = Vec::new();
    push_ts(&mut out, ms, comma);
    assert(out@ =~= timestamp(ms as int, comma));
    string_of(out.as_slice())
}

/// The span of a segment: `start --> end`.
pub open spec fn span(s: TimedSegmentView, comma: bool) -> Seq<char> {
    timestamp(s.start_ms as int, comma) + " --> "@ + timestamp(s.end_ms as int, comma)
}

fn push_span(out: &mut Vec<char>, s: &TimedSegment, comma: bool)
    ensures
        final(out)@ == old(out)@ + span(s@, comma),
{
    let ghost start = out@;
    push_ts(out, s.start_ms, comma);
    push_str(out, " --> ");
    push_ts(out, s.end_ms, comma);
    assert(out@ =~= start + span(s@, comma));
}

fn push_trimmed(out: &mut Vec<char>, text: &str)
    ensures
        final(out)@ == old(out)@ + trimmed(text@),
{
    let cs = chars_of(text);
    let t = trim(cs.as_slice());
    out.extend_from_slice(t);
    assert(out@ =~= old(out)@ + trimmed(text@));
}

/// A segment as the console shows it.
pub open spec fn console_line(s: TimedSegmentView, no_timestamps: bool) -> Seq<char> {
    if no_timestamps {
        trimmed(s.text) + seq!['\n']
    } else {
        seq!['['] + span(s, false) + "]  "@ + trimmed(s.text) + seq!['\n']
    }
}

/// A segment of an SRT file, with its number.
pub open spec fn srt_entry(s: TimedSegmentView, number: nat) -> Seq<char> {
    decimal(number) + seq!['\n'] + span(s, true) + seq!['\n'] + trimmed(s.text) + "\n\n"@
}

/// A segment of a VTT file.
pub open spec fn vtt_entry(s: TimedSegmentView) -> Seq<char> {
    span(s, false) + seq!['\n'] + trimmed(s.text) + "\n\n"@
}

/// The whole minutes of a time in seconds, cut towards zero.
pub open spec fn minutes_of(seconds: int) -> int {
    if seconds < 0 {
        -((-seconds) / 60)
    } else {
        seconds / 60
    }
}

/// The whole minutes of a time in seconds.
pub fn lrc_minutes(seconds: i64) -> (r: i64)
    ensures
        r == minutes_of(seconds as int),
{
    if seconds < 0 {
        let magnitude: u64 = if seconds == i64::MIN {
            0x8000_0000_0000_0000
        } else {
            (-seconds) as u64
        };
        -((magnitude / 60) as i64)
    } else {
        seconds / 60
    }
}

/// A segment of an LRC file.
pub open spec fn lrc_entry(s: TimedSegmentView) -> Seq<char> {
    seq!['['] + signed_decimal(minutes_of(s.start_s as int), 2) + seq![':'] + s.lrc_seconds + seq![
        ']',
    ] + trimmed(s.text) + seq!['\n']
}

/// A segment of a CSV file; quotes in its text are doubled.
pub open spec fn csv_entry(s: TimedSegmentView) -> Seq<char> {
    signed_decimal(s.start_whole_ms as int, 1) + seq![','] + signed_decimal(
        s.end_whole_ms as int,
        1,
    ) + seq![',', '"'] + replaced(s.text, seq!['"'], seq!['"', '"']) + seq!['"', '\n']
}

/// The outputs that list segments one by one.
#[derive(Clone, Copy)]
pub enum Listing {
    Console { no_timestamps: bool },
    Srt,
    Vtt,
    Lrc,
    Csv,
}

impl Listing {
    /// What stands before the first segment.
    pub open spec fn heading(self) -> Seq<char> {
        match self {
            Listing::Vtt => "WEBVTT\n\n"@,
            Listing::Csv => "start,end,text\n"@,
            _ => seq![],
        }
    }

    /// A segment, the `number`-th from one.
    pub open spec fn entry(self, s: TimedSegmentView, number: nat) -> Seq<char> {
        match self {
            Listing::Console { no_timestamps } => console_line(s, no_timestamps),
            Listing::Srt => srt_entry(s, number),
            Listing::Vtt => vtt_entry(s),
            Listing::Lrc => lrc_entry(s),
            Listing::Csv => csv_entry(s),
        }
    }

    /// The heading, then the segments in their order.
    pub open spec fn contents(self, segments: Seq<TimedSegmentView>) -> Seq<char>
        decreases segments.len(),
    {
        if segments.len() == 0 {
            self.heading()
        } else {
            self.contents(segments.drop_last()) + self.entry(segments.last(), segments.len())
        }
    }
}

fn push_console_line(out: &mut Vec<char>, s: &TimedSegment, no_timestamps: bool)
    ensures
        final(out)@ == old(out)@ + console_line(s@, no_timestamps),
{
    let ghost start = out@;
    if no_timestamps {
        push_trimmed(out, s.text.as_str());
        out.push('\n');
        assert(out@ =~= start + console_line(s@, no_timestamps));
    } else {
        out.push('[');
        push_span(out, s, false);
        push_str(out, "]  ");
        push_trimmed(out, s.text.as_str());
        out.push('\n');
        assert(out@ =~= start + console_line(s@, no_timestamps));
    }
}

fn push_srt_entry(out: &mut Vec<char>, s: &TimedSegment, number: u64)
    ensures
        final(out)@ == old(out)@ + srt_entry(s@, number as nat),
{
    let ghost start = out@;
    push_decimal(out, number);
    out.push('\n');
    push_span(out, s, true);
    out.push('\n');
    push_trimmed(out, s.text.as_str());
    push_str(out, "\n\n");
    assert(out@ =~= start + srt_entry(s@, number as nat));
}

fn push_vtt_entry(out: &mut Vec<char>, s: &TimedSegment)
    ensures
        final(out)@ == old(out)@ + vtt_entry(s@),
{
    let ghost start = out@;
    push_span(out, s, false);
    out.push('\n');
    push_trimmed(out, s.text.as_str());
    push_str(out, "\n\n");
    assert(out@ =~= start + vtt_entry(s@));
}

fn push_lrc_entry(out: &mut Vec<char>, s: &TimedSegment)
    ensures
        final(out)@ == old(out)@ + lrc_entry(s@),
{
    let ghost start = out@;
    out.push('[');
    push_signed(out, lrc_minutes(s.start_s), 2);
    out.push(':');
    push_str(out, s.lrc_seconds.as_str());
    out.push(']');
    push_trimmed(out, s.text.as_str());
    out.push('\n');
    assert(out@ =~= start + lrc_entry(s@));
}

fn push_csv_entry(out: &mut Vec<char>, s: &TimedSegment)
    ensures
        final(out)@ == old(out)@ + csv_entry(s@),
{
    let ghost start = out@;
    push_signed(out, s.start_whole_ms, 1);
    out.push(',');
    push_signed(out, s.end_whole_ms, 1);
    out.push(',');
    out.push('"');
    let quote: [char; 1] = ['"'];
    let doubled: [char; 2] = ['"', '"'];
    assert(quote@ =~= seq!['"']);
    assert(doubled@ =~= seq!['"', '"']);
    let text = replace(chars_of(s.text.as_str()).as_slice(), &quote, &doubled);
    out.extend_from_slice(text.as_slice());
    out.push('"');
    out.push('\n');
    assert(out@ =~= start + csv_entry(s@));
}

impl Listing {
    /// A listing of segments.
    pub fn render(&self, segments: &[TimedSegment]) -> (r: String)
        ensures
            r@ == self.contents(timed_views(segments@)),
    {
        let mut out: Vec<char> = Vec::new();
        match self {
            Listing::Vtt => push_str(&mut out, "WEBVTT\n\n"),
            Listing::Csv => push_str(&mut out, "start,end,text\n"),
            _ => {},
        }
        assert(out@ =~= self.heading());
        let ghost views = timed_views(segments@);
        assert(views.take(0).len() == 0);
        for i in 0..segments.len()
            invariant
                views == timed_views(segments@),
                out@ == self.contents(views.take(i as int)),
        {
            let s = &segments[i];
            assert(views.take(i + 1).drop_last() =~= views.take(i as int));
            assert(views.take(i + 1).last() == s@);
            match self {
                Listing::Console { no_timestamps } => push_console_line(
                    &mut out,
                    s,
                    *no_timestamps,
                ),
                Listing::Srt => push_srt_entry(&mut out, s, i as u64 + 1),
                Listing::Vtt => push_vtt_entry(&mut out, s),
                Listing::Lrc => push_lrc_entry(&mut out, s),
                Listing::Csv => push_csv_entry(&mut out, s),
            }
        }
        assert(views.take(segments@.len() as int) =~= views);
        string_of(out.as_slice())
    }
}

/// A segment of a JSON document.
pub open spec fn json_segment(s: TimedSegmentView) -> Json {
    Json::Object(
        map![
            "timestamps"@ => Json::Object(map![
                "from"@ => Json::Text(timestamp(s.start_ms as int, true)),
                "to"@ => Json::Text(timestamp(s.end_ms as int, true)),
            ]),
            "offsets"@ => Json::Object(map![
                "from"@ => Json::Number(JsonNumber::Integer(s.start_whole_ms as int)),
                "to"@ => Json::Number(JsonNumber::Integer(s.end_whole_ms as int)),
            ]),
            "text"@ => Json::Text(s.text),
        ],
    )
}

/// The JSON document of a transcription.
pub open spec fn json_document(
    segments: Seq<TimedSegmentView>,
    lang: Seq<char>,
    translate: bool,
) -> Json {
    Json::Object(
        map![
            "systeminfo"@ => Json::Text("whisper-proxy-rs"@),
            "model"@ => Json::Object(map![ "type"@ => Json::Text("remote"@) ]),
            "params"@ => Json::Object(map![
                "language"@ => Json::Text(lang),
                "translate"@ => Json::Boolean(translate),
            ]),
            "result"@ => Json::Object(map![ "language"@ => Json::Text(lang) ]),
            "transcription"@ => Json::Array(
                Seq::new(segments.len(), |i: int| json_segment(segments[i])),
            ),
        ],
    )
}

fn segment_value(s: &TimedSegment) -> (r: serde_json::Value)
    ensures
        json_of(r) == json_segment(s@),
{
    let mut timestamps = empty_object();
    put(&mut timestamps, "from", from_text(fmt_ts(s.start_ms, true).as_str()));
    put(&mut timestamps, "to", from_text(fmt_ts(s.end_ms, true).as_str()));
    let mut offsets = empty_object();
    put(&mut offsets, "from", from_integer(s.start_whole_ms));
    put(&mut offsets, "to", from_integer(s.end_whole_ms));
    let mut r = empty_object();
    put(&mut r, "timestamps", timestamps);
    put(&mut r, "offsets", offsets);
    put(&mut r, "text", from_text(s.text.as_str()));
    r
}

fn document_value(segments: &[TimedSegment], lang: &str, translate: bool) -> (r: serde_json::Value)
    ensures
        json_of(r) == json_document(timed_views(segments@), lang@, translate),
{
    let mut transcription: Vec<serde_json::Value> = Vec::new();
    for i in 0..segments.len()
        invariant
            transcription@.len() == i,
            forall|j: int|
                0 <= j < i ==> json_of(#[trigger] transcription@[j]) == json_segment(
                    segments@[j]@,
                ),
    {
        transcription.push(segment_value(&segments[i]));
    }
    assert(json_list(transcription@) =~= Seq::new(
        timed_views(segments@).len(),
        |i: int| json_segment(timed_views(segments@)[i]),
    ));
    let mut model = empty_object();
    put(&mut model, "type", from_text("remote"));
    let mut params = empty_object();
    put(&mut params, "language", from_text(lang));
    put(&mut params, "translate", from_boolean(translate));
    let mut result = empty_object();
    put(&mut result, "language", from_text(lang));
    let mut r = empty_object();
    put(&mut r, "systeminfo", from_text("whisper-proxy-rs"));
    put(&mut r, "model", model);
    put(&mut r, "params", params);
    put(&mut r, "result", result);
    put(&mut r, "transcription", from_list(transcription));
    r
}

/// A file to write.
pub struct OutputFile {
    pub path: String,
    pub contents: String,
}

#[verifier::ext_equal]
pub struct FileView {
    pub path: Seq<char>,
    pub contents: Seq<char>,
}

impl View for OutputFile {
    type V = FileView;

    open spec fn view(&self) -> FileView {
        FileView { path: self.path@, contents: self.contents@ }
    }
}

pub open spec fn file_views(files: Seq<OutputFile>) -> Seq<FileView> {
    Seq::new(files.len(), |i: int| files[i]@)
}

/// The files that a transcription asks for, in the order in which they are written. A
/// document that could not be made stops the writing after the files before it.
pub struct Outputs {
    pub files: Vec<OutputFile>,
    pub failure: Option<String>,
}

pub struct OutputsView {
    pub files: Seq<FileView>,
    pub failure: Option<Seq<char>>,
}

impl View for Outputs {
    type V = OutputsView;

    open spec fn view(&self) -> OutputsView {
        OutputsView { files: file_views(self.files@), failure: text_of(self.failure) }
    }
}

/// The list with a file, if it is wanted.
pub open spec fn with_file(
    files: Seq<FileView>,
    wanted: bool,
    prefix: Seq<char>,
    extension: Seq<char>,
    contents: Seq<char>,
) -> Seq<FileView> {
    if wanted {
        files.push(FileView { path: prefix + extension, contents })
    } else {
        files
    }
}

/// The files that come before the JSON document.
pub open spec fn files_before_json(
    args: ArgsView,
    prefix: Seq<char>,
    segments: Seq<TimedSegmentView>,
    full_text: Seq<char>,
) -> Seq<FileView> {
    let txt = with_file(seq![], args.out_txt, prefix, ".txt"@, full_text);
    let srt = with_file(txt, args.out_srt, prefix, ".srt"@, Listing::Srt.contents(segments));
    with_file(srt, args.out_vtt, prefix, ".vtt"@, Listing::Vtt.contents(segments))
}

/// The files, with those that come after the JSON document.
pub open spec fn files_after_json(
    files: Seq<FileView>,
    args: ArgsView,
    prefix: Seq<char>,
    segments: Seq<TimedSegmentView>,
) -> Seq<FileView> {
    let lrc = with_file(files, args.out_lrc, prefix, ".lrc"@, Listing::Lrc.contents(segments));
    with_file(lrc, args.out_csv, prefix, ".csv"@, Listing::Csv.contents(segments))
}

/// The files that the arguments ask for, given what came of writing the JSON document.
/// Without a prefix there are none.
pub open spec fn arranged(
    args: ArgsView,
    segments: Seq<TimedSegmentView>,
    full_text: Seq<char>,
    json: Result<Seq<char>, Seq<char>>,
) -> OutputsView {
    match args.output_prefix {
        None => OutputsView { files: seq![], failure: None },
        Some(prefix) => {
            let before = files_before_json(args, prefix, segments, full_text);
            if args.out_json || args.out_json_full {
                match json {
                    Ok(text) => OutputsView {
                        files: files_after_json(
                            with_file(before, true, prefix, ".json"@, text),
                            args,
                            prefix,
                            segments,
                        ),
                        failure: None,
                    },
                    Err(message) => OutputsView { files: before, failure: Some(message) },
                }
            } else {
                OutputsView {
                    files: files_after_json(before, args, prefix, segments),
                    failure: None,
                }
            }
        },
    }
}

fn add_file(files: &mut Vec<OutputFile>, prefix: &str, extension: &str, contents: String)
    ensures
        file_views(final(files)@) == with_file(
            file_views(old(files)@),
            true,
            prefix@,
            extension@,
            contents@,
        ),
{
    let mut path = chars_of(prefix);
    push_str(&mut path, extension);
    let ghost view = FileView { path: path@, contents: contents@ };
    files.push(OutputFile { path: string_of(path.as_slice()), contents });
    assert(file_views(files@) =~= file_views(old(files)@).push(view));
}

fn add_files_after_json(
    files: &mut Vec<OutputFile>,
    args: &Args,
    prefix: &str,
    segments: &[TimedSegment],
)
    ensures
        file_views(final(files)@) == files_after_json(
            file_views(old(files)@),
            args@,
            prefix@,
            timed_views(segments@),
        ),
{
    if args.out_lrc {
        add_file(files, prefix, ".lrc", Listing::Lrc.render(segments));
    }
    if args.out_csv {
        add_file(files, prefix, ".csv", Listing::Csv.render(segments));
    }
}

fn list_files_before_json(
    args: &Args,
    prefix: &str,
    segments: &[TimedSegment],
    full_text: &str,
) -> (files: Vec<OutputFile>)
    ensures
        file_views(files@) == files_before_json(
            args@,
            prefix@,
            timed_views(segments@),
            full_text@,
        ),
{
    let mut files: Vec<OutputFile> = Vec::new();
    assert(file_views(files@) =~= seq![]);
    if args.out_txt {
        add_file(&mut files, prefix, ".txt", string_of(chars_of(full_text).as_slice()));
    }
    if args.out_srt {
        add_file(&mut files, prefix, ".srt", Listing::Srt.render(segments));
    }
    if args.out_vtt {
        add_file(&mut files, prefix, ".vtt", Listing::Vtt.render(segments));
    }
    files
}

/// The files that the arguments ask for, given what came of writing the JSON document.
pub fn arrange_outputs(
    args: &Args,
    segments: &[TimedSegment],
    full_text: &str,
    json: Result<String, String>,
) -> (r: Outputs)
    ensures
        r@ == arranged(
            args@,
            timed_views(segments@),
            full_text@,
            match json {
                Ok(text) => Ok(text@),
                Err(message) => Err(message@),
            },
        ),
{
    match &args.output_prefix {
        None => {
            let files: Vec<OutputFile> = Vec::new();
            assert(file_views(files@) =~= seq![]);
            Outputs { files, failure: None }
        },
        Some(prefix) => {
            let mut files = list_files_before_json(args, prefix.as_str(), segments, full_text);
            if args.out_json || args.out_json_full {
                match json {
                    Ok(text) => add_file(&mut files, prefix.as_str(), ".json", text),
                    Err(message) => {
                        return Outputs { files, failure: Some(message) };
                    },
                }
            }
            add_files_after_json(&mut files, args, prefix.as_str(), segments);
            Outputs { files, failure: None }
        },
    }
}

/// The files that the arguments ask for.
pub fn render_outputs(args: &Args, segments: &[TimedSegment], full_text: &str, lang: &str) -> (r:
    Outputs)
    ensures
        r@ == arranged(
            args@,
            timed_views(segments@),
            full_text@,
            json_pretty(json_document(timed_views(segments@), lang@, args.translate)),
        ),
{
    let json = if args.out_json || args.out_json_full {
        pretty(&document_value(segments, lang, args.translate))
    } else {
        Ok(String::new())
    };
    arrange_outputs(args, segments, full_text, json)
}

/// What the console shows of a transcription: every segment, unless printing is off.
pub open spec fn console_text(args: ArgsView, segments: Seq<TimedSegmentView>) -> Seq<char> {
    if args.no_prints {
        seq![]
    } else {
        (Listing::Console { no_timestamps: args.no_timestamps }).contents(segments)
    }
}

/// What the console shows of a transcription.
pub fn console_output(args: &Args, segments: &[TimedSegment]) -> (r: String)
    ensures
        r@ == console_text(args@, timed_views(segments@)),
{
    if args.no_prints {
        String::new()
    } else {
        (Listing::Console { no_timestamps: args.no_timestamps }).render(segments)
    }
}

/// A timestamp names its time: the last three digits are milliseconds, the two digits
/// before them seconds below 60, those before them minutes below 60, and all that comes
/// first are hours.
#[verifier::spinoff_prover]
pub proof fn timestamp_reads_back(ms: int, comma: bool)
    requires
        ms >= 0,
    ensures
        ({
            let t = timestamp(ms, comma);
            let n = t.len() as int;
            let hours = plain_value(t.take(n - 10));
            let minutes = plain_value(t.subrange(n - 9, n - 7));
            let seconds = plain_value(t.subrange(n - 6, n - 4));
            let milliseconds = plain_value(t.subrange(n - 3, n));
            &&& n >= 12
            &&& t[n - 10] == ':'
            &&& t[n - 7] == ':'
            &&& t[n - 4] == if comma {
                ','
            } else {
                '.'
            }
            &&& hours is Some
            &&& minutes is Some
            &&& seconds is Some
            &&& milliseconds is Some
            &&& minutes->0 < 60
            &&& seconds->0 < 60
            &&& ((hours->0 * 60 + minutes->0) * 60 + seconds->0) * 1000 + milliseconds->0 == ms
        }),
{
    let h = (ms / 3_600_000) as nat;
    let m = (ms % 3_600_000 / 60_000) as nat;
    let s = (ms % 60_000 / 1_000) as nat;
    let f = (ms % 1_000) as nat;
    padded_decimal_reads_back(h, 2);
    padded_decimal_reads_back(m, 2);
    padded_decimal_reads_back(s, 2);
    padded_decimal_reads_back(f, 3);
    padded_decimal_length(m, 2);
    padded_decimal_length(s, 2);
    padded_decimal_length(f, 3);
    pieces_of_a_time(
        zero_padded(decimal(h), 2),
        zero_padded(decimal(m), 2),
        zero_padded(decimal(s), 2),
        if comma {
            ','
        } else {
            '.'
        },
        zero_padded(decimal(f), 3),
    );
}

proof fn pieces_of_a_time(h: Seq<char>, m: Seq<char>, s: Seq<char>, c: char, f: Seq<char>)
    requires
        m.len() == 2,
        s.len() == 2,
        f.len() == 3,
    ensures
        ({
            let t = h + seq![':'] + m + seq![':'] + s + seq![c] + f;
            let n = t.len() as int;
            &&& n == h.len() + 10
            &&& t.take(n - 10) == h
            &&& t[n - 10] == ':'
            &&& t.subrange(n - 9, n - 7) == m
            &&& t[n - 7] == ':'
            &&& t.subrange(n - 6, n - 4) == s
            &&& t[n - 4] == c
            &&& t.subrange(n - 3, n) == f
        }),
{
    let t = h + seq![':'] + m + seq![':'] + s + seq![c] + f;
    let n = t.len() as int;
    assert(t.take(n - 10) =~= h);
    assert(t.subrange(n - 9, n - 7) =~= m);
    assert(t.subrange(n - 6, n - 4) =~= s);
    assert(t.subrange(n - 3, n) =~= f);
}

/// A time before zero shows as zero.
pub proof fn negative_time_shows_as_zero(ms: int, comma: bool)
    requires
        ms < 0,
    ensures
        timestamp(ms, comma) == timestamp(0, comma),
{
}

/// The text of a quoted CSV field, read from behind its opening quote up to the quote
/// that closes it, and what follows. Two quotes stand for one.
pub open spec fn quoted_field(s: Seq<char>) -> (Seq<char>, Seq<char>)
    decreases s.len(),
{
    if s.len() == 0 {
        (seq![], seq![])
    } else if s[0] != '"' {
        let (text, rest) = quoted_field(s.drop_first());
        (seq![s[0]] + text, rest)
    } else if s.len() > 1 && s[1] == '"' {
        let (text, rest) = quoted_field(s.skip(2));
        (seq!['"'] + text, rest)
    } else {
        (seq![], s.drop_first())
    }
}

/// Whatever a segment says, a CSV reader gets it back, and with it the end of the line.
pub proof fn csv_text_reads_back(text: Seq<char>, rest: Seq<char>)
    requires
        rest.len() > 0 ==> rest[0] != '"',
    ensures
        quoted_field(replaced(text, seq!['"'], seq!['"', '"']) + seq!['"'] + rest) == (text, rest),
    decreases text.len(),
{
    let quote = seq!['"'];
    let doubled = seq!['"', '"'];
    let s = replaced(text, quote, doubled) + quote + rest;
    if text.len() == 0 {
        assert(s.drop_first() =~= rest);
        assert(text =~= seq![]);
    } else {
        let tail = text.drop_first();
        csv_text_reads_back(tail, rest);
        let t = replaced(tail, quote, doubled) + quote + rest;
        assert(text =~= seq![text[0]] + tail);
        if text[0] == '"' {
            assert(quote.is_prefix_of(text));
            assert(text.skip(1) =~= tail);
            assert(s =~= doubled + t);
            assert(s.skip(2) =~= t);
        } else {
            if quote.is_prefix_of(text) {
                assert(quote[0] == text[0]);
            }
            assert(s =~= seq![text[0]] + t);
            assert(s.drop_first() =~= t);
        }
    }
}

} // verus!
