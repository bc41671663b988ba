//! File mode: each input file is read, sent to the server and shown.
//!
//! Reading, sending and writing belong to the caller. The functions here say what is
//! sent for a file, what a reply comes to, and how a file that failed ends the program.
use crate::args::{Args, ArgsView};
use crate::config::{after_ini, load_with, loaded, read_ini, text_of, Config, Environment};
use crate::laws::exchange::goes_to;
use crate::laws::files::where_a_file_goes;
use crate::multipart::{body_of, build_multipart, field_views, request_parts};
use crate::text::{chars_of, ends_with, lower, push_str, string_of, to_lower};
use crate::whisper_client::{
    call_of, outcome_of, prepare, read_reply, segment_views, str_of, HttpCall, HttpReply, Segment, SegmentView,
    TranscribeErrorView, TranscribeRequest, TranscribeRequestView, TranscribeResultView,
};
use vstd::prelude::*;

verus! {

/// Reads an ini text over the settings. A byte order mark is a character like any other.
pub fn parse_ini(text: &str, cfg: &mut Config)
    ensures
        final(cfg)@ == after_ini(old(cfg)@, text@, false),
{
    read_ini(text, false, cfg);
}

/// The settings of file mode: the text of the ini file beside the binary, if it could be
/// read, and the environment.
pub fn load_config(ini: Option<&str>, env: Environment) -> (cfg: Config)
    ensures
        cfg@ == loaded(str_of(ini), env@, false),
{
    load_with(ini, env, false)
}

/// The body of a multipart request.
pub fn multipart(
    boundary: &str,
    fields: &[(&str, &str)],
    file_name: &str,
    file_bytes: &[u8],
    mime: &str,
) -> (body: Vec<u8>)
    ensures
        body@ == body_of(
            boundary@,
            request_parts(field_views(fields@), file_name@, file_bytes@, mime@),
        ),
{
    build_multipart(boundary, fields, file_name, file_bytes, mime)
}

/// The media type that a file's name stands for, in any case of its letters.
pub open spec fn mime_of(path: Seq<char>) -> Seq<char> {
    if ".wav"@.is_suffix_of(lower(path)) {
        "audio/wav"@
    } else if ".mp3"@.is_suffix_of(lower(path)) {
        "audio/mpeg"@
    } else if ".ogg"@.is_suffix_of(lower(path)) {
        "audio/ogg"@
    } else if ".flac"@.is_suffix_of(lower(path)) {
        "audio/flac"@
    } else if ".m4a"@.is_suffix_of(lower(path)) {
        "audio/mp4"@
    } else {
        "application/octet-stream"@
    }
}

/// The media type that a file's name stands for.
pub fn guess_mime(path: &str) -> (r: &'static str)
    ensures
        r@ == mime_of(path@),
{
    let small = to_lower(chars_of(path).as_slice());
    if ends_with(small.as_slice(), chars_of(".wav").as_slice()) {
        "audio/wav"
    } else if ends_with(small.as_slice(), chars_of(".mp3").as_slice()) {
        "audio/mpeg"
    } else if ends_with(small.as_slice(), chars_of(".ogg").as_slice()) {
        "audio/ogg"
    } else if ends_with(small.as_slice(), chars_of(".flac").as_slice()) {
        "audio/flac"
    } else if ends_with(small.as_slice(), chars_of(".m4a").as_slice()) {
        "audio/mp4"
    } else {
        "application/octet-stream"
    }
}

/// The request that transcribes a file. A path that ends in no name is sent as `audio.wav`.
pub open spec fn request_for_file(
    path: Seq<char>,
    file_name: Option<Seq<char>>,
    bytes: Seq<u8>,
    args: ArgsView,
) -> TranscribeRequestView {
    TranscribeRequestView {
        file_name: match file_name {
            Some(name) => name,
            None => "audio.wav"@,
        },
        file_bytes: bytes,
        mime: mime_of(path),
        language: args.language,
        prompt: args.prompt,
        translate: args.translate,
    }
}

fn borrowed<'a>(s: &'a Option<String>) -> (r: Option<&'a str>)
    ensures
        str_of(r) == text_of(*s),
{
    match s {
        Some(t) => Some(t.as_str()),
        None => None,
    }
}

/// The request that transcribes a file.
pub fn file_request<'a>(
    path: &str,
    file_name: Option<&'a str>,
    bytes: &'a [u8],
    args: &'a Args,
) -> (r: TranscribeRequest<'a>)
    ensures
        r@ == request_for_file(path@, str_of(file_name), bytes@, args@),
{
    TranscribeRequest {
        file_name: match file_name {
            Some(name) => name,
            None => "audio.wav",
        },
        file_bytes: bytes,
        mime: guess_mime(path),
        language: borrowed(&args.language),
        prompt: borrowed(&args.prompt),
        translate: args.translate,
    }
}

/// Why a file was not transcribed: what is printed, and the exit code.
pub struct Failure {
    pub code: i32,
    pub message: String,
}

pub struct FailureView {
    pub code: i32,
    pub message: Seq<char>,
}

impl View for Failure {
    type V = FailureView;

    open spec fn view(&self) -> FailureView {
        FailureView { code: self.code, message: self.message@ }
    }
}

/// The exit code for a file that cannot be read.
pub const EXIT_UNREADABLE_FILE: i32 = 1;

/// The exit code for outputs that cannot be written.
pub const EXIT_UNWRITTEN_OUTPUT: i32 = 5;

/// A file that cannot be read.
pub open spec fn unreadable_file(path: Seq<char>, reason: Seq<char>) -> FailureView {
    FailureView {
        code: EXIT_UNREADABLE_FILE,
        message: "whisper-proxy: cannot read "@ + path + ": "@ + reason,
    }
}

/// A file that was read and sent, but for which there is no transcription.
pub open spec fn untranscribed_file(error: TranscribeErrorView) -> FailureView {
    FailureView { code: error.exit_code(), message: "whisper-proxy: "@ + error.message() }
}

/// A file whose outputs cannot be written.
pub open spec fn unwritten_output(reason: Seq<char>) -> FailureView {
    FailureView {
        code: EXIT_UNWRITTEN_OUTPUT,
        message: "whisper-proxy: write output: "@ + reason,
    }
}

/// What is sent for a file, from what reading it came to.
pub fn prepare_file(
    path: &str,
    file_name: Option<&str>,
    contents: Result<Vec<u8>, String>,
    args: &Args,
    cfg: &Config,
    boundary: &str,
) -> (r: Result<HttpCall, Failure>)
    ensures
        match contents {
            Ok(bytes) => r matches Ok(call) && call@ == call_of(
                cfg@,
                request_for_file(path@, str_of(file_name), bytes@, args@),
                boundary@,
            ),
            Err(reason) => r matches Err(failure) && failure@ == unreadable_file(path@, reason@),
        },
        r matches Ok(call) ==> goes_to(call.endpoint@, cfg.url@, args.translate),
{
    match contents {
        Ok(bytes) => {
            let req = file_request(path, file_name, bytes.as_slice(), args);
            proof {
                where_a_file_goes(cfg@, path@, str_of(file_name), bytes@, args@, boundary@);
            }
            Ok(prepare(cfg, &req, boundary))
        },
        Err(reason) => {
            let mut message = chars_of("whisper-proxy: cannot read ");
            push_str(&mut message, path);
            push_str(&mut message, ": ");
            push_str(&mut message, reason.as_str());
            Err(
                Failure {
                    code: EXIT_UNREADABLE_FILE,
                    message: string_of(message.as_slice()),
                },
            )
        },
    }
}

/// The transcription of a file.
pub struct Transcript {
    pub segments: Vec<Segment>,
    pub full_text: String,
    pub language: String,
}

pub struct TranscriptView {
    pub segments: Seq<SegmentView>,
    pub full_text: Seq<char>,
    pub language: Seq<char>,
}

impl View for Transcript {
    type V = TranscriptView;

    open spec fn view(&self) -> TranscriptView {
        TranscriptView {
            segments: segment_views(self.segments@),
            full_text: self.full_text@,
            language: self.language@,
        }
    }
}

/// The language that the reply names, else the one that was asked for, else `auto`.
pub open spec fn language_of(
    replied: Option<Seq<char>>,
    asked: Option<Seq<char>>,
) -> Seq<char> {
    match replied {
        Some(l) => l,
        None => match asked {
            Some(l) => l,
            None => "auto"@,
        },
    }
}

/// The transcription of a file, as the reply gives it.
pub open spec fn transcript_of(result: TranscribeResultView, args: ArgsView) -> TranscriptView {
    TranscriptView {
        segments: result.segments,
        full_text: result.full_text,
        language: language_of(result.language, args.language),
    }
}

fn choose_language(replied: Option<String>, asked: &Option<String>) -> (r: String)
    ensures
        r@ == language_of(text_of(replied), text_of(*asked)),
{
    match replied {
        Some(l) => l,
        None => match asked {
            Some(l) => l.clone(),
            None => "auto".to_string(),
        },
    }
}

/// What the reply for a file comes to.
pub fn read_file_reply(reply: HttpReply, args: &Args) -> (r: Result<Transcript, Failure>)
    ensures
        match outcome_of(reply) {
            Ok(result) => r matches Ok(transcript) && transcript@ == transcript_of(result, args@),
            Err(error) => r matches Err(failure) && failure@ == untranscribed_file(error),
        },
{
    match read_reply(reply) {
        Ok(result) => {
            Ok(
                Transcript {
                    segments: result.segments,
                    full_text: result.full_text,
                    language: choose_language(result.language, &args.language),
                },
            )
        },
        Err(error) => {
            let mut message = chars_of("whisper-proxy: ");
            push_str(&mut message, error.message().as_str());
            Err(Failure { code: error.exit_code(), message: string_of(message.as_slice()) })
        },
    }
}

/// How writing the outputs of a file ends: nothing is wrong, or for this reason they
/// were not all written.
pub fn finish_file(reason: Option<String>) -> (r: Result<(), Failure>)
    ensures
        match reason {
            None => r is Ok,
            Some(e) => r matches Err(failure) && failure@ == unwritten_output(e@),
        },
{
    match reason {
        None => Ok(()),
        Some(e) => {
            let mut message = chars_of("whisper-proxy: write output: ");
            push_str(&mut message, e.as_str());
            Err(
                Failure {
                    code: EXIT_UNWRITTEN_OUTPUT,
                    message: string_of(message.as_slice()),
                },
            )
        },
    }
}

/// The exit code of a run: that of the last file that failed, else zero.
pub open spec fn run_code(codes: Seq<i32>) -> i32
    decreases codes.len(),
{
    if codes.len() == 0 {
        0
    } else if codes.last() != 0 {
        codes.last()
    } else {
        run_code(codes.drop_last())
    }
}

/// The exit code of a run, from those of its files.
pub fn final_code(codes: &[i32]) -> (r: i32)
    ensures
        r == run_code(codes@),
{
    let mut code: i32 = 0;
    for i in 0..codes.len()
        invariant
            code == run_code(codes@.take(i as int)),
    {
        assert(codes@.take(i + 1).drop_last() =~= codes@.take(i as int));
        if codes[i] != 0 {
            code = codes[i];
        }
    }
    assert(codes@.take(codes@.len() as int) =~= codes@);
    code
}

/// Every failure has an exit code of its own kind, none of them zero.
pub proof fn failures_are_told_apart(path: Seq<char>, reason: Seq<char>, error: TranscribeErrorView)
    ensures
        unreadable_file(path, reason).code == 1,
        untranscribed_file(error).code == (match error {
            TranscribeErrorView::Status(_, _) => 2,
            TranscribeErrorView::Failed(_) => 3,
            _ => 4i32,
        }),
        unwritten_output(reason).code == 5,
{
}

/// A run ends with zero exactly if every file did.
pub proof fn run_succeeds_if_every_file_does(codes: Seq<i32>)
    ensures
        run_code(codes) == 0 <==> forall|i: int| 0 <= i < codes.len() ==> #[trigger] codes[i] == 0,
    decreases codes.len(),
{
    if codes.len() > 0 {
        let rest = codes.drop_last();
        run_succeeds_if_every_file_does(rest);
        assert(codes.last() == codes[codes.len() - 1]);
        if run_code(codes) == 0 {
            assert forall|i: int| 0 <= i < codes.len() implies #[trigger] codes[i] == 0 by {
                if i < rest.len() {
                    assert(rest[i] == codes[i]);
                }
            }
        } else if codes.last() == 0 {
            let k = choose|k: int| 0 <= k < rest.len() && #[trigger] rest[k] != 0;
            assert(codes[k] == rest[k]);
        }
    }
}

} // verus!
