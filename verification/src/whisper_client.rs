//! The client of an OpenAI-compatible Whisper server: the request that asks for a
//! transcription, and what the server's reply says.
//!
//! The exchange itself belongs to the caller: it sends an `HttpCall` and hands back an
//! `HttpReply`.
use crate::config::{Config, ConfigView};
use crate::json::{
    as_array, as_float_bits, as_str, get, json_list, json_of, json_parse, number_bits, parse, Json,
};
use crate::multipart::{body_of, build_multipart, field_views, request_parts, FieldView};
use crate::number::{decimal, push_decimal};
use crate::text::{chars_of, drop_trailing, push_str, same_str, string_of, trim_end, CharClass};
use vstd::prelude::*;
use vstd::slice::slice_subrange;

verus! {

/// A time in seconds, as the bits of an IEEE 754 double.
#[derive(Debug, Clone, Copy, PartialEq, Eq, Structural)]
pub struct Seconds {
    pub bits: u64,
}

/// A piece of a transcription.
#[derive(Debug, Clone)]
pub struct Segment {
    pub start: Seconds,
    pub end: Seconds,
    pub text: String,
}

pub struct SegmentView {
    pub start: Seconds,
    pub end: Seconds,
    pub text: Seq<char>,
}

impl View for Segment {
    type V = SegmentView;

    open spec fn view(&self) -> SegmentView {
        SegmentView { start: self.start, end: self.end, text: self.text@ }
    }
}

pub open spec fn segment_views(segments: Seq<Segment>) -> Seq<SegmentView> {
    Seq::new(segments.len(), |i: int| segments[i]@)
}

/// What a server made of a recording.
pub struct TranscribeResult {
    pub segments: Vec<Segment>,
    pub full_text: String,
    pub language: Option<String>,
}

pub struct TranscribeResultView {
    pub segments: Seq<SegmentView>,
    pub full_text: Seq<char>,
    pub language: Option<Seq<char>>,
}

impl View for TranscribeResult {
    type V = TranscribeResultView;

    open spec fn view(&self) -> TranscribeResultView {
        TranscribeResultView {
            segments: segment_views(self.segments@),
            full_text: self.full_text@,
            language: match self.language {
                Some(l) => Some(l@),
                None => None,
            },
        }
    }
}

/// What is to be transcribed, and how.
pub struct TranscribeRequest<'a> {
    pub file_name: &'a str,
    pub file_bytes: &'a [u8],
    pub mime: &'a str,
    pub language: Option<&'a str>,
    pub prompt: Option<&'a str>,
    pub translate: bool,
}

pub struct TranscribeRequestView {
    pub file_name: Seq<char>,
    pub file_bytes: Seq<u8>,
    pub mime: Seq<char>,
    pub language: Option<Seq<char>>,
    pub prompt: Option<Seq<char>>,
    pub translate: bool,
}

impl<'a> View for TranscribeRequest<'a> {
    type V = TranscribeRequestView;

    open spec fn view(&self) -> TranscribeRequestView {
        TranscribeRequestView {
            file_name: self.file_name@,
            file_bytes: self.file_bytes@,
            mime: self.mime@,
            language: str_of(self.language),
            prompt: str_of(self.prompt),
            translate: self.translate,
        }
    }
}

/// What an optional string slice holds.
pub open spec fn str_of(s: Option<&str>) -> Option<Seq<char>> {
    match s {
        Some(t) => Some(t@),
        None => None,
    }
}

/// The fields of a request: the model, the wanted format, the language unless it is
/// empty or `auto`, and the prompt if there is one.
pub open spec fn request_fields(
    model: Seq<char>,
    language: Option<Seq<char>>,
    prompt: Option<Seq<char>>,
) -> Seq<FieldView> {
    let start: Seq<FieldView> = seq![
        ("model"@, model),
        ("response_format"@, "verbose_json"@),
    ];
    let with_language = match language {
        Some(l) => if l != "auto"@ && l.len() > 0 {
            start.push(("language"@, l))
        } else {
            start
        },
        None => start,
    };
    match prompt {
        Some(p) => with_language.push(("prompt"@, p)),
        None => with_language,
    }
}

/// The address that a request goes to: the server's, without slashes at its end, and
/// the path of the service.
pub open spec fn endpoint_of(url: Seq<char>, translate: bool) -> Seq<char> {
    drop_trailing(url, CharClass::One('/')) + if translate {
        "/audio/translations"@
    } else {
        "/audio/transcriptions"@
    }
}

/// A POST request: where it goes, its `Content-Type` and `Authorization` headers, the
/// seconds it may take, and its body.
pub struct HttpCall {
    pub endpoint: String,
    pub content_type: String,
    pub authorization: Option<String>,
    pub timeout: u64,
    pub body: Vec<u8>,
}

pub struct HttpCallView {
    pub endpoint: Seq<char>,
    pub content_type: Seq<char>,
    pub authorization: Option<Seq<char>>,
    pub timeout: u64,
    pub body: Seq<u8>,
}

impl View for HttpCall {
    type V = HttpCallView;

    open spec fn view(&self) -> HttpCallView {
        HttpCallView {
            endpoint: self.endpoint@,
            content_type: self.content_type@,
            authorization: match self.authorization {
                Some(a) => Some(a@),
                None => None,
            },
            timeout: self.timeout,
            body: self.body@,
        }
    }
}

/// The request that asks for a transcription. The key is sent if there is one.
pub open spec fn call_of(
    cfg: ConfigView,
    req: TranscribeRequestView,
    boundary: Seq<char>,
) -> HttpCallView {
    HttpCallView {
        endpoint: endpoint_of(cfg.url, req.translate),
        content_type: "multipart/form-data; boundary="@ + boundary,
        authorization: if cfg.api_key.len() > 0 {
            Some("Bearer "@ + cfg.api_key)
        } else {
            None
        },
        timeout: cfg.timeout,
        body: body_of(
            boundary,
            request_parts(
                request_fields(cfg.model, req.language, req.prompt),
                req.file_name,
                req.file_bytes,
                req.mime,
            ),
        ),
    }
}

fn fields_for<'a>(model: &'a str, language: Option<&'a str>, prompt: Option<&'a str>) -> (r: Vec<
    (&'a str, &'a str),
>)
    ensures
        field_views(r@) == request_fields(model@, str_of(language), str_of(prompt)),
{
    let mut fields: Vec<(&'a str, &'a str)> = Vec::new();
    fields.push(("model", model));
    fields.push(("response_format", "verbose_json"));
    let ghost mut expected: Seq<FieldView> = seq![
        ("model"@, model@),
        ("response_format"@, "verbose_json"@),
    ];
    assert(field_views(fields@) =~= expected);
    if let Some(l) = language {
        if !same_str(l, "auto") && !l.is_empty() {
            fields.push(("language", l));
            proof {
                expected = expected.push(("language"@, l@));
            }
            assert(field_views(fields@) =~= expected);
        }
    }
    if let Some(p) = prompt {
        fields.push(("prompt", p));
        proof {
            expected = expected.push(("prompt"@, p@));
        }
        assert(field_views(fields@) =~= expected);
    }
    fields
}

/// Two strings, one behind the other.
pub fn joined(a: &str, b: &str) -> (r: String)
    ensures
        r@ == a@ + b@,
{
    let mut out = chars_of(a);
    push_str(&mut out, b);
    string_of(out.as_slice())
}

/// The address that a request goes to.
pub fn endpoint(url: &str, translate: bool) -> (r: String)
    ensures
        r@ == endpoint_of(url@, translate),
{
    let all = chars_of(url);
    let base = string_of(trim_end(all.as_slice(), CharClass::One('/')));
    joined(
        base.as_str(),
        if translate {
            "/audio/translations"
        } else {
            "/audio/transcriptions"
        },
    )
}

/// The request that asks for a transcription.
pub fn prepare(cfg: &Config, req: &TranscribeRequest<'_>, boundary: &str) -> (call: HttpCall)
    ensures
        call@ == call_of(cfg@, req@, boundary@),
{
    let fields = fields_for(cfg.model.as_str(), req.language, req.prompt);
    let body = build_multipart(
        boundary,
        fields.as_slice(),
        req.file_name,
        req.file_bytes,
        req.mime,
    );
    let authorization = if cfg.api_key.as_str().is_empty() {
        None
    } else {
        Some(joined("Bearer ", cfg.api_key.as_str()))
    };
    HttpCall {
        endpoint: endpoint(cfg.url.as_str(), req.translate),
        content_type: joined("multipart/form-data; boundary=", boundary),
        authorization,
        timeout: cfg.timeout,
        body,
    }
}

/// The time under a key, zero where there is no number.
pub open spec fn seconds_at(item: Json, key: Seq<char>) -> Seconds {
    match item.member(key) {
        Some(Json::Number(n)) => Seconds { bits: number_bits(n) },
        _ => Seconds { bits: 0 },
    }
}

/// The text under a key, empty where there is none.
pub open spec fn text_at(item: Json, key: Seq<char>) -> Seq<char> {
    match item.text_member(key) {
        Some(t) => t,
        None => seq![],
    }
}

/// A segment of a reply.
pub open spec fn segment_of(item: Json) -> SegmentView {
    SegmentView {
        start: seconds_at(item, "start"@),
        end: seconds_at(item, "end"@),
        text: text_at(item, "text"@),
    }
}

/// The segments that a reply lists.
pub open spec fn listed_segments(reply: Json) -> Seq<SegmentView> {
    match reply.member("segments"@) {
        Some(Json::Array(items)) => Seq::new(items.len(), |i: int| segment_of(items[i])),
        _ => seq![],
    }
}

/// The whole text as one segment at time zero; none where there is no text.
pub open spec fn whole_as_segment(text: Seq<char>) -> Seq<SegmentView> {
    if text.len() > 0 {
        seq![SegmentView { start: Seconds { bits: 0 }, end: Seconds { bits: 0 }, text }]
    } else {
        seq![]
    }
}

/// The segments of a reply: those it lists, or its whole text as one.
pub open spec fn segments_of(reply: Json) -> Seq<SegmentView> {
    if listed_segments(reply).len() > 0 {
        listed_segments(reply)
    } else {
        whole_as_segment(text_at(reply, "text"@))
    }
}

/// The texts of segments, with spaces between them.
pub open spec fn joined_texts(segments: Seq<SegmentView>) -> Seq<char>
    decreases segments.len(),
{
    if segments.len() == 0 {
        seq![]
    } else if segments.len() == 1 {
        segments[0].text
    } else {
        joined_texts(segments.drop_last()) + seq![' '] + segments.last().text
    }
}

/// What a reply says: its segments, its text or else theirs, its language.
pub open spec fn result_of(reply: Json) -> TranscribeResultView {
    TranscribeResultView {
        segments: segments_of(reply),
        full_text: match reply.text_member("text"@) {
            Some(t) => t,
            None => joined_texts(segments_of(reply)),
        },
        language: reply.text_member("language"@),
    }
}

fn read_text<'a>(value: &'a serde_json::Value, key: &str) -> (r: Option<&'a str>)
    ensures
        str_of(r) == json_of(*value).text_member(key@),
{
    match get(value, key) {
        Some(member) => as_str(member),
        None => None,
    }
}

fn read_seconds(value: &serde_json::Value, key: &str) -> (r: Seconds)
    ensures
        r == seconds_at(json_of(*value), key@),
{
    match get(value, key) {
        Some(member) => match as_float_bits(member) {
            Some(bits) => Seconds { bits },
            None => Seconds { bits: 0 },
        },
        None => Seconds { bits: 0 },
    }
}

fn read_segment(value: &serde_json::Value) -> (r: Segment)
    ensures
        r@ == segment_of(json_of(*value)),
{
    let text = match read_text(value, "text") {
        Some(t) => t.to_string(),
        None => String::new(),
    };
    Segment { start: read_seconds(value, "start"), end: read_seconds(value, "end"), text }
}

fn read_listed(value: &serde_json::Value) -> (r: Vec<Segment>)
    ensures
        segment_views(r@) == listed_segments(json_of(*value)),
{
    let mut segments: Vec<Segment> = Vec::new();
    if let Some(member) = get(value, "segments") {
        if let Some(items) = as_array(member) {
            let ghost trees = json_list(items@);
            for i in 0..items.len()
                invariant
                    trees == json_list(items@),
                    segments@.len() == i,
                    forall|j: int|
                        0 <= j < i ==> (#[trigger] segments@[j])@ == segment_of(trees[j]),
            {
                segments.push(read_segment(&items[i]));
            }
            assert(segment_views(segments@) =~= Seq::new(
                trees.len(),
                |i: int| segment_of(trees[i]),
            ));
            return segments;
        }
    }
    assert(segment_views(segments@) =~= Seq::<SegmentView>::empty());
    segments
}

/// The texts of segments, with spaces between them.
pub fn join_texts(segments: &[Segment]) -> (r: String)
    ensures
        r@ == joined_texts(segment_views(segments@)),
{
    let mut out: Vec<char> = Vec::new();
    let ghost views = segment_views(segments@);
    for i in 0..segments.len()
        invariant
            views == segment_views(segments@),
            out@ == joined_texts(views.take(i as int)),
    {
        let ghost before = out@;
        if i > 0 {
            out.push(' ');
        }
        push_str(&mut out, segments[i].text.as_str());
        assert(views.take(i + 1).drop_last() =~= views.take(i as int));
        assert(views.take(i + 1).last() == segments@[i as int]@);
        if i > 0 {
            assert(out@ =~= before + seq![' '] + segments@[i as int]@.text);
        } else {
            assert(views.take(1)[0] == segments@[0]@);
            assert(out@ =~= segments@[0]@.text);
        }
    }
    assert(views.take(segments@.len() as int) =~= views);
    string_of(out.as_slice())
}

/// The whole text as one segment at time zero; none where there is no text.
pub fn whole_segment(text: &str) -> (r: Vec<Segment>)
    ensures
        segment_views(r@) == whole_as_segment(text@),
{
    let mut segments: Vec<Segment> = Vec::new();
    if !text.is_empty() {
        segments.push(
            Segment { start: Seconds { bits: 0 }, end: Seconds { bits: 0 }, text: text.to_string() },
        );
    }
    assert(segment_views(segments@) =~= whole_as_segment(text@));
    segments
}

/// What a JSON reply says.
pub fn read_result(value: &serde_json::Value) -> (r: TranscribeResult)
    ensures
        r@ == result_of(json_of(*value)),
{
    let text = read_text(value, "text");
    let listed = read_listed(value);
    let segments = if listed.len() > 0 {
        listed
    } else {
        match text {
            Some(t) => whole_segment(t),
            None => whole_segment(""),
        }
    };
    proof {
        reveal_strlit("");
        assert(""@ =~= Seq::<char>::empty());
        assert(segment_views(listed@).len() == listed@.len());
    }
    let full_text = match text {
        Some(t) => t.to_string(),
        None => join_texts(segments.as_slice()),
    };
    let language = match read_text(value, "language") {
        Some(l) => Some(l.to_string()),
        None => None,
    };
    TranscribeResult { segments, full_text, language }
}

/// How an exchange with the server ended.
pub enum HttpReply {
    /// The server answered, with this body.
    Body(String),
    /// The server answered, but the body could not be read, for this reason.
    Unreadable(String),
    /// The server answered with an error status and this body.
    Status(u16, String),
    /// The server did not answer, for this reason.
    Failed(String),
}

/// Why there is no transcription.
pub enum TranscribeError {
    Status(u16, String),
    Failed(String),
    Unreadable(String),
    /// The body is no JSON: the parser's message, and the start of the body.
    NotJson(String, String),
}

pub enum TranscribeErrorView {
    Status(u16, Seq<char>),
    Failed(Seq<char>),
    Unreadable(Seq<char>),
    NotJson(Seq<char>, Seq<char>),
}

impl View for TranscribeError {
    type V = TranscribeErrorView;

    open spec fn view(&self) -> TranscribeErrorView {
        match self {
            TranscribeError::Status(code, body) => TranscribeErrorView::Status(*code, body@),
            TranscribeError::Failed(e) => TranscribeErrorView::Failed(e@),
            TranscribeError::Unreadable(e) => TranscribeErrorView::Unreadable(e@),
            TranscribeError::NotJson(e, head) => TranscribeErrorView::NotJson(e@, head@),
        }
    }
}

impl TranscribeErrorView {
    /// The error in words.
    pub open spec fn message(self) -> Seq<char> {
        match self {
            TranscribeErrorView::Status(code, body) => "HTTP "@ + decimal(code as nat) + ": "@
                + body,
            TranscribeErrorView::Failed(e) => "request failed: "@ + e,
            TranscribeErrorView::Unreadable(e) => "read body: "@ + e,
            TranscribeErrorView::NotJson(e, head) => "non-JSON response: "@ + e + " -- "@ + head,
        }
    }

    /// The exit code that the error leads to.
    pub open spec fn exit_code(self) -> i32 {
        match self {
            TranscribeErrorView::Status(_, _) => 2,
            TranscribeErrorView::Failed(_) => 3,
            TranscribeErrorView::Unreadable(_) => 4,
            TranscribeErrorView::NotJson(_, _) => 4,
        }
    }
}

impl TranscribeError {
    pub fn message(&self) -> (r: String)
        ensures
            r@ == self@.message(),
    {
        let mut out: Vec<char> = Vec::new();
        match self {
            TranscribeError::Status(code, body) => {
                push_str(&mut out, "HTTP ");
                push_decimal(&mut out, *code as u64);
                push_str(&mut out, ": ");
                push_str(&mut out, body.as_str());
            },
            TranscribeError::Failed(e) => {
                push_str(&mut out, "request failed: ");
                push_str(&mut out, e.as_str());
            },
            TranscribeError::Unreadable(e) => {
                push_str(&mut out, "read body: ");
                push_str(&mut out, e.as_str());
            },
            TranscribeError::NotJson(e, head) => {
                push_str(&mut out, "non-JSON response: ");
                push_str(&mut out, e.as_str());
                push_str(&mut out, " -- ");
                push_str(&mut out, head.as_str());
            },
        }
        assert(out@ =~= self@.message());
        string_of(out.as_slice())
    }

    pub fn exit_code(&self) -> (r: i32)
        ensures
            r == self@.exit_code(),
    {
        match self {
            TranscribeError::Status(_, _) => 2,
            TranscribeError::Failed(_) => 3,
            TranscribeError::Unreadable(_) => 4,
            TranscribeError::NotJson(_, _) => 4,
        }
    }
}

/// The first characters of a text, at most 200.
pub open spec fn head_of(text: Seq<char>) -> Seq<char> {
    if text.len() > 200 {
        text.take(200)
    } else {
        text
    }
}

fn head(text: &str) -> (r: String)
    ensures
        r@ == head_of(text@),
{
    let cs = chars_of(text);
    if cs.len() > 200 {
        let first = slice_subrange(cs.as_slice(), 0, 200);
        assert(first@ =~= text@.take(200));
        string_of(first)
    } else {
        string_of(cs.as_slice())
    }
}

/// What a reply comes to: a transcription, or why there is none.
pub open spec fn outcome_of(reply: HttpReply) -> Result<TranscribeResultView, TranscribeErrorView> {
    match reply {
        HttpReply::Body(text) => match json_parse(text@) {
            Ok(tree) => Ok(result_of(tree)),
            Err(e) => Err(TranscribeErrorView::NotJson(e, head_of(text@))),
        },
        HttpReply::Unreadable(e) => Err(TranscribeErrorView::Unreadable(e@)),
        HttpReply::Status(code, body) => Err(TranscribeErrorView::Status(code, body@)),
        HttpReply::Failed(e) => Err(TranscribeErrorView::Failed(e@)),
    }
}

/// Reads the server's reply.
pub fn read_reply(reply: HttpReply) -> (r: Result<TranscribeResult, TranscribeError>)
    ensures
        match r {
            Ok(result) => outcome_of(reply) == Ok::<TranscribeResultView, TranscribeErrorView>(
                result@,
            ),
            Err(error) => outcome_of(reply) == Err::<TranscribeResultView, TranscribeErrorView>(
                error@,
            ),
        },
{
    match reply {
        HttpReply::Body(text) => match parse(text.as_str()) {
            Ok(value) => Ok(read_result(&value)),
            Err(e) => Err(TranscribeError::NotJson(e, head(text.as_str()))),
        },
        HttpReply::Unreadable(e) => Err(TranscribeError::Unreadable(e)),
        HttpReply::Status(code, body) => Err(TranscribeError::Status(code, body)),
        HttpReply::Failed(e) => Err(TranscribeError::Failed(e)),
    }
}

/// The transcription that a reply holds, or in words why there is none.
pub fn transcribe(reply: HttpReply) -> (r: Result<TranscribeResult, String>)
    ensures
        match r {
            Ok(result) => outcome_of(reply) == Ok::<TranscribeResultView, TranscribeErrorView>(
                result@,
            ),
            Err(words) => outcome_of(reply) matches Err(error) && words@ == error.message(),
        },
{
    match read_reply(reply) {
        Ok(result) => Ok(result),
        Err(error) => Err(error.message()),
    }
}

} // verus!
