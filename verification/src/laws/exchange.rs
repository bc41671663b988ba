//! The request to the server, as it goes out, and what a reply says.
use crate::config::ConfigView;
use crate::json::{number_bits, Json, JsonNumber};
use crate::laws::numerals::dropping_from_the_end;
use crate::multipart::{
    body_of, boundary_of, crlf, dash_boundary, field_part, field_views, file_part, framed, framed_all,
    body_splits_at_its_fields, request_parts, FieldView,
};
use crate::number::{decimal, hexadecimal, zero_padded};
use crate::text::{drop_trailing, CharClass};
use crate::whisper_client::{
    call_of, endpoint_of, joined_texts, listed_segments, outcome_of, request_fields, result_of, segment_views,
    HttpCall, HttpReply, Seconds, Segment, SegmentView, TranscribeError, TranscribeErrorView, TranscribeRequest,
    TranscribeRequestView, TranscribeResult, TranscribeResultView,
};
use vstd::prelude::*;
use vstd::utf8::encode_utf8;

verus! {

/// UTF-8 of two texts, one behind the other, is the UTF-8 of the one and then of the other.
proof fn utf8_joins(a: Seq<char>, b: Seq<char>)
    ensures
        encode_utf8(a + b) == encode_utf8(a) + encode_utf8(b),
    decreases a.len(),
{
    if a.len() == 0 {
        assert(a + b =~= b);
        assert(encode_utf8(a) + encode_utf8(b) =~= encode_utf8(b));
    } else {
        utf8_joins(a.drop_first(), b);
        assert((a + b).drop_first() =~= a.drop_first() + b);
        assert(encode_utf8(a + b) =~= encode_utf8(a) + encode_utf8(b));
    }
}

proof fn line_end_in_utf8()
    ensures
        encode_utf8(seq!['\r', '\n']) == crlf(),
{
    let s = seq!['\r', '\n'];
    assert(vstd::utf8::is_ascii_chars(s));
    vstd::utf8::is_ascii_chars_encode_utf8(s);
    assert(encode_utf8(s) =~= crlf());
}

/// What opens a part: two hyphens, the boundary, a line end.
pub open spec fn opening(boundary: Seq<char>) -> Seq<char> {
    "--"@ + boundary + seq!['\r', '\n']
}

proof fn opening_in_utf8(boundary: Seq<char>)
    ensures
        encode_utf8(opening(boundary)) == dash_boundary(boundary) + crlf(),
{
    utf8_joins("--"@ + boundary, seq!['\r', '\n']);
    utf8_joins("--"@, boundary);
    line_end_in_utf8();
}

/// The text of a field, as it stands in a body.
pub open spec fn field_text(boundary: Seq<char>, name: Seq<char>, value: Seq<char>) -> Seq<char> {
    opening(boundary) + "Content-Disposition: form-data; name=\""@ + name + "\"\r\n\r\n"@ + value
        + seq!['\r', '\n']
}

/// A field more stands before the others in a body: the boundary, its name, an empty line
/// and its value, each as its text.
#[verifier::spinoff_prover]
pub proof fn a_field_in_a_body(
    boundary: Seq<char>,
    name: Seq<char>,
    value: Seq<char>,
    others: Seq<FieldView>,
    file_name: Seq<char>,
    file_bytes: Seq<u8>,
    mime: Seq<char>,
)
    ensures
        body_of(
            boundary,
            request_parts(seq![(name, value)] + others, file_name, file_bytes, mime),
        ) == encode_utf8(field_text(boundary, name, value)) + body_of(
            boundary,
            request_parts(others, file_name, file_bytes, mime),
        ),
{
    let f: FieldView = (name, value);
    let first = seq![f];
    body_splits_at_its_fields(boundary, first, others, file_name, file_bytes, mime);
    let parts = Seq::new(first.len(), |i: int| field_part(first[i]));
    assert(parts =~= seq![field_part(f)]);
    assert(parts.drop_last() =~= seq![]);
    assert(framed_all(boundary, parts.drop_last()) =~= seq![]);
    assert(framed_all(boundary, parts) =~= framed(boundary, field_part(f)));
    let a = "Content-Disposition: form-data; name=\""@;
    let b = "\"\r\n\r\n"@;
    opening_in_utf8(boundary);
    line_end_in_utf8();
    utf8_joins(opening(boundary), a);
    utf8_joins(opening(boundary) + a, name);
    utf8_joins(opening(boundary) + a + name, b);
    utf8_joins(opening(boundary) + a + name + b, value);
    utf8_joins(opening(boundary) + a + name + b + value, seq!['\r', '\n']);
    assert(framed(boundary, field_part(f)) =~= encode_utf8(field_text(boundary, name, value)));
}

/// The text before a file in a body.
pub open spec fn file_head(
    boundary: Seq<char>,
    file_name: Seq<char>,
    mime: Seq<char>,
) -> Seq<char> {
    opening(boundary) + "Content-Disposition: form-data; name=\"file\"; filename=\""@ + file_name
        + "\"\r\nContent-Type: "@ + mime + "\r\n\r\n"@
}

/// A body ends with its file: the boundary, the file's name and type, an empty line, the
/// bytes of the file, and the boundary between double hyphens.
#[verifier::spinoff_prover]
pub proof fn a_file_ends_a_body(
    boundary: Seq<char>,
    file_name: Seq<char>,
    file_bytes: Seq<u8>,
    mime: Seq<char>,
)
    ensures
        body_of(boundary, request_parts(seq![], file_name, file_bytes, mime)) == encode_utf8(
            file_head(boundary, file_name, mime),
        ) + file_bytes + encode_utf8(
            seq!['\r', '\n'] + "--"@ + boundary + "--"@ + seq!['\r', '\n'],
        ),
{
    let part = file_part(file_name, file_bytes, mime);
    let parts = request_parts(seq![], file_name, file_bytes, mime);
    assert(parts =~= seq![part]);
    assert(parts.drop_last() =~= seq![]);
    assert(framed_all(boundary, parts.drop_last()) =~= seq![]);
    assert(framed_all(boundary, parts) =~= framed(boundary, part));
    let a = "Content-Disposition: form-data; name=\"file\"; filename=\""@;
    let b = "\"\r\nContent-Type: "@;
    let c = "\r\n\r\n"@;
    let o = opening(boundary);
    opening_in_utf8(boundary);
    line_end_in_utf8();
    utf8_joins(o, a);
    utf8_joins(o + a, file_name);
    utf8_joins(o + a + file_name, b);
    utf8_joins(o + a + file_name + b, mime);
    utf8_joins(o + a + file_name + b + mime, c);
    let e = seq!['\r', '\n'];
    utf8_joins(e, "--"@);
    utf8_joins(e + "--"@, boundary);
    utf8_joins(e + "--"@ + boundary, "--"@);
    utf8_joins(e + "--"@ + boundary + "--"@, e);
    assert(body_of(boundary, parts) =~= encode_utf8(file_head(boundary, file_name, mime))
        + file_bytes + encode_utf8(e + "--"@ + boundary + "--"@ + e));
}

/// A boundary: its name, the time in 32 hexadecimal digits, the process in eight.
pub proof fn a_boundary_names_its_moment(ns: u128, pid: u32)
    ensures
        boundary_of(ns, pid) == "----whisperproxy"@ + zero_padded(hexadecimal(ns as nat), 32)
            + zero_padded(hexadecimal(pid as nat), 8),
{
}

/// Which fields a request has: the model, the wanted format, the language where one is
/// named that is neither empty nor `auto`, and the prompt where there is one; in this order.
pub proof fn the_fields_of_a_request(
    model: Seq<char>,
    language: Option<Seq<char>>,
    prompt: Option<Seq<char>>,
)
    ensures
        ({
            let fields = request_fields(model, language, prompt);
            let named = language matches Some(l) && l.len() > 0 && l != "auto"@;
            &&& fields[0] == ("model"@, model)
            &&& fields[1] == ("response_format"@, "verbose_json"@)
            &&& fields.len() == 2 + if named {
                1int
            } else {
                0int
            } + if prompt is Some {
                1int
            } else {
                0int
            }
            &&& named ==> fields[2] == ("language"@, language->0)
            &&& prompt matches Some(p) ==> fields.last() == ("prompt"@, p)
        }),
{
}

/// Whether an address is the server's without the slashes at its end, and behind it the
/// path of the translations, or of the transcriptions.
pub open spec fn goes_to(endpoint: Seq<char>, url: Seq<char>, translate: bool) -> bool {
    exists|n: int|
        0 <= n <= url.len() && (n > 0 ==> url[n - 1] != '/') && (forall|i: int|
            n <= i < url.len() ==> #[trigger] url[i] == '/') && endpoint == #[trigger] url.take(n)
            + if translate {
            "/audio/translations"@
        } else {
            "/audio/transcriptions"@
        }
}

/// Where a request goes: to the server's address without the slashes at its end, and there
/// to the translations exactly if a translation is wanted.
pub proof fn where_a_request_goes(url: Seq<char>, translate: bool)
    ensures
        goes_to(endpoint_of(url, translate), url, translate),
{
    let k = CharClass::One('/');
    dropping_from_the_end(url, k);
    let n = drop_trailing(url, k).len() as int;
    assert forall|i: int| n <= i < url.len() implies #[trigger] url[i] == '/' by {
        assert(k.admits(url[i]));
    }
    if n > 0 {
        assert(drop_trailing(url, k).last() == url[n - 1]);
    }
    assert(url.take(n) == drop_trailing(url, k));
}

/// What a request carries: its boundary in its type, the key as a bearer token exactly if
/// there is one, the timeout of the settings, and the fields and the file in its body.
pub proof fn what_a_request_carries(
    cfg: ConfigView,
    req: TranscribeRequestView,
    boundary: Seq<char>,
)
    ensures
        ({
            let call = call_of(cfg, req, boundary);
            &&& call.endpoint == endpoint_of(cfg.url, req.translate)
            &&& call.content_type == "multipart/form-data; boundary="@ + boundary
            &&& cfg.api_key.len() == 0 ==> call.authorization is None
            &&& cfg.api_key.len() > 0 ==> call.authorization == Some("Bearer "@ + cfg.api_key)
            &&& call.timeout == cfg.timeout
            &&& call.body == body_of(
                boundary,
                request_parts(
                    request_fields(cfg.model, req.language, req.prompt),
                    req.file_name,
                    req.file_bytes,
                    req.mime,
                ),
            )
        }),
{
}

/// The member of a JSON value that is a text, as a text; empty where there is none.
pub open spec fn text_in(value: Json, key: Seq<char>) -> Seq<char> {
    match value {
        Json::Object(m) => if m.contains_key(key) && m[key] is Text {
            m[key]->Text_0
        } else {
            seq![]
        },
        _ => seq![],
    }
}

/// The member of a JSON value that is a number, as seconds; zero where there is none.
pub open spec fn seconds_in(value: Json, key: Seq<char>) -> u64 {
    match value {
        Json::Object(m) => if m.contains_key(key) && m[key] is Number {
            number_bits(m[key]->Number_0)
        } else {
            0
        },
        _ => 0,
    }
}

/// Every item that a reply lists is a segment, in the order of the list, with its own
/// times and its own text.
pub proof fn every_listed_item_is_a_segment(reply: Map<Seq<char>, Json>, i: int)
    requires
        reply.contains_key("segments"@),
        reply["segments"@] is Array,
        0 <= i < reply["segments"@]->Array_0.len(),
    ensures
        ({
            let items = reply["segments"@]->Array_0;
            let r = result_of(Json::Object(reply));
            &&& r.segments.len() == items.len()
            &&& r.segments[i].text == text_in(items[i], "text"@)
            &&& r.segments[i].start.bits == seconds_in(items[i], "start"@)
            &&& r.segments[i].end.bits == seconds_in(items[i], "end"@)
        }),
{
}

/// A reply that lists nothing is one segment at time zero with the whole text, if it has one.
pub proof fn a_reply_without_items_is_its_text(reply: Json)
    requires
        !(reply matches Json::Object(m) && m.contains_key("segments"@) && (m["segments"@] matches Json::Array(
            items,
        ) && items.len() > 0)),
    ensures
        text_in(reply, "text"@).len() == 0 ==> result_of(reply).segments.len() == 0,
        text_in(reply, "text"@).len() > 0 ==> result_of(reply).segments == seq![
            SegmentView {
                start: Seconds { bits: 0 },
                end: Seconds { bits: 0 },
                text: text_in(reply, "text"@),
            },
        ],
{
    assert(listed_segments(reply).len() == 0);
}

/// The text of a reply is the one it gives, else its segments' with spaces between them; its
/// language is the one it names.
pub proof fn text_and_language_of_a_reply(reply: Json)
    ensures
        ({
            let r = result_of(reply);
            let has_text = reply matches Json::Object(m) && m.contains_key("text"@) && m["text"@] is Text;
            let has_language = reply matches Json::Object(m) && m.contains_key("language"@)
                && m["language"@] is Text;
            &&& has_text ==> r.full_text == text_in(reply, "text"@)
            &&& !has_text ==> r.full_text == joined_texts(r.segments)
            &&& has_language ==> r.language == Some(text_in(reply, "language"@))
            &&& !has_language ==> r.language is None
        }),
{
}

/// The bits of a float are its own.
pub proof fn floats_keep_their_bits(bits: u64)
    ensures
        number_bits(JsonNumber::Float(bits)) == bits,
{
}

/// Texts are joined with one space between each two.
pub proof fn texts_join(a: Seq<SegmentView>, b: Seq<SegmentView>, s: SegmentView)
    ensures
        joined_texts(seq![]) == Seq::<char>::empty(),
        joined_texts(seq![s]) == s.text,
        a.len() > 0 && b.len() > 0 ==> joined_texts(a + b) == joined_texts(a) + seq![' ']
            + joined_texts(b),
    decreases b.len(),
{
    if a.len() > 0 && b.len() > 0 {
        let c = a + b;
        assert(c.drop_last() =~= a + b.drop_last());
        assert(c.last() == b.last());
        if b.len() == 1 {
            assert(c.drop_last() =~= a);
            assert(b.last() == b[0]);
        } else {
            texts_join(a, b.drop_last(), s);
        }
        assert(joined_texts(c) =~= joined_texts(a) + seq![' '] + joined_texts(b));
    }
}

/// A reply that is JSON is its result; any other end of an exchange is its own error. What
/// is no JSON is shown with at most 200 characters of it.
pub proof fn every_end_has_its_error(reply: HttpReply)
    ensures
        match reply {
            HttpReply::Body(text) => match crate::json::json_parse(text@) {
                Ok(tree) => outcome_of(reply) == Ok::<TranscribeResultView, TranscribeErrorView>(
                    result_of(tree),
                ),
                Err(e) => outcome_of(reply) matches Err(TranscribeErrorView::NotJson(m, head)) && m
                    == e && head == text@.take(
                    if text@.len() < 200 {
                        text@.len() as int
                    } else {
                        200
                    },
                ),
            },
            HttpReply::Unreadable(e) => outcome_of(reply) matches Err(
                TranscribeErrorView::Unreadable(m),
            ) && m == e@,
            HttpReply::Status(code, body) => outcome_of(reply) matches Err(
                TranscribeErrorView::Status(c, m),
            ) && c == code && m == body@,
            HttpReply::Failed(e) => outcome_of(reply) matches Err(TranscribeErrorView::Failed(m)) && m
                == e@,
        },
{
    if let HttpReply::Body(text) = reply {
        if text@.len() <= 200 {
            assert(text@.take(text@.len() as int) =~= text@);
        }
    }
}

/// Every error in words, and the exit code that it leads to.
pub proof fn errors_in_words(code: u16, a: Seq<char>, b: Seq<char>)
    ensures
        TranscribeErrorView::Status(code, a).message() == "HTTP "@ + decimal(code as nat) + ": "@ + a,
        TranscribeErrorView::Failed(a).message() == "request failed: "@ + a,
        TranscribeErrorView::Unreadable(a).message() == "read body: "@ + a,
        TranscribeErrorView::NotJson(a, b).message() == "non-JSON response: "@ + a + " -- "@ + b,
        TranscribeErrorView::Status(code, a).exit_code() == 2,
        TranscribeErrorView::Failed(a).exit_code() == 3,
        TranscribeErrorView::Unreadable(a).exit_code() == 4,
        TranscribeErrorView::NotJson(a, b).exit_code() == 4,
{
}

/// Requests, calls, results and errors are seen as they are.
pub proof fn exchanges_are_seen_as_they_are(
    req: TranscribeRequest<'_>,
    call: HttpCall,
    result: TranscribeResult,
    error: TranscribeError,
    segments: Seq<Segment>,
    fields: Seq<(&str, &str)>,
)
    ensures
        req@.file_name == req.file_name@ && req@.file_bytes == req.file_bytes@ && req@.mime
            == req.mime@ && req@.translate == req.translate,
        req.language matches Some(l) ==> req@.language == Some(l@),
        req.language is None ==> req@.language is None,
        req.prompt matches Some(p) ==> req@.prompt == Some(p@),
        req.prompt is None ==> req@.prompt is None,
        call@.endpoint == call.endpoint@ && call@.content_type == call.content_type@
            && call@.timeout == call.timeout && call@.body == call.body@,
        call.authorization matches Some(a) ==> call@.authorization == Some(a@),
        call.authorization is None ==> call@.authorization is None,
        result@.full_text == result.full_text@ && result@.segments == segment_views(
            result.segments@,
        ),
        result.language matches Some(l) ==> result@.language == Some(l@),
        result.language is None ==> result@.language is None,
        match error {
            TranscribeError::Status(c, m) => error@ == TranscribeErrorView::Status(c, m@),
            TranscribeError::Failed(m) => error@ == TranscribeErrorView::Failed(m@),
            TranscribeError::Unreadable(m) => error@ == TranscribeErrorView::Unreadable(m@),
            TranscribeError::NotJson(m, h) => error@ == TranscribeErrorView::NotJson(m@, h@),
        },
        segment_views(segments).len() == segments.len(),
        forall|i: int|
            0 <= i < segments.len() ==> #[trigger] segment_views(segments)[i] == segments[i]@,
        field_views(fields).len() == fields.len(),
        forall|i: int|
            0 <= i < fields.len() ==> (#[trigger] field_views(fields)[i]).0 == fields[i].0@
                && field_views(fields)[i].1 == fields[i].1@,
{
}

} // verus!
