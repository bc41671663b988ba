//! `multipart/form-data` bodies: named text fields, then one file.
use crate::bytes::{push_bytes, push_text};
use crate::number::{
    hex_digits, hexadecimal, hexadecimal_length, padded_hexadecimal_is_injective, push_padded, zero_padded,
};
use crate::text::{push_str, string_of};
use vstd::prelude::*;
use vstd::utf8::encode_utf8;

verus! {

/// A text field: its name and its value.
pub type FieldView = (Seq<char>, Seq<char>);

/// What a list of fields holds.
pub open spec fn field_views(fields: Seq<(&str, &str)>) -> Seq<FieldView> {
    Seq::new(fields.len(), |i: int| (fields[i].0@, fields[i].1@))
}

pub open spec fn crlf() -> Seq<u8> {
    seq![13u8, 10u8]
}

/// What starts every part: two hyphens and the boundary.
pub open spec fn dash_boundary(boundary: Seq<char>) -> Seq<u8> {
    encode_utf8("--"@) + encode_utf8(boundary)
}

/// A text field, from its header to the end of its value.
pub open spec fn field_part(field: FieldView) -> Seq<u8> {
    encode_utf8("Content-Disposition: form-data; name=\""@) + encode_utf8(field.0) + encode_utf8(
        "\"\r\n\r\n"@,
    ) + encode_utf8(field.1)
}

/// The file, from its header to its last byte.
pub open spec fn file_part(file_name: Seq<char>, file_bytes: Seq<u8>, mime: Seq<char>) -> Seq<u8> {
    encode_utf8("Content-Disposition: form-data; name=\"file\"; filename=\""@) + encode_utf8(
        file_name,
    ) + encode_utf8("\"\r\nContent-Type: "@) + encode_utf8(mime) + encode_utf8("\r\n\r\n"@)
        + file_bytes
}

/// A part between the line that starts it and its line end.
pub open spec fn framed(boundary: Seq<char>, part: Seq<u8>) -> Seq<u8> {
    dash_boundary(boundary) + crlf() + part + crlf()
}

/// The parts, one behind the other.
pub open spec fn framed_all(boundary: Seq<char>, parts: Seq<Seq<u8>>) -> Seq<u8>
    decreases parts.len(),
{
    if parts.len() == 0 {
        seq![]
    } else {
        framed_all(boundary, parts.drop_last()) + framed(boundary, parts.last())
    }
}

/// A body of the given parts.
pub open spec fn body_of(boundary: Seq<char>, parts: Seq<Seq<u8>>) -> Seq<u8> {
    framed_all(boundary, parts) + dash_boundary(boundary) + encode_utf8("--"@) + crlf()
}

/// The parts of a request: the fields in their order, then the file.
pub open spec fn request_parts(
    fields: Seq<FieldView>,
    file_name: Seq<char>,
    file_bytes: Seq<u8>,
    mime: Seq<char>,
) -> Seq<Seq<u8>> {
    Seq::new(fields.len(), |i: int| field_part(fields[i])).push(
        file_part(file_name, file_bytes, mime),
    )
}

fn push_crlf(out: &mut Vec<u8>)
    ensures
        final(out)@ == old(out)@ + crlf(),
{
    out.push(13);
    out.push(10);
    assert(out@ =~= old(out)@ + crlf());
}

fn push_dash_boundary(out: &mut Vec<u8>, boundary: &str)
    ensures
        final(out)@ == old(out)@ + dash_boundary(boundary@),
{
    push_text(out, "--");
    push_text(out, boundary);
    assert(out@ =~= old(out)@ + dash_boundary(boundary@));
}

/// Appends a part between the line that starts it and its line end.
fn push_framed(out: &mut Vec<u8>, boundary: &str, part: &[u8])
    ensures
        final(out)@ == old(out)@ + framed(boundary@, part@),
{
    push_dash_boundary(out, boundary);
    push_crlf(out);
    push_bytes(out, part);
    push_crlf(out);
    assert(out@ =~= old(out)@ + framed(boundary@, part@));
}

fn field_bytes(name: &str, value: &str) -> (part: Vec<u8>)
    ensures
        part@ == field_part((name@, value@)),
{
    let mut part: Vec<u8> = Vec::new();
    push_text(&mut part, "Content-Disposition: form-data; name=\"");
    push_text(&mut part, name);
    push_text(&mut part, "\"\r\n\r\n");
    push_text(&mut part, value);
    assert(part@ =~= field_part((name@, value@)));
    part
}

fn file_with_header(file_name: &str, file_bytes: &[u8], mime: &str) -> (part: Vec<u8>)
    ensures
        part@ == file_part(file_name@, file_bytes@, mime@),
{
    let mut part: Vec<u8> = Vec::new();
    push_text(&mut part, "Content-Disposition: form-data; name=\"file\"; filename=\"");
    push_text(&mut part, file_name);
    push_text(&mut part, "\"\r\nContent-Type: ");
    push_text(&mut part, mime);
    push_text(&mut part, "\r\n\r\n");
    push_bytes(&mut part, file_bytes);
    assert(part@ =~= file_part(file_name@, file_bytes@, mime@));
    part
}

/// The body of a request.
pub fn build_multipart(
    boundary: &str,
    fields: &[(&str, &str)],
    file_name: &str,
    file_bytes: &[u8],
    mime: &str,
) -> (body: Vec<u8>)
    ensures
        body@ == body_of(
            boundary@,
            request_parts(field_views(fields@), file_name@, file_bytes@, mime@),
        ),
{
    let mut body: Vec<u8> = Vec::new();
    let ghost parts = request_parts(field_views(fields@), file_name@, file_bytes@, mime@);
    for i in 0..fields.len()
        invariant
            parts == request_parts(field_views(fields@), file_name@, file_bytes@, mime@),
            body@ == framed_all(boundary@, parts.take(i as int)),
    {
        let (name, value) = fields[i];
        push_framed(&mut body, boundary, field_bytes(name, value).as_slice());
        assert(parts.take(i + 1).drop_last() =~= parts.take(i as int));
        assert(parts.take(i + 1).last() == field_part((name@, value@)));
    }
    push_framed(&mut body, boundary, file_with_header(file_name, file_bytes, mime).as_slice());
    assert(parts.drop_last() =~= parts.take(fields@.len() as int));
    push_dash_boundary(&mut body, boundary);
    push_text(&mut body, "--");
    push_crlf(&mut body);
    body
}

/// A boundary from a time in nanoseconds and a process number.
pub open spec fn boundary_of(ns: u128, pid: u32) -> Seq<char> {
    "----whisperproxy"@ + zero_padded(hexadecimal(ns as nat), 32) + zero_padded(
        hexadecimal(pid as nat),
        8,
    )
}

pub fn make_boundary(ns: u128, pid: u32) -> (r: String)
    ensures
        r@ == boundary_of(ns, pid),
{
    let mut out: Vec<char> = Vec::new();
    push_str(&mut out, "----whisperproxy");
    push_padded(&mut out, hex_digits(ns).as_slice(), 32);
    push_padded(&mut out, hex_digits(pid as u128).as_slice(), 8);
    assert(out@ =~= boundary_of(ns, pid));
    string_of(out.as_slice())
}

/// The index of the first occurrence of a pattern.
pub open spec fn search(s: Seq<u8>, pattern: Seq<u8>) -> Option<int>
    decreases s.len(),
{
    if pattern.is_prefix_of(s) {
        Some(0)
    } else if s.len() == 0 {
        None
    } else {
        match search(s.drop_first(), pattern) {
            Some(i) => Some(i + 1),
            None => None,
        }
    }
}

/// What stands between two parts: a line end, two hyphens and the boundary.
pub open spec fn delimiter(boundary: Seq<char>) -> Seq<u8> {
    crlf() + dash_boundary(boundary)
}

/// The parts of a body, read as its receiver reads them: the delimiter, then either two
/// hyphens that end the body, or a line end and a part up to the next delimiter. The
/// line end before the body counts to the first delimiter.
pub open spec fn parts_of(s: Seq<u8>, delimiter: Seq<u8>) -> Option<Seq<Seq<u8>>>
    decreases s.len(),
{
    let rest = s.skip(delimiter.len() as int);
    if !delimiter.is_prefix_of(s) || delimiter.len() == 0 {
        None
    } else if rest == encode_utf8("--"@) + crlf() {
        Some(seq![])
    } else if !crlf().is_prefix_of(rest) {
        None
    } else {
        let content = rest.skip(2);
        match search(content, delimiter) {
            None => None,
            Some(n) => if 0 <= n <= content.len() {
                match parts_of(content.skip(n), delimiter) {
                    None => None,
                    Some(parts) => Some(seq![content.take(n)] + parts),
                }
            } else {
                None
            },
        }
    }
}

/// A body of parts as its receiver meets it, from the first part on.
spec fn delimited(boundary: Seq<char>, parts: Seq<Seq<u8>>) -> Seq<u8>
    decreases parts.len(),
{
    if parts.len() == 0 {
        delimiter(boundary) + (encode_utf8("--"@) + crlf())
    } else {
        delimiter(boundary) + (crlf() + (parts[0] + delimited(boundary, parts.drop_first())))
    }
}

proof fn framed_from_the_front(boundary: Seq<char>, parts: Seq<Seq<u8>>)
    requires
        parts.len() > 0,
    ensures
        framed_all(boundary, parts) == framed(boundary, parts[0]) + framed_all(
            boundary,
            parts.drop_first(),
        ),
    decreases parts.len(),
{
    if parts.len() == 1 {
        assert(parts.drop_last() =~= Seq::<Seq<u8>>::empty());
        assert(parts.drop_first() =~= Seq::<Seq<u8>>::empty());
        assert(framed_all(boundary, parts.drop_last()) =~= Seq::<u8>::empty());
        assert(framed_all(boundary, parts) =~= framed(boundary, parts[0]));
        assert(framed(boundary, parts[0]) + framed_all(boundary, parts.drop_first()) =~= framed(
            boundary,
            parts[0],
        ));
    } else {
        framed_from_the_front(boundary, parts.drop_last());
        assert(parts.drop_last().drop_first() =~= parts.drop_first().drop_last());
        let first = framed(boundary, parts[0]);
        let middle = framed_all(boundary, parts.drop_first().drop_last());
        let last = framed(boundary, parts.last());
        assert((first + middle) + last =~= first + (middle + last));
    }
}

proof fn body_is_delimited(boundary: Seq<char>, parts: Seq<Seq<u8>>)
    ensures
        crlf() + body_of(boundary, parts) == delimited(boundary, parts),
    decreases parts.len(),
{
    let dash = dash_boundary(boundary);
    let end = encode_utf8("--"@);
    if parts.len() == 0 {
        assert(crlf() + body_of(boundary, parts) =~= delimited(boundary, parts));
    } else {
        let rest = parts.drop_first();
        body_is_delimited(boundary, rest);
        framed_from_the_front(boundary, parts);
        let tail = framed_all(boundary, rest) + dash + end + crlf();
        assert(body_of(boundary, parts) =~= framed(boundary, parts[0]) + tail);
        assert(tail == body_of(boundary, rest));
        assert(crlf() + (framed(boundary, parts[0]) + tail) =~= delimiter(boundary) + (crlf() + (
        parts[0] + (crlf() + tail))));
    }
}

/// A pattern that does not occur in a part, and whose first byte occurs in it once, is
/// first met where the part ends and the pattern follows.
proof fn search_ends_a_part(part: Seq<u8>, rest: Seq<u8>, pattern: Seq<u8>)
    requires
        pattern.len() > 0,
        forall|j: int| 0 < j < pattern.len() ==> #[trigger] pattern[j] != pattern[0],
        pattern.is_prefix_of(rest),
        search(part, pattern) is None,
    ensures
        search(part + rest, pattern) == Some(part.len() as int),
    decreases part.len(),
{
    let s = part + rest;
    if part.len() == 0 {
        assert(s =~= rest);
    } else {
        if pattern.is_prefix_of(s) {
            if pattern.len() <= part.len() {
                assert(pattern =~= part.subrange(0, pattern.len() as int)) by {
                    assert(pattern =~= s.subrange(0, pattern.len() as int));
                }
                assert(pattern.is_prefix_of(part));
                assert(false);
            } else {
                let n = part.len() as int;
                assert(pattern[n] == s.subrange(0, pattern.len() as int)[n]);
                assert(s[n] == rest[0]);
                assert(rest[0] == rest.subrange(0, pattern.len() as int)[0]);
                assert(false);
            }
        }
        assert(s.drop_first() =~= part.drop_first() + rest);
        search_ends_a_part(part.drop_first(), rest, pattern);
    }
}

/// A receiver reads back the parts of a body, in their order, if the boundary holds no
/// carriage return and the delimiter occurs in no part.
pub proof fn parts_read_back(boundary: Seq<char>, parts: Seq<Seq<u8>>)
    requires
        !encode_utf8(boundary).contains(13u8),
        forall|i: int|
            0 <= i < parts.len() ==> search(#[trigger] parts[i], delimiter(boundary)) is None,
    ensures
        parts_of(crlf() + body_of(boundary, parts), delimiter(boundary)) == Some(parts),
{
    body_is_delimited(boundary, parts);
    delimited_reads_back(boundary, parts);
}

/// A delimiter and a line end open a part, which the next delimiter ends.
#[verifier::spinoff_prover]
proof fn part_opens(content: Seq<u8>, d: Seq<u8>)
    requires
        d.len() > 0,
    ensures
        parts_of(d + (crlf() + content), d) == (match search(content, d) {
            None => None,
            Some(n) => if 0 <= n <= content.len() {
                match parts_of(content.skip(n), d) {
                    None => None,
                    Some(parts) => Some(seq![content.take(n)] + parts),
                }
            } else {
                None
            },
        }),
{
    hyphens();
    let s = d + (crlf() + content);
    let rest = s.skip(d.len() as int);
    assert(s.subrange(0, d.len() as int) =~= d);
    assert(rest =~= crlf() + content);
    assert(rest[0] == 13);
    assert((encode_utf8("--"@) + crlf())[0] == 45);
    assert(rest.subrange(0, 2) =~= crlf());
    assert(rest.skip(2) =~= content);
}

#[verifier::spinoff_prover]
proof fn part_reads_back(part: Seq<u8>, tail: Seq<u8>, d: Seq<u8>, parts: Seq<Seq<u8>>)
    requires
        d.len() > 0,
        forall|j: int| 0 < j < d.len() ==> #[trigger] d[j] != d[0],
        d.is_prefix_of(tail),
        search(part, d) is None,
        parts_of(tail, d) == Some(parts),
    ensures
        parts_of(d + (crlf() + (part + tail)), d) == Some(seq![part] + parts),
{
    let content = part + tail;
    part_opens(content, d);
    search_ends_a_part(part, tail, d);
    assert(content.take(part.len() as int) =~= part);
    assert(content.skip(part.len() as int) =~= tail);
}

proof fn end_reads_back(d: Seq<u8>)
    requires
        d.len() > 0,
    ensures
        parts_of(d + (encode_utf8("--"@) + crlf()), d) == Some(Seq::<Seq<u8>>::empty()),
{
    let s = d + (encode_utf8("--"@) + crlf());
    assert(d.is_prefix_of(s)) by {
        assert(s.subrange(0, d.len() as int) =~= d);
    }
    assert(s.skip(d.len() as int) =~= encode_utf8("--"@) + crlf());
}

proof fn delimiter_starts_once(boundary: Seq<char>)
    requires
        !encode_utf8(boundary).contains(13u8),
    ensures
        delimiter(boundary).len() > 0,
        forall|j: int|
            0 < j < delimiter(boundary).len() ==> #[trigger] delimiter(boundary)[j] != delimiter(
                boundary,
            )[0],
{
    hyphens();
    let d = delimiter(boundary);
    assert forall|j: int| 0 < j < d.len() implies #[trigger] d[j] != d[0] by {
        if j >= 4 {
            assert(d[j] == encode_utf8(boundary)[j - 4]);
        }
    }
}

proof fn delimited_reads_back(boundary: Seq<char>, parts: Seq<Seq<u8>>)
    requires
        !encode_utf8(boundary).contains(13u8),
        forall|i: int|
            0 <= i < parts.len() ==> search(#[trigger] parts[i], delimiter(boundary)) is None,
    ensures
        parts_of(delimited(boundary, parts), delimiter(boundary)) == Some(parts),
        delimiter(boundary).is_prefix_of(delimited(boundary, parts)),
    decreases parts.len(),
{
    let d = delimiter(boundary);
    delimiter_starts_once(boundary);
    if parts.len() == 0 {
        end_reads_back(d);
        assert(parts =~= Seq::<Seq<u8>>::empty());
        assert(delimited(boundary, parts).subrange(0, d.len() as int) =~= d);
    } else {
        let tail = delimited(boundary, parts.drop_first());
        assert forall|i: int| 0 <= i < parts.drop_first().len() implies search(
            #[trigger] parts.drop_first()[i],
            d,
        ) is None by {
            assert(parts.drop_first()[i] == parts[i + 1]);
        }
        delimited_reads_back(boundary, parts.drop_first());
        part_reads_back(parts[0], tail, d, parts.drop_first());
        assert(seq![parts[0]] + parts.drop_first() =~= parts);
        assert(delimited(boundary, parts).subrange(0, d.len() as int) =~= d);
    }
}

proof fn hyphens()
    ensures
        encode_utf8("--"@) == seq![45u8, 45u8],
{
    reveal_strlit("--");
    vstd::utf8::is_ascii_chars_encode_utf8("--"@);
    assert(encode_utf8("--"@) =~= seq![45u8, 45u8]);
}

/// A boundary has 56 characters, all ASCII and none a carriage return, so a receiver can
/// split a body by it.
pub proof fn boundary_form(ns: u128, pid: u32)
    ensures
        boundary_of(ns, pid).len() == 56,
        !encode_utf8(boundary_of(ns, pid)).contains(13u8),
{
    reveal_strlit("----whisperproxy");
    let b = boundary_of(ns, pid);
    padded_lengths(ns, pid);
    hexadecimal_is_plain(ns as nat);
    hexadecimal_is_plain(pid as nat);
    assert forall|i: int| 0 <= i < b.len() implies '-' <= #[trigger] b[i] <= 'z' by {
        let head = "----whisperproxy"@;
        let mid = zero_padded(hexadecimal(ns as nat), 32);
        if i < 16 {
            assert(b[i] == head[i]);
        } else if i < 48 {
            assert(b[i] == mid[i - 16]);
        } else {
            assert(b[i] == zero_padded(hexadecimal(pid as nat), 8)[i - 48]);
        }
    }
    assert(vstd::utf8::is_ascii_chars(b));
    vstd::utf8::is_ascii_chars_encode_utf8(b);
    assert forall|i: int| 0 <= i < encode_utf8(b).len() implies encode_utf8(b)[i] != 13u8 by {
        assert('-' <= b[i] <= 'z');
    }
}

proof fn hexadecimal_is_plain(n: nat)
    ensures
        forall|i: int|
            0 <= i < hexadecimal(n).len() ==> '0' <= #[trigger] hexadecimal(n)[i] <= 'f',
    decreases n,
{
    if n >= 16 {
        hexadecimal_is_plain(n / 16);
        assert forall|i: int| 0 <= i < hexadecimal(n).len() implies '0' <= #[trigger] hexadecimal(
            n,
        )[i] <= 'f' by {
            if i < hexadecimal(n / 16).len() {
                assert(hexadecimal(n)[i] == hexadecimal(n / 16)[i]);
            }
        }
    }
}

/// Two requests at different times or from different processes have different boundaries.
pub proof fn boundaries_differ(ns1: u128, pid1: u32, ns2: u128, pid2: u32)
    requires
        boundary_of(ns1, pid1) == boundary_of(ns2, pid2),
    ensures
        ns1 == ns2,
        pid1 == pid2,
{
    reveal_strlit("----whisperproxy");
    boundary_form(ns1, pid1);
    boundary_form(ns2, pid2);
    padded_lengths(ns1, pid1);
    padded_lengths(ns2, pid2);
    let b1 = boundary_of(ns1, pid1);
    let b2 = boundary_of(ns2, pid2);
    assert(b1.subrange(16, 48) =~= zero_padded(hexadecimal(ns1 as nat), 32));
    assert(b2.subrange(16, 48) =~= zero_padded(hexadecimal(ns2 as nat), 32));
    assert(b1.subrange(48, 56) =~= zero_padded(hexadecimal(pid1 as nat), 8));
    assert(b2.subrange(48, 56) =~= zero_padded(hexadecimal(pid2 as nat), 8));
    padded_hexadecimal_is_injective(ns1 as nat, ns2 as nat, 32);
    padded_hexadecimal_is_injective(pid1 as nat, pid2 as nat, 8);
}

/// What follows the first empty line of a field's part is the value, if the name holds
/// no carriage return.
pub proof fn field_value_reads_back(field: FieldView)
    requires
        !encode_utf8(field.0).contains(13u8),
    ensures
        ({
            let part = field_part(field);
            let blank = crlf() + crlf();
            &&& search(part, blank) is Some
            &&& part.skip(search(part, blank)->0 + 4) == encode_utf8(field.1)
        }),
{
    reveal_strlit("Content-Disposition: form-data; name=\"");
    reveal_strlit("\"\r\n\r\n");
    let opening = "Content-Disposition: form-data; name=\""@;
    let closing = "\"\r\n\r\n"@;
    vstd::utf8::is_ascii_chars_encode_utf8(opening);
    vstd::utf8::is_ascii_chars_encode_utf8(closing);
    let head = encode_utf8(opening) + encode_utf8(field.0) + seq![34u8];
    let blank = crlf() + crlf();
    assert(encode_utf8(closing) =~= seq![34u8] + blank);
    assert(field_part(field) =~= head + (blank + encode_utf8(field.1)));
    assert forall|i: int| 0 <= i < head.len() implies head[i] != 13u8 by {
        let n = encode_utf8(opening).len();
        if i < n {
            assert(head[i] == encode_utf8(opening)[i]);
        } else if i < head.len() - 1 {
            assert(head[i] == encode_utf8(field.0)[i - n]);
        }
    }
    assert((blank + encode_utf8(field.1)).subrange(0, 4) =~= blank);
    search_passes(head, blank + encode_utf8(field.1), blank);
    assert(field_part(field).skip(head.len() as int + 4) =~= encode_utf8(field.1));
}

/// The first line of the file's header.
spec fn name_line(file_name: Seq<char>) -> Seq<u8> {
    encode_utf8("Content-Disposition: form-data; name=\"file\"; filename=\""@) + encode_utf8(
        file_name,
    ) + seq![34u8]
}

/// The second line of the file's header, from the line feed before it on.
spec fn type_line(mime: Seq<char>) -> Seq<u8> {
    encode_utf8("\"\r\nContent-Type: "@).skip(2) + encode_utf8(mime)
}

#[verifier::spinoff_prover]
proof fn name_line_is_one_line(file_name: Seq<char>)
    requires
        !encode_utf8(file_name).contains(13u8),
    ensures
        forall|i: int| 0 <= i < name_line(file_name).len() ==> #[trigger] name_line(file_name)[i] != 13u8,
{
    reveal_strlit("Content-Disposition: form-data; name=\"file\"; filename=\"");
    let a = "Content-Disposition: form-data; name=\"file\"; filename=\""@;
    vstd::utf8::is_ascii_chars_encode_utf8(a);
    let line = name_line(file_name);
    assert forall|i: int| 0 <= i < line.len() implies #[trigger] line[i] != 13u8 by {
        let n = encode_utf8(a).len();
        if i < n {
            assert(line[i] == encode_utf8(a)[i]);
        } else if i < line.len() - 1 {
            assert(line[i] == encode_utf8(file_name)[i - n]);
        }
    }
}

#[verifier::spinoff_prover]
proof fn type_line_is_one_line(mime: Seq<char>)
    requires
        !encode_utf8(mime).contains(13u8),
    ensures
        type_line(mime).len() >= 2,
        type_line(mime)[1] == 67,
        encode_utf8("\"\r\nContent-Type: "@) + encode_utf8(mime) == seq![34u8, 13u8] + type_line(mime),
        forall|i: int| 0 <= i < type_line(mime).len() ==> #[trigger] type_line(mime)[i] != 13u8,
{
    reveal_strlit("\"\r\nContent-Type: ");
    let b = "\"\r\nContent-Type: "@;
    vstd::utf8::is_ascii_chars_encode_utf8(b);
    let line = type_line(mime);
    assert(encode_utf8(b) + encode_utf8(mime) =~= seq![34u8, 13u8] + line);
    assert forall|i: int| 0 <= i < line.len() implies #[trigger] line[i] != 13u8 by {
        let n = encode_utf8(b).skip(2).len();
        if i < n {
            assert(line[i] == encode_utf8(b)[i + 2]);
        } else {
            assert(line[i] == encode_utf8(mime)[i - n]);
        }
    }
}

#[verifier::spinoff_prover]
proof fn file_part_in_lines(file_name: Seq<char>, file_bytes: Seq<u8>, mime: Seq<char>)
    requires
        !encode_utf8(mime).contains(13u8),
    ensures
        file_part(file_name, file_bytes, mime) == name_line(file_name) + (seq![13u8] + (type_line(mime)
            + (crlf() + crlf() + file_bytes))),
{
    reveal_strlit("\r\n\r\n");
    vstd::utf8::is_ascii_chars_encode_utf8("\r\n\r\n"@);
    assert(encode_utf8("\r\n\r\n"@) =~= crlf() + crlf());
    type_line_is_one_line(mime);
    let a = encode_utf8("Content-Disposition: form-data; name=\"file\"; filename=\""@);
    let name = encode_utf8(file_name);
    let b = encode_utf8("\"\r\nContent-Type: "@);
    let blank = crlf() + crlf();
    assert(a + name + b + encode_utf8(mime) + blank + file_bytes =~= a + name + (b + encode_utf8(mime))
        + blank + file_bytes);
    assert(a + name + (seq![34u8, 13u8] + type_line(mime)) + blank + file_bytes =~= name_line(
        file_name,
    ) + (seq![13u8] + (type_line(mime) + (blank + file_bytes))));
}

/// What follows the first empty line of the file's part is the file, if its name and its
/// type hold no carriage return.
#[verifier::spinoff_prover]
pub proof fn file_bytes_read_back(file_name: Seq<char>, file_bytes: Seq<u8>, mime: Seq<char>)
    requires
        !encode_utf8(file_name).contains(13u8),
        !encode_utf8(mime).contains(13u8),
    ensures
        ({
            let part = file_part(file_name, file_bytes, mime);
            let blank = crlf() + crlf();
            &&& search(part, blank) is Some
            &&& part.skip(search(part, blank)->0 + 4) == file_bytes
        }),
{
    let blank = crlf() + crlf();
    let h1 = name_line(file_name);
    let h2 = type_line(mime);
    let after = blank + file_bytes;
    let s = seq![13u8] + (h2 + after);
    file_part_in_lines(file_name, file_bytes, mime);
    name_line_is_one_line(file_name);
    type_line_is_one_line(mime);
    assert(after.subrange(0, 4) =~= blank);
    search_passes(h2, after, blank);
    assert(s.drop_first() =~= h2 + after);
    assert(!blank.is_prefix_of(s)) by {
        assert(s[2] == 67);
        assert(blank[2] == 13);
        if blank.is_prefix_of(s) {
            assert(s.subrange(0, 4)[2] == 13);
        }
    }
    assert(search(s, blank) == Some(h2.len() as int + 1));
    search_skips(h1, s, blank);
    assert((h1 + s).skip(h1.len() as int + h2.len() + 1 + 4) =~= file_bytes);
}

/// A stretch without the first byte of a pattern is passed over.
proof fn search_skips(head: Seq<u8>, rest: Seq<u8>, pattern: Seq<u8>)
    requires
        pattern.len() > 0,
        forall|i: int| 0 <= i < head.len() ==> #[trigger] head[i] != pattern[0],
    ensures
        search(head + rest, pattern) == (match search(rest, pattern) {
            Some(i) => Some(i + head.len()),
            None => None,
        }),
    decreases head.len(),
{
    let s = head + rest;
    if head.len() == 0 {
        assert(s =~= rest);
    } else {
        if pattern.is_prefix_of(s) {
            assert(s.subrange(0, pattern.len() as int)[0] == head[0]);
        }
        assert(s.drop_first() =~= head.drop_first() + rest);
        search_skips(head.drop_first(), rest, pattern);
    }
}

proof fn search_passes(head: Seq<u8>, rest: Seq<u8>, pattern: Seq<u8>)
    requires
        pattern.len() > 0,
        forall|i: int| 0 <= i < head.len() ==> #[trigger] head[i] != pattern[0],
        rest.len() >= pattern.len(),
        rest.subrange(0, pattern.len() as int) == pattern,
    ensures
        search(head + rest, pattern) == Some(head.len() as int),
{
    search_skips(head, rest, pattern);
    assert(pattern.is_prefix_of(rest));
}

proof fn sixteen_to_the()
    ensures
        vstd::arithmetic::power::pow(16, 8) == 0x1_0000_0000,
        vstd::arithmetic::power::pow(16, 32) == 0x1_0000_0000_0000_0000_0000_0000_0000_0000,
{
    assert(vstd::arithmetic::power::pow(16, 8) == 0x1_0000_0000) by {
        reveal_with_fuel(vstd::arithmetic::power::pow, 9);
    }
    vstd::arithmetic::power::lemma_pow_adds(16, 8, 8);
    assert(vstd::arithmetic::power::pow(16, 16) == 0x1_0000_0000_0000_0000);
    vstd::arithmetic::power::lemma_pow_adds(16, 16, 16);
    assert(0x1_0000_0000_0000_0000 * 0x1_0000_0000_0000_0000
        == 0x1_0000_0000_0000_0000_0000_0000_0000_0000);
}

proof fn padded_lengths(ns: u128, pid: u32)
    ensures
        zero_padded(hexadecimal(ns as nat), 32).len() == 32,
        zero_padded(hexadecimal(pid as nat), 8).len() == 8,
{
    sixteen_to_the();
    hexadecimal_length(ns as nat, 32);
    hexadecimal_length(pid as nat, 8);
}

proof fn framed_in_two(boundary: Seq<char>, a: Seq<Seq<u8>>, b: Seq<Seq<u8>>)
    ensures
        framed_all(boundary, a + b) == framed_all(boundary, a) + framed_all(boundary, b),
    decreases b.len(),
{
    if b.len() == 0 {
        assert(a + b =~= a);
        assert(framed_all(boundary, a) + framed_all(boundary, b) =~= framed_all(boundary, a));
    } else {
        framed_in_two(boundary, a, b.drop_last());
        assert((a + b).drop_last() =~= a + b.drop_last());
        assert((a + b).last() == b.last());
        let x = framed_all(boundary, a);
        let y = framed_all(boundary, b.drop_last());
        let z = framed(boundary, b.last());
        assert((x + y) + z =~= x + (y + z));
    }
}

/// A body splits at its fields: the parts of the first fields, then a body with the others.
pub proof fn body_splits_at_its_fields(
    boundary: Seq<char>,
    first: Seq<FieldView>,
    others: Seq<FieldView>,
    file_name: Seq<char>,
    file_bytes: Seq<u8>,
    mime: Seq<char>,
)
    ensures
        body_of(boundary, request_parts(first + others, file_name, file_bytes, mime)) == framed_all(
            boundary,
            Seq::new(first.len(), |i: int| field_part(first[i])),
        ) + body_of(boundary, request_parts(others, file_name, file_bytes, mime)),
{
    let a = Seq::new(first.len(), |i: int| field_part(first[i]));
    let b = request_parts(others, file_name, file_bytes, mime);
    assert(request_parts(first + others, file_name, file_bytes, mime) =~= a + b);
    framed_in_two(boundary, a, b);
    assert(body_of(boundary, a + b) =~= framed_all(boundary, a) + body_of(boundary, b));
}

} // verus!
