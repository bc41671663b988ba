//! Text as a sequence of characters: trimming, splitting into lines, searching,
//! replacing, and comparing without regard to ASCII case.
//!
//! The specifications are functions on `Seq<char>`, the view of `str` and `String`.
//! The executable functions work on character slices.
use vstd::prelude::*;
use vstd::slice::slice_subrange;

verus! {

/// `String::push` appends one character.
pub assume_specification[ String::push ](s: &mut String, c: char)
    ensures
        final(s)@ == old(s)@.push(c),
;

/// The characters of a string.
pub fn chars_of(s: &str) -> (r: Vec<char>)
    ensures
        r@ == s@,
{
    let mut r: Vec<char> = Vec::new();
    for c in it: s.chars()
        invariant
            r@ == it.seq().take(it.index()),
            it.seq() == s@,
    {
        proof {
            assert(it.seq().take(it.index() + 1) =~= it.seq().take(it.index()).push(c));
        }
        r.push(c);
    }
    assert(r@ =~= s@);
    r
}

/// The string that holds the given characters.
pub fn string_of(cs: &[char]) -> (r: String)
    ensures
        r@ == cs@,
{
    let mut r = String::new();
    for i in 0..cs.len()
        invariant
            r@ == cs@.take(i as int),
    {
        proof {
            assert(cs@.take(i + 1) =~= cs@.take(i as int).push(cs@[i as int]));
        }
        r.push(cs[i]);
    }
    assert(r@ =~= cs@);
    r
}

/// Equality of two character slices.
pub fn same(a: &[char], b: &[char]) -> (r: bool)
    ensures
        r == (a@ == b@),
{
    if a.len() != b.len() {
        return false;
    }
    for i in 0..a.len()
        invariant
            a@.len() == b@.len(),
            a@.take(i as int) == b@.take(i as int),
    {
        if a[i] != b[i] {
            return false;
        }
        proof {
            assert(a@.take(i + 1) =~= a@.take(i as int).push(a@[i as int]));
            assert(b@.take(i + 1) =~= b@.take(i as int).push(b@[i as int]));
        }
    }
    proof {
        assert(a@.take(a@.len() as int) =~= a@);
        assert(b@.take(b@.len() as int) =~= b@);
    }
    true
}

/// Equality of two strings.
pub fn same_str(a: &str, b: &str) -> (r: bool)
    ensures
        r == (a@ == b@),
{
    same(chars_of(a).as_slice(), chars_of(b).as_slice())
}

/// Whether the character has the Unicode property `White_Space`.
pub open spec fn is_white_space(c: char) -> bool {
    ||| '\u{9}' <= c <= '\u{d}'
    ||| c == '\u{20}'
    ||| c == '\u{85}'
    ||| c == '\u{a0}'
    ||| c == '\u{1680}'
    ||| '\u{2000}' <= c <= '\u{200a}'
    ||| c == '\u{2028}'
    ||| c == '\u{2029}'
    ||| c == '\u{202f}'
    ||| c == '\u{205f}'
    ||| c == '\u{3000}'
}

pub fn white_space(c: char) -> (r: bool)
    ensures
        r == is_white_space(c),
{
    ('\u{9}' <= c && c <= '\u{d}') || c == '\u{20}' || c == '\u{85}' || c == '\u{a0}' || c
        == '\u{1680}' || ('\u{2000}' <= c && c <= '\u{200a}') || c == '\u{2028}' || c == '\u{2029}'
        || c == '\u{202f}' || c == '\u{205f}' || c == '\u{3000}'
}

/// A set of characters to strip from the ends of a text.
#[derive(Clone, Copy)]
pub enum CharClass {
    WhiteSpace,
    One(char),
}

impl CharClass {
    pub open spec fn admits(self, c: char) -> bool {
        match self {
            CharClass::WhiteSpace => is_white_space(c),
            CharClass::One(d) => c == d,
        }
    }

    pub fn test(&self, c: char) -> (r: bool)
        ensures
            r == self.admits(c),
    {
        match self {
            CharClass::WhiteSpace => white_space(c),
            CharClass::One(d) => c == *d,
        }
    }
}

/// The text without its leading characters of the class.
pub open spec fn drop_leading(s: Seq<char>, k: CharClass) -> Seq<char>
    decreases s.len(),
{
    if s.len() > 0 && k.admits(s[0]) {
        drop_leading(s.drop_first(), k)
    } else {
        s
    }
}

/// The text without its trailing characters of the class.
pub open spec fn drop_trailing(s: Seq<char>, k: CharClass) -> Seq<char>
    decreases s.len(),
{
    if s.len() > 0 && k.admits(s.last()) {
        drop_trailing(s.drop_last(), k)
    } else {
        s
    }
}

/// The text without the white space at its ends.
pub open spec fn trimmed(s: Seq<char>) -> Seq<char> {
    drop_trailing(drop_leading(s, CharClass::WhiteSpace), CharClass::WhiteSpace)
}

pub fn trim_start<'a>(s: &'a [char], k: CharClass) -> (r: &'a [char])
    ensures
        r@ == drop_leading(s@, k),
{
    let mut i: usize = 0;
    proof {
        assert(s@.skip(0) =~= s@);
    }
    while i < s.len() && k.test(s[i])
        invariant
            i <= s@.len(),
            drop_leading(s@, k) == drop_leading(s@.skip(i as int), k),
        decreases s.len() - i,
    {
        proof {
            assert(s@.skip(i as int).drop_first() =~= s@.skip(i + 1));
        }
        i = i + 1;
    }
    let r = slice_subrange(s, i, s.len());
    assert(r@ =~= s@.skip(i as int));
    r
}

pub fn trim_end<'a>(s: &'a [char], k: CharClass) -> (r: &'a [char])
    ensures
        r@ == drop_trailing(s@, k),
{
    let mut n: usize = s.len();
    proof {
        assert(s@.take(n as int) =~= s@);
    }
    while n > 0 && k.test(s[n - 1])
        invariant
            n <= s@.len(),
            drop_trailing(s@, k) == drop_trailing(s@.take(n as int), k),
        decreases n,
    {
        proof {
            assert(s@.take(n as int).drop_last() =~= s@.take(n - 1));
        }
        n = n - 1;
    }
    let r = slice_subrange(s, 0, n);
    assert(r@ =~= s@.take(n as int));
    r
}

pub fn trim<'a>(s: &'a [char]) -> (r: &'a [char])
    ensures
        r@ == trimmed(s@),
{
    trim_end(trim_start(s, CharClass::WhiteSpace), CharClass::WhiteSpace)
}

/// `trim` on strings.
pub fn trim_str(s: &str) -> (r: String)
    ensures
        r@ == trimmed(s@),
{
    string_of(trim(chars_of(s).as_slice()))
}

/// The index of the first `c`, or the length where there is none.
pub open spec fn position(s: Seq<char>, c: char) -> int
    decreases s.len(),
{
    if s.len() == 0 || s[0] == c {
        0
    } else {
        1 + position(s.drop_first(), c)
    }
}

/// `position` is the least index at which `c` stands.
pub proof fn position_is_first(s: Seq<char>, c: char)
    ensures
        0 <= position(s, c) <= s.len(),
        forall|i: int| 0 <= i < position(s, c) ==> s[i] != c,
        position(s, c) < s.len() ==> s[position(s, c)] == c,
        position(s, c) < s.len() <==> s.contains(c),
    decreases s.len(),
{
    if s.len() > 0 && s[0] != c {
        position_is_first(s.drop_first(), c);
        assert forall|i: int| 0 <= i < position(s, c) implies s[i] != c by {
            if i > 0 {
                assert(s.drop_first()[i - 1] == s[i]);
            }
        }
        if s.contains(c) {
            let k = choose|k: int| 0 <= k < s.len() && s[k] == c;
            assert(s.drop_first()[k - 1] == c);
        }
    } else if s.len() > 0 {
        assert(s[0] == c);
    }
}

/// Passing over another character moves the search on by one.
proof fn position_step(s: Seq<char>, c: char, i: int)
    requires
        0 <= i < s.len(),
        s[i] != c,
    ensures
        i + position(s.skip(i), c) == i + 1 + position(s.skip(i + 1), c),
{
    assert(s.skip(i).drop_first() =~= s.skip(i + 1));
}

pub fn find(s: &[char], c: char) -> (r: usize)
    ensures
        r == position(s@, c),
        r <= s@.len(),
        r < s@.len() ==> s@[r as int] == c,
{
    let mut i: usize = 0;
    proof {
        assert(s@.skip(0) =~= s@);
    }
    while i < s.len() && s[i] != c
        invariant
            i <= s@.len(),
            position(s@, c) == i + position(s@.skip(i as int), c),
        decreases s.len() - i,
    {
        proof {
            position_step(s@, c, i as int);
        }
        i = i + 1;
    }
    i
}

/// A line without the carriage return that ends it, if one does.
pub open spec fn without_carriage_return(s: Seq<char>) -> Seq<char> {
    if s.len() > 0 && s.last() == '\r' {
        s.drop_last()
    } else {
        s
    }
}

/// The lines of a text. A line ends at a line feed, or at a carriage return and
/// a line feed; the end of the text ends the last line, unless that is empty.
pub open spec fn lines(s: Seq<char>) -> Seq<Seq<char>>
    decreases s.len(),
    via lines_decreases
{
    let n = position(s, '\n');
    if s.len() == 0 {
        seq![]
    } else if n == s.len() {
        seq![s]
    } else {
        seq![without_carriage_return(s.take(n))] + lines(s.skip(n + 1))
    }
}

#[via_fn]
proof fn lines_decreases(s: Seq<char>) {
    position_is_first(s, '\n');
}

/// The lines of a text, in order.
pub fn split_lines<'a>(s: &'a [char]) -> (r: Vec<&'a [char]>)
    ensures
        r@.len() == lines(s@).len(),
        forall|i: int| 0 <= i < r@.len() ==> (#[trigger] r@[i])@ == lines(s@)[i],
{
    let mut r: Vec<&'a [char]> = Vec::new();
    let mut rest: &'a [char] = s;
    while rest.len() > 0
        invariant
            r@.len() + lines(rest@).len() == lines(s@).len(),
            forall|i: int| 0 <= i < r@.len() ==> (#[trigger] r@[i])@ == lines(s@)[i],
            forall|i: int| 0 <= i < lines(rest@).len() ==> #[trigger] lines(rest@)[i] == lines(s@)[r@.len() + i],
        decreases rest.len(),
    {
        let n = find(rest, '\n');
        let ghost before = rest@;
        let ghost done = r@;
        if n == rest.len() {
            assert(lines(before)[0] == before);
            r.push(rest);
            rest = slice_subrange(rest, n, n);
        } else {
            let line = slice_subrange(rest, 0, n);
            let line = if n > 0 && rest[n - 1] == '\r' {
                slice_subrange(line, 0, n - 1)
            } else {
                line
            };
            assert(before.subrange(0, n as int) =~= before.take(n as int));
            assert(line@ =~= without_carriage_return(before.take(n as int)));
            assert(lines(before)[0] == line@);
            r.push(line);
            rest = slice_subrange(rest, n + 1, rest.len());
            assert(rest@ =~= before.skip(n + 1));
            assert(lines(before) == seq![line@] + lines(rest@));
        }
        assert forall|i: int| 0 <= i < lines(rest@).len() implies #[trigger] lines(rest@)[i] == lines(s@)[r@.len() + i] by {
            assert(lines(before)[i + 1] == lines(rest@)[i]);
        }
    }
    r
}

/// An ASCII capital's small letter; any other character itself.
pub open spec fn lower_char(c: char) -> char {
    if 'A' <= c <= 'Z' {
        ((c as u32) + 32) as char
    } else {
        c
    }
}

/// The text with each ASCII capital made small.
pub open spec fn lower(s: Seq<char>) -> Seq<char> {
    Seq::new(s.len(), |i: int| lower_char(s[i]))
}

pub fn to_lower_char(c: char) -> (r: char)
    ensures
        r == lower_char(c),
{
    if 'A' <= c && c <= 'Z' {
        (c as u8 + 32) as char
    } else {
        c
    }
}

pub fn to_lower(s: &[char]) -> (r: Vec<char>)
    ensures
        r@ == lower(s@),
{
    let mut r: Vec<char> = Vec::new();
    for i in 0..s.len()
        invariant
            r@ == lower(s@).take(i as int),
    {
        r.push(to_lower_char(s[i]));
        proof {
            assert(r@ =~= lower(s@).take(i + 1));
        }
    }
    assert(r@ =~= lower(s@));
    r
}

/// Whether two texts differ in ASCII case alone.
pub fn same_ignoring_case(a: &[char], b: &[char]) -> (r: bool)
    ensures
        r == (lower(a@) == lower(b@)),
{
    same(to_lower(a).as_slice(), to_lower(b).as_slice())
}

pub fn starts_with(s: &[char], p: &[char]) -> (r: bool)
    ensures
        r == p@.is_prefix_of(s@),
{
    if p.len() > s.len() {
        return false;
    }
    let head = slice_subrange(s, 0, p.len());
    assert(head@ =~= s@.subrange(0, p@.len() as int));
    same(p, head)
}

pub fn ends_with(s: &[char], p: &[char]) -> (r: bool)
    ensures
        r == p@.is_suffix_of(s@),
{
    if p.len() > s.len() {
        return false;
    }
    let tail = slice_subrange(s, s.len() - p.len(), s.len());
    assert(tail@ =~= s@.subrange(s@.len() - p@.len(), s@.len() as int));
    same(p, tail)
}

/// The text with every occurrence of `pattern`, taken from the left without
/// overlap, replaced by `by`.
pub open spec fn replaced(s: Seq<char>, pattern: Seq<char>, by: Seq<char>) -> Seq<char>
    decreases s.len(),
{
    if s.len() == 0 || pattern.len() == 0 {
        s
    } else if pattern.is_prefix_of(s) {
        by + replaced(s.skip(pattern.len() as int), pattern, by)
    } else {
        seq![s[0]] + replaced(s.drop_first(), pattern, by)
    }
}

pub fn replace(s: &[char], pattern: &[char], by: &[char]) -> (r: Vec<char>)
    requires
        pattern@.len() > 0,
    ensures
        r@ == replaced(s@, pattern@, by@),
{
    let mut r: Vec<char> = Vec::new();
    let mut i: usize = 0;
    proof {
        assert(s@.skip(0) =~= s@);
        assert(r@ + replaced(s@, pattern@, by@) =~= replaced(s@, pattern@, by@));
    }
    while i < s.len()
        invariant
            i <= s@.len(),
            pattern@.len() > 0,
            r@ + replaced(s@.skip(i as int), pattern@, by@) == replaced(s@, pattern@, by@),
        decreases s.len() - i,
    {
        let rest = slice_subrange(s, i, s.len());
        let ghost before = r@;
        assert(rest@ =~= s@.skip(i as int));
        if starts_with(rest, pattern) {
            r.extend_from_slice(by);
            assert(r@ =~= before + by@);
            i = i + pattern.len();
            assert(rest@.skip(pattern@.len() as int) =~= s@.skip(i as int));
        } else {
            r.push(s[i]);
            i = i + 1;
            assert(rest@.drop_first() =~= s@.skip(i as int));
            assert(r@ =~= before + seq![rest@[0]]);
        }
        assert(r@ + replaced(s@.skip(i as int), pattern@, by@) =~= before + replaced(rest@, pattern@, by@));
    }
    assert(r@ =~= r@ + replaced(s@.skip(i as int), pattern@, by@));
    r
}

/// Appends a string to a vector of characters.
pub fn push_str(out: &mut Vec<char>, s: &str)
    ensures
        final(out)@ == old(out)@ + s@,
{
    let cs = chars_of(s);
    out.extend_from_slice(cs.as_slice());
    assert(out@ =~= old(out)@ + s@);
}

/// Stripping leaves a text alone that neither starts nor ends with white space.
pub proof fn trimmed_leaves(s: Seq<char>)
    requires
        s.len() > 0 ==> !is_white_space(s[0]) && !is_white_space(s.last()),
    ensures
        trimmed(s) == s,
{
}

proof fn dropping_shortens(s: Seq<char>, k: CharClass)
    ensures
        drop_leading(s, k).len() <= s.len(),
        drop_trailing(s, k).len() <= s.len(),
        drop_leading(s, k).len() == s.len() ==> drop_leading(s, k) == s,
        drop_trailing(s, k).len() == s.len() ==> drop_trailing(s, k) == s,
    decreases s.len(),
{
    if s.len() > 0 {
        dropping_shortens(s.drop_first(), k);
        dropping_shortens(s.drop_last(), k);
    }
}

/// A text that stripping leaves alone neither starts nor ends with white space.
pub proof fn trimmed_ends(s: Seq<char>)
    requires
        trimmed(s) == s,
        s.len() > 0,
    ensures
        !is_white_space(s[0]),
        !is_white_space(s.last()),
{
    dropping_shortens(s, CharClass::WhiteSpace);
    dropping_shortens(drop_leading(s, CharClass::WhiteSpace), CharClass::WhiteSpace);
    if is_white_space(s[0]) {
        dropping_shortens(s.drop_first(), CharClass::WhiteSpace);
    }
    if is_white_space(s.last()) {
        dropping_shortens(s.drop_last(), CharClass::WhiteSpace);
    }
}

proof fn dropping_reaches_the_ends(s: Seq<char>, k: CharClass)
    ensures
        drop_leading(s, k).len() > 0 ==> !k.admits(drop_leading(s, k)[0]) && drop_leading(
            s,
            k,
        ).last() == s.last(),
        drop_trailing(s, k).len() > 0 ==> !k.admits(drop_trailing(s, k).last())
            && drop_trailing(s, k)[0] == s[0],
    decreases s.len(),
{
    if s.len() > 0 {
        if k.admits(s[0]) {
            dropping_reaches_the_ends(s.drop_first(), k);
        }
        if k.admits(s.last()) {
            dropping_reaches_the_ends(s.drop_last(), k);
            dropping_shortens(s.drop_last(), k);
        }
    }
}

/// Stripping twice is stripping once, and what is left neither starts nor ends with white space.
pub proof fn trimming_twice(s: Seq<char>)
    ensures
        trimmed(trimmed(s)) == trimmed(s),
        trimmed(s).len() > 0 ==> !is_white_space(trimmed(s)[0]) && !is_white_space(
            trimmed(s).last(),
        ),
{
    let front = drop_leading(s, CharClass::WhiteSpace);
    dropping_reaches_the_ends(s, CharClass::WhiteSpace);
    dropping_reaches_the_ends(front, CharClass::WhiteSpace);
    dropping_shortens(front, CharClass::WhiteSpace);
    trimmed_leaves(trimmed(s));
}

/// White space before a stripped text is stripped.
pub proof fn trimmed_drops_a_space(s: Seq<char>)
    requires
        trimmed(s) == s,
    ensures
        trimmed(seq![' '] + s) == s,
        trimmed(s + seq![' ']) == s,
{
    let a = seq![' '] + s;
    assert(a.drop_first() =~= s);
    let b = s + seq![' '];
    assert(b.drop_last() =~= s);
    if s.len() > 0 {
        trimmed_ends(s);
        assert(b[0] == s[0]);
    } else {
        assert(b.drop_first() =~= s);
    }
}

/// A text without a line feed is one line.
pub proof fn one_line(s: Seq<char>)
    requires
        s.len() > 0,
        !s.contains('\n'),
    ensures
        lines(s) == seq![s],
{
    position_is_first(s, '\n');
}

/// A line that neither holds a line feed nor ends with a carriage return is read back
/// from before a line feed.
pub proof fn first_line(line: Seq<char>, rest: Seq<char>)
    requires
        !line.contains('\n'),
        line.len() > 0 ==> line.last() != '\r',
    ensures
        lines(line + seq!['\n'] + rest) == seq![line] + lines(rest),
{
    let s = line + seq!['\n'] + rest;
    position_is_first(s, '\n');
    let n = position(s, '\n');
    assert(s[line.len() as int] == '\n');
    if n < line.len() {
        assert(line[n] == '\n');
    }
    assert(s.take(n) =~= line);
    assert(s.skip(n + 1) =~= rest);
}

/// Whether a pattern starts at an index of a text.
pub open spec fn occurs_at(s: Seq<char>, pattern: Seq<char>, i: int) -> bool {
    pattern.is_prefix_of(s.skip(i))
}

/// A text in which the pattern does not occur is left alone.
pub proof fn nothing_to_replace(s: Seq<char>, pattern: Seq<char>, by: Seq<char>)
    requires
        lacks(s, pattern),
    ensures
        replaced(s, pattern, by) == s,
    decreases s.len(),
{
    if s.len() > 0 {
        let rest = s.drop_first();
        assert(s.skip(0) =~= s);
        assert(!occurs_at(s, pattern, 0));
        assert forall|i: int| 0 <= i < rest.len() implies !#[trigger] occurs_at(
            rest,
            pattern,
            i,
        ) by {
            assert(!occurs_at(s, pattern, i + 1));
            assert(rest.skip(i) =~= s.skip(i + 1));
        }
        nothing_to_replace(rest, pattern, by);
        assert(s =~= seq![s[0]] + rest);
    }
}

/// A pattern that occurs once is replaced, and nothing else is changed.
pub proof fn replaced_once(
    before: Seq<char>,
    pattern: Seq<char>,
    after: Seq<char>,
    by: Seq<char>,
)
    requires
        pattern.len() > 0,
        forall|i: int|
            0 <= i < before.len() ==> !#[trigger] occurs_at(before + pattern + after, pattern, i),
        lacks(after, pattern),
    ensures
        replaced(before + pattern + after, pattern, by) == before + by + after,
    decreases before.len(),
{
    let s = before + pattern + after;
    assert(s.skip(0) =~= s);
    if before.len() == 0 {
        assert(s =~= pattern + after);
        assert(s.subrange(0, pattern.len() as int) =~= pattern);
        assert(s.skip(pattern.len() as int) =~= after);
        nothing_to_replace(after, pattern, by);
        assert(before + by + after =~= by + after);
    } else {
        let rest = before.drop_first();
        let t = rest + pattern + after;
        assert(s.drop_first() =~= t);
        assert(!occurs_at(s, pattern, 0));
        assert forall|i: int| 0 <= i < rest.len() implies !#[trigger] occurs_at(t, pattern, i) by {
            assert(!occurs_at(s, pattern, i + 1));
            assert(t.skip(i) =~= s.skip(i + 1));
        }
        replaced_once(rest, pattern, after, by);
        assert(before + by + after =~= seq![s[0]] + (rest + by + after));
    }
}

/// Whether a pattern occurs nowhere in a text.
pub open spec fn lacks(s: Seq<char>, pattern: Seq<char>) -> bool {
    forall|i: int| 0 <= i < s.len() ==> !#[trigger] occurs_at(s, pattern, i)
}

/// A pattern of one line is not replaced in the start of a line that lacks it.
pub proof fn line_start_is_kept(
    start: Seq<char>,
    rest: Seq<char>,
    pattern: Seq<char>,
    by: Seq<char>,
)
    requires
        lacks(start, pattern),
        rest.len() > 0 && rest[0] == '\n',
        pattern.len() > 0,
        !pattern.contains('\n'),
    ensures
        replaced(start + rest, pattern, by) == start + replaced(rest, pattern, by),
    decreases start.len(),
{
    let s = start + rest;
    if start.len() == 0 {
        assert(s =~= rest);
        assert(start + replaced(rest, pattern, by) =~= replaced(rest, pattern, by));
    } else {
        let tail = start.drop_first();
        assert(!occurs_at(start, pattern, 0));
        assert(start.skip(0) =~= start);
        if pattern.is_prefix_of(s) {
            if pattern.len() <= start.len() {
                assert(s.subrange(0, pattern.len() as int) =~= start.subrange(
                    0,
                    pattern.len() as int,
                ));
            } else {
                assert(pattern[start.len() as int] == s[start.len() as int]);
            }
            assert(false);
        }
        assert forall|i: int| 0 <= i < tail.len() implies !#[trigger] occurs_at(
            tail,
            pattern,
            i,
        ) by {
            assert(!occurs_at(start, pattern, i + 1));
            assert(tail.skip(i) =~= start.skip(i + 1));
        }
        line_start_is_kept(tail, rest, pattern, by);
        assert(s.drop_first() =~= tail + rest);
        assert(start + replaced(rest, pattern, by) =~= seq![s[0]] + (tail + replaced(
            rest,
            pattern,
            by,
        )));
    }
}

/// A text without the pattern's first character is not changed, nor is what follows it
/// kept from being replaced.
pub proof fn plain_start_is_kept(
    start: Seq<char>,
    rest: Seq<char>,
    pattern: Seq<char>,
    by: Seq<char>,
)
    requires
        pattern.len() > 0,
        !start.contains(pattern[0]),
    ensures
        replaced(start + rest, pattern, by) == start + replaced(rest, pattern, by),
    decreases start.len(),
{
    let s = start + rest;
    if start.len() == 0 {
        assert(s =~= rest);
        assert(start + replaced(rest, pattern, by) =~= replaced(rest, pattern, by));
    } else {
        let tail = start.drop_first();
        assert(start[0] != pattern[0]);
        if pattern.is_prefix_of(s) {
            assert(pattern[0] == s[0]);
        }
        assert forall|i: int| 0 <= i < tail.len() implies tail[i] != pattern[0] by {
            assert(tail[i] == start[i + 1]);
        }
        plain_start_is_kept(tail, rest, pattern, by);
        assert(s.drop_first() =~= tail + rest);
        assert(start + replaced(rest, pattern, by) =~= seq![s[0]] + (tail + replaced(
            rest,
            pattern,
            by,
        )));
    }
}

} // verus!
