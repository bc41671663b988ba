//! Characters, digits and bytes.
use crate::bytes::{byte_position, le_bytes, le_value};
use crate::number::{
    decimal, decimal_reads_back, digit_char, digits_value, hexadecimal, is_digit, is_number, plain_value,
    signed_decimal, signed_value, unsigned_value, within, zero_padded, zeros,
};
use crate::text::{
    drop_leading, drop_trailing, first_line, is_white_space, lines, lower, occurs_at, one_line, position,
    position_is_first, replaced, trimmed, without_carriage_return, CharClass,
};
use vstd::prelude::*;

verus! {

/// Whether every character of a text is white space.
pub open spec fn all_white(s: Seq<char>) -> bool {
    forall|i: int| 0 <= i < s.len() ==> is_white_space(#[trigger] s[i])
}

/// Whether a text consists of one character, repeated.
pub open spec fn all_are(s: Seq<char>, c: char) -> bool {
    forall|i: int| 0 <= i < s.len() ==> #[trigger] s[i] == c
}

/// What dropping from the front leaves is the end of the text; what it takes is of the
/// class, and what is left does not start with the class.
pub proof fn dropping_from_the_front(s: Seq<char>, k: CharClass)
    ensures
        ({
            let r = drop_leading(s, k);
            let n = s.len() - r.len();
            &&& 0 <= n
            &&& r == s.skip(n)
            &&& forall|i: int| 0 <= i < n ==> k.admits(#[trigger] s[i])
            &&& r.len() > 0 ==> !k.admits(r[0])
        }),
    decreases s.len(),
{
    if s.len() > 0 && k.admits(s[0]) {
        let t = s.drop_first();
        dropping_from_the_front(t, k);
        let r = drop_leading(s, k);
        let n = s.len() - r.len();
        assert(r =~= s.skip(n));
        assert forall|i: int| 0 <= i < n implies k.admits(#[trigger] s[i]) by {
            if i > 0 {
                assert(k.admits(t[i - 1]));
            }
        }
    } else {
        assert(s =~= s.skip(0));
    }
}

/// What dropping from the end leaves is the start of the text; what it takes is of the
/// class, and what is left does not end with the class.
pub proof fn dropping_from_the_end(s: Seq<char>, k: CharClass)
    ensures
        ({
            let r = drop_trailing(s, k);
            &&& r.len() <= s.len()
            &&& r == s.take(r.len() as int)
            &&& forall|i: int| r.len() <= i < s.len() ==> k.admits(#[trigger] s[i])
            &&& r.len() > 0 ==> !k.admits(r.last())
        }),
    decreases s.len(),
{
    if s.len() > 0 && k.admits(s.last()) {
        let t = s.drop_last();
        dropping_from_the_end(t, k);
        let r = drop_trailing(s, k);
        assert(r =~= s.take(r.len() as int));
        assert forall|i: int| r.len() <= i < s.len() implies k.admits(#[trigger] s[i]) by {
            if i < t.len() {
                assert(k.admits(t[i]));
            }
        }
    } else {
        assert(s =~= s.take(s.len() as int));
    }
}

/// What a class holds. White space is what Unicode calls so, by number.
pub proof fn classes(c: char, d: char)
    ensures
        CharClass::One(d).admits(c) == (c == d),
        CharClass::WhiteSpace.admits(c) == is_white_space(c),
        ({
            let n = c as int;
            is_white_space(c) <==> 9 <= n <= 13 || n == 32 || n == 133 || n == 160 || n == 5760
                || 8192 <= n <= 8202 || n == 8232 || n == 8233 || n == 8239 || n == 8287 || n
                == 12288
        }),
{
}

/// Stripping takes white space alone, from both ends, and as much of it as there is: the
/// text is white space, what is left, and white space.
pub proof fn stripping_takes_the_white_ends(s: Seq<char>)
    ensures
        exists|n: int, m: int|
            #![trigger s.subrange(n, m)]
            0 <= n <= m <= s.len() && trimmed(s) == s.subrange(n, m) && all_white(s.take(n))
                && all_white(s.skip(m)),
        trimmed(s).len() > 0 ==> !is_white_space(trimmed(s)[0]) && !is_white_space(
            trimmed(s).last(),
        ),
        trimmed(s).len() == 0 <==> all_white(s),
{
    let k = CharClass::WhiteSpace;
    let front = drop_leading(s, k);
    dropping_from_the_front(s, k);
    dropping_from_the_end(front, k);
    let n = s.len() - front.len();
    let m = n + trimmed(s).len();
    assert(trimmed(s) =~= s.subrange(n, m));
    assert forall|i: int| 0 <= i < s.take(n).len() implies is_white_space(#[trigger] s.take(n)[i]) by {
        assert(k.admits(s[i]));
    }
    assert forall|i: int| 0 <= i < s.skip(m).len() implies is_white_space(#[trigger] s.skip(m)[i]) by {
        assert(k.admits(front[i + trimmed(s).len()]));
    }
    assert(0 <= n <= m <= s.len());
    if trimmed(s).len() > 0 {
        assert(trimmed(s)[0] == front[0]);
        assert(s[n] == front[0]);
    } else {
        assert forall|i: int| 0 <= i < s.len() implies is_white_space(#[trigger] s[i]) by {
            if i < n {
                assert(is_white_space(s.take(n)[i]));
            } else {
                assert(is_white_space(s.skip(m)[i - m]));
            }
        }
    }
}

/// Lines end at line feeds; a carriage return before a line feed belongs to the line end.
pub proof fn lines_end_at_line_feeds(line: Seq<char>, rest: Seq<char>)
    requires
        !line.contains('\n'),
    ensures
        lines(seq![]) == Seq::<Seq<char>>::empty(),
        line.len() > 0 ==> lines(line) == seq![line],
        line.len() == 0 || line.last() != '\r' ==> lines(line + seq!['\n'] + rest) == seq![line]
            + lines(rest),
        lines(line + seq!['\r', '\n'] + rest) == seq![line] + lines(rest),
{
    if line.len() > 0 {
        one_line(line);
    }
    if line.len() == 0 || line.last() != '\r' {
        first_line(line, rest);
    }
    let s = line + seq!['\r', '\n'] + rest;
    let n = line.len() + 1;
    position_is_first(s, '\n');
    assert(s[n as int] == '\n');
    let p = position(s, '\n');
    if p < line.len() {
        assert(s[p] == line[p]);
    }
    assert(s[line.len() as int] == '\r');
    assert(p == n);
    assert(s.take(p) =~= line.push('\r'));
    assert(without_carriage_return(s.take(p)) =~= line);
    assert(s.skip(p + 1) =~= rest);
}

/// Making a text small changes the letters from A to Z to those from a to z, and nothing else.
pub proof fn lowering_changes_capitals_alone(s: Seq<char>, i: int)
    requires
        0 <= i < s.len(),
    ensures
        lower(s).len() == s.len(),
        'A' <= s[i] <= 'Z' ==> lower(s)[i] as int == s[i] as int + ('a' as int - 'A' as int),
        !('A' <= s[i] <= 'Z') ==> lower(s)[i] == s[i],
{
}

/// The leftmost occurrence of a pattern is replaced, and then those behind it.
pub proof fn leftmost_occurrence_is_replaced(
    before: Seq<char>,
    pattern: Seq<char>,
    after: Seq<char>,
    by: Seq<char>,
)
    requires
        pattern.len() > 0,
        forall|i: int|
            0 <= i < before.len() ==> !#[trigger] occurs_at(before + pattern + after, pattern, i),
    ensures
        replaced(before + pattern + after, pattern, by) == before + by + replaced(
            after,
            pattern,
            by,
        ),
    decreases before.len(),
{
    let s = before + pattern + after;
    assert(s.skip(0) =~= s);
    if before.len() == 0 {
        assert(s =~= pattern + after);
        assert(s.subrange(0, pattern.len() as int) =~= pattern);
        assert(s.skip(pattern.len() as int) =~= after);
        assert(before + by + replaced(after, pattern, by) =~= by + replaced(after, pattern, by));
    } else {
        let rest = before.drop_first();
        let t = rest + pattern + after;
        assert(s.drop_first() =~= t);
        assert(!occurs_at(s, pattern, 0));
        assert forall|i: int| 0 <= i < rest.len() implies !#[trigger] occurs_at(t, pattern, i) by {
            assert(!occurs_at(s, pattern, i + 1));
            assert(t.skip(i) =~= s.skip(i + 1));
        }
        leftmost_occurrence_is_replaced(rest, pattern, after, by);
        assert(before + by + replaced(after, pattern, by) =~= seq![s[0]] + (rest + by + replaced(
            after,
            pattern,
            by,
        )));
    }
}

/// A digit more makes a number ten times as large and adds the digit.
pub proof fn a_digit_more(s: Seq<char>, c: char)
    requires
        '0' <= c <= '9',
    ensures
        digits_value(seq![]) == 0,
        digits_value(s.push(c)) == 10 * digits_value(s) + (c as int - '0' as int),
        plain_value(seq![]) is None,
        plain_value(s) is Some ==> plain_value(s.push(c)) == Some(10 * plain_value(s)->0 + (c as int - '0' as int)),
        plain_value(seq![c]) == Some(c as int - '0' as int),
{
    assert(s.push(c).drop_last() =~= s);
    assert(seq![c].drop_last() =~= seq![]);
    assert(digits_value(seq![c].drop_last()) == 0);
    assert(is_digit(c));
    assert(is_number(seq![c]));
    if is_number(s) {
        assert forall|i: int| 0 <= i < s.push(c).len() implies is_digit(#[trigger] s.push(c)[i]) by {
            if i < s.len() {
                assert(is_digit(s[i]));
            }
        }
    }
}

/// What is not made of digits alone is no number; a sign may stand before one.
pub proof fn what_is_a_number(s: Seq<char>)
    ensures
        plain_value(s) is Some <==> s.len() > 0 && forall|i: int|
            0 <= i < s.len() ==> '0' <= #[trigger] s[i] <= '9',
        plain_value(s) matches Some(n) ==> n >= 0,
        unsigned_value(seq!['+'] + s) == plain_value(s),
        signed_value(seq!['+'] + s) == plain_value(s),
        signed_value(seq!['-'] + s) == (match plain_value(s) {
            Some(n) => Some(-n),
            None => None,
        }),
        unsigned_value(seq!['-'] + s) is None,
        s.len() > 0 && s[0] != '+' ==> unsigned_value(s) == plain_value(s),
        s.len() > 0 && s[0] != '+' && s[0] != '-' ==> signed_value(s) == plain_value(s),
        unsigned_value(seq![]) is None,
        signed_value(seq![]) is None,
{
    assert((seq!['+'] + s).drop_first() =~= s);
    assert((seq!['-'] + s).drop_first() =~= s);
    assert(!is_digit((seq!['-'] + s)[0]));
    if plain_value(s) is Some {
        assert forall|i: int| 0 <= i < s.len() implies '0' <= #[trigger] s[i] <= '9' by {
            assert(is_digit(s[i]));
        }
    } else if s.len() > 0 && forall|i: int| 0 <= i < s.len() ==> '0' <= #[trigger] s[i] <= '9' {
        assert forall|i: int| 0 <= i < s.len() implies is_digit(#[trigger] s[i]) by {}
    }
}

/// A value counts where it lies within its bounds, both included.
pub proof fn bounds_are_included(n: int, low: int, high: int)
    ensures
        within(Some(n), low, high) == (if low <= n && n <= high {
            Some(n)
        } else {
            None
        }),
        within(None, low, high) is None,
{
}

/// A number is written with as few digits as it takes.
pub proof fn numbers_are_written_short(n: nat)
    ensures
        plain_value(decimal(n)) == Some(n as int),
        n > 0 ==> decimal(n)[0] != '0',
        n < 10 ==> decimal(n).len() == 1,
        forall|i: int| 0 <= i < decimal(n).len() ==> '0' <= #[trigger] decimal(n)[i] <= '9',
    decreases n,
{
    decimal_reads_back(n);
    assert forall|i: int| 0 <= i < decimal(n).len() implies '0' <= #[trigger] decimal(n)[i] <= '9' by {
        assert(is_digit(decimal(n)[i]));
    }
    if n >= 10 {
        numbers_are_written_short(n / 10);
        assert(decimal(n)[0] == decimal(n / 10)[0]);
    }
}

/// In hexadecimal a digit more makes a number sixteen times as large.
pub proof fn hexadecimal_digits(n: nat, d: nat)
    requires
        d < 16,
    ensures
        d < 10 ==> digit_char(d as int) as int == '0' as int + d,
        d >= 10 ==> digit_char(d as int) as int == 'a' as int + (d - 10),
        hexadecimal(d) == seq![digit_char(d as int)],
        n > 0 ==> hexadecimal(16 * n + d) == hexadecimal(n).push(digit_char(d as int)),
{
    assert((16 * n + d) / 16 == n);
    assert((16 * n + d) % 16 == d);
}

/// Padding puts zeros before digits, as many as the width asks for.
pub proof fn padding_is_zeros(digits: Seq<char>, width: int)
    ensures
        ({
            let r = zero_padded(digits, width);
            let n = r.len() - digits.len();
            &&& r.len() == (if digits.len() < width {
                width
            } else {
                digits.len() as int
            })
            &&& r.skip(n) == digits
            &&& all_are(r.take(n), '0')
        }),
{
    let r = zero_padded(digits, width);
    let n = r.len() - digits.len();
    assert(r.skip(n) =~= digits);
    assert forall|i: int| 0 <= i < r.take(n).len() implies #[trigger] r.take(n)[i] == '0' by {
        assert(r[i] == zeros(width - digits.len())[i]);
    }
}

/// An integer is written with a hyphen exactly if it is negative, and then its digits, with
/// zeros before them up to the width.
pub proof fn integers_are_written_with_their_sign(n: int, width: int)
    ensures
        n < 0 ==> signed_decimal(n, width) == seq!['-'] + zero_padded(decimal((-n) as nat), width - 1),
        n >= 0 ==> signed_decimal(n, width) == zero_padded(decimal(n as nat), width),
{
}

/// Bytes are worth 1, 256, 65536 and so on.
pub open spec fn four(s: Seq<u8>, at: int) -> int {
    s[at] + 0x100 * s[at + 1] + 0x1_0000 * s[at + 2] + 0x100_0000 * s[at + 3]
}

/// Four bytes as a number.
pub proof fn four_bytes(s: Seq<u8>, at: int)
    requires
        0 <= at,
        at + 4 <= s.len(),
    ensures
        le_value(s.subrange(at, at + 4)) == four(s, at),
        0 <= four(s, at) <= u32::MAX,
{
    let q = s.subrange(at, at + 4);
    reveal_with_fuel(le_value, 5);
    assert(q.drop_first()[0] == s[at + 1]);
    assert(q.drop_first().drop_first()[0] == s[at + 2]);
    assert(q.drop_first().drop_first().drop_first()[0] == s[at + 3]);
    assert(q.drop_first().drop_first().drop_first().drop_first().len() == 0);
}

/// A number in four bytes, the least first.
pub proof fn number_in_four_bytes(v: nat)
    ensures
        le_bytes(v, 4) == seq![
            (v % 0x100) as u8,
            (v / 0x100 % 0x100) as u8,
            (v / 0x1_0000 % 0x100) as u8,
            (v / 0x100_0000 % 0x100) as u8,
        ],
{
    reveal_with_fuel(le_bytes, 5);
    assert(v / 256 / 256 == v / 0x1_0000);
    assert(v / 256 / 256 / 256 == v / 0x100_0000);
    assert(le_bytes(v, 4) =~= seq![
        (v % 0x100) as u8,
        (v / 0x100 % 0x100) as u8,
        (v / 0x1_0000 % 0x100) as u8,
        (v / 0x100_0000 % 0x100) as u8,
    ]);
}

/// The first byte of a kind: none before it is.
pub proof fn first_byte(s: Seq<u8>, b: u8)
    ensures
        0 <= byte_position(s, b) <= s.len(),
        forall|i: int| 0 <= i < byte_position(s, b) ==> #[trigger] s[i] != b,
        byte_position(s, b) < s.len() ==> s[byte_position(s, b)] == b,
    decreases s.len(),
{
    if s.len() > 0 && s[0] != b {
        let t = s.drop_first();
        first_byte(t, b);
        assert forall|i: int| 0 <= i < byte_position(s, b) implies #[trigger] s[i] != b by {
            if i > 0 {
                assert(t[i - 1] == s[i]);
            }
        }
    }
}

} // verus!
