//! Numbers as text: decimal and hexadecimal digits, zero padding, and the
//! reading of decimal integers.
use vstd::prelude::*;
use vstd::slice::slice_subrange;

verus! {

/// The digit for a value below 16.
pub open spec fn digit_char(d: int) -> char {
    if d < 10 {
        (48 + d) as char
    } else {
        (87 + d) as char
    }
}

pub fn to_digit_char(d: u8) -> (r: char)
    requires
        d < 16,
    ensures
        r == digit_char(d as int),
{
    if d < 10 {
        (48 + d) as char
    } else {
        (87 + d) as char
    }
}

/// The decimal digits of a number.
pub open spec fn decimal(n: nat) -> Seq<char>
    decreases n,
{
    if n < 10 {
        seq![digit_char(n as int)]
    } else {
        decimal(n / 10).push(digit_char((n % 10) as int))
    }
}

/// The hexadecimal digits of a number, in small letters.
pub open spec fn hexadecimal(n: nat) -> Seq<char>
    decreases n,
{
    if n < 16 {
        seq![digit_char(n as int)]
    } else {
        hexadecimal(n / 16).push(digit_char((n % 16) as int))
    }
}

pub open spec fn zeros(n: int) -> Seq<char> {
    Seq::new(
        if n > 0 {
            n as nat
        } else {
            0
        },
        |i: int| '0',
    )
}

/// The digits, with zeros before them up to the width.
pub open spec fn zero_padded(digits: Seq<char>, width: int) -> Seq<char> {
    zeros(width - digits.len()) + digits
}

/// An integer in decimal, with zeros between its sign and its digits up to the width.
pub open spec fn signed_decimal(n: int, width: int) -> Seq<char> {
    if n < 0 {
        seq!['-'] + zero_padded(decimal((-n) as nat), width - 1)
    } else {
        zero_padded(decimal(n as nat), width)
    }
}

pub fn decimal_digits(n: u64) -> (r: Vec<char>)
    ensures
        r@ == decimal(n as nat),
    decreases n,
{
    if n < 10 {
        let mut r: Vec<char> = Vec::new();
        r.push(to_digit_char(n as u8));
        assert(r@ =~= seq![digit_char(n as int)]);
        r
    } else {
        let mut r = decimal_digits(n / 10);
        r.push(to_digit_char((n % 10) as u8));
        r
    }
}

pub fn hex_digits(n: u128) -> (r: Vec<char>)
    ensures
        r@ == hexadecimal(n as nat),
    decreases n,
{
    if n < 16 {
        let mut r: Vec<char> = Vec::new();
        r.push(to_digit_char(n as u8));
        assert(r@ =~= seq![digit_char(n as int)]);
        r
    } else {
        let mut r = hex_digits(n / 16);
        r.push(to_digit_char((n % 16) as u8));
        r
    }
}

/// Appends the digits, padded with zeros to the width.
pub fn push_padded(out: &mut Vec<char>, digits: &[char], width: usize)
    ensures
        final(out)@ == old(out)@ + zero_padded(digits@, width as int),
{
    let mut n: usize = digits.len();
    let ghost start = out@;
    while n < width
        invariant
            digits@.len() <= n,
            n <= width || n == digits@.len(),
            out@ == start + zeros(n - digits@.len()),
        decreases width - n,
    {
        out.push('0');
        n = n + 1;
        proof {
            assert(out@ =~= start + zeros(n - digits@.len()));
        }
    }
    out.extend_from_slice(digits);
    assert(out@ =~= start + zero_padded(digits@, width as int));
}

/// Appends an integer in decimal, padded with zeros to the width.
pub fn push_signed(out: &mut Vec<char>, n: i64, width: usize)
    requires
        width > 0,
    ensures
        final(out)@ == old(out)@ + signed_decimal(n as int, width as int),
{
    if n < 0 {
        let magnitude: u64 = if n == i64::MIN {
            0x8000_0000_0000_0000
        } else {
            (-n) as u64
        };
        let ghost start = out@;
        out.push('-');
        push_padded(out, decimal_digits(magnitude).as_slice(), width - 1);
        assert(out@ =~= start + signed_decimal(n as int, width as int));
    } else {
        push_padded(out, decimal_digits(n as u64).as_slice(), width);
    }
}

/// Appends a number in decimal.
pub fn push_decimal(out: &mut Vec<char>, n: u64)
    ensures
        final(out)@ == old(out)@ + decimal(n as nat),
{
    let digits = decimal_digits(n);
    out.extend_from_slice(digits.as_slice());
    assert(out@ =~= old(out)@ + decimal(n as nat));
}

pub open spec fn is_digit(c: char) -> bool {
    '0' <= c <= '9'
}

/// One decimal digit or more, and nothing else.
pub open spec fn is_number(s: Seq<char>) -> bool {
    s.len() > 0 && forall|i: int| 0 <= i < s.len() ==> is_digit(#[trigger] s[i])
}

/// The value of decimal digits.
pub open spec fn digits_value(s: Seq<char>) -> nat
    decreases s.len(),
{
    if s.len() == 0 {
        0
    } else {
        (digits_value(s.drop_last()) * 10 + (s.last() as u32 - 48)) as nat
    }
}

/// What decimal digits alone denote.
pub open spec fn plain_value(s: Seq<char>) -> Option<int> {
    if is_number(s) {
        Some(digits_value(s) as int)
    } else {
        None
    }
}

/// What a text denotes as an unsigned integer: digits, with a `+` before them or not.
pub open spec fn unsigned_value(s: Seq<char>) -> Option<int> {
    if s.len() > 0 && s[0] == '+' {
        plain_value(s.drop_first())
    } else {
        plain_value(s)
    }
}

/// What a text denotes as a signed integer: digits, with a `+` or a `-` before them or not.
pub open spec fn signed_value(s: Seq<char>) -> Option<int> {
    if s.len() > 0 && s[0] == '-' {
        match plain_value(s.drop_first()) {
            Some(n) => Some(-n),
            None => None,
        }
    } else {
        unsigned_value(s)
    }
}

/// The value, where it lies within the bounds of the type that is read.
pub open spec fn within(value: Option<int>, low: int, high: int) -> Option<int> {
    match value {
        Some(n) => if low <= n <= high {
            Some(n)
        } else {
            None
        },
        None => None,
    }
}

proof fn prefix_value_is_no_greater(s: Seq<char>, i: int)
    requires
        0 <= i <= s.len(),
        is_number(s),
    ensures
        digits_value(s.take(i)) <= digits_value(s),
    decreases s.len(),
{
    if i < s.len() {
        assert(s.drop_last().take(i) =~= s.take(i));
        assert(is_digit(s[s.len() - 1]));
        if s.len() > 1 {
            assert forall|j: int| 0 <= j < s.drop_last().len() implies is_digit(
                #[trigger] s.drop_last()[j],
            ) by {
                assert(is_digit(s[j]));
            }
            prefix_value_is_no_greater(s.drop_last(), i);
        }
    } else {
        assert(s.take(i) =~= s);
    }
}

/// Reads digits as a number of at most `high`.
pub fn read_digits(s: &[char], high: u64) -> (r: Option<u64>)
    ensures
        within(plain_value(s@), 0, high as int) == (match r {
            Some(n) => Some(n as int),
            None => None,
        }),
{
    if s.len() == 0 {
        return None;
    }
    for i in 0..s.len()
        invariant
            forall|j: int| 0 <= j < i ==> is_digit(#[trigger] s@[j]),
    {
        if !('0' <= s[i] && s[i] <= '9') {
            assert(!is_digit(s@[i as int]));
            return None;
        }
    }
    assert(is_number(s@));
    let mut value: u64 = 0;
    for i in 0..s.len()
        invariant
            is_number(s@),
            value == digits_value(s@.take(i as int)),
            value <= high,
    {
        assert(is_digit(s@[i as int]));
        assert(s@.take(i + 1).drop_last() =~= s@.take(i as int));
        assert(s@.take(i + 1).last() == s@[i as int]);
        let d: u64 = s[i] as u64 - 48;
        let next: u128 = value as u128 * 10 + d as u128;
        assert(next == digits_value(s@.take(i + 1)));
        if next > high as u128 {
            proof {
                prefix_value_is_no_greater(s@, i + 1);
            }
            return None;
        }
        value = next as u64;
    }
    assert(s@.take(s@.len() as int) =~= s@);
    Some(value)
}

/// Reads an unsigned integer of at most `high`.
pub fn read_unsigned(s: &[char], high: u64) -> (r: Option<u64>)
    ensures
        within(unsigned_value(s@), 0, high as int) == (match r {
            Some(n) => Some(n as int),
            None => None,
        }),
{
    if s.len() > 0 && s[0] == '+' {
        let rest = slice_subrange(s, 1, s.len());
        assert(rest@ =~= s@.drop_first());
        read_digits(rest, high)
    } else {
        read_digits(s, high)
    }
}

/// Reads a signed integer of 64 bits.
pub fn read_signed(s: &[char]) -> (r: Option<i64>)
    ensures
        within(signed_value(s@), i64::MIN as int, i64::MAX as int) == (match r {
            Some(n) => Some(n as int),
            None => None,
        }),
{
    if s.len() > 0 && s[0] == '-' {
        let rest = slice_subrange(s, 1, s.len());
        assert(rest@ =~= s@.drop_first());
        match read_digits(rest, 0x8000_0000_0000_0000) {
            Some(n) => if n == 0x8000_0000_0000_0000 {
                Some(i64::MIN)
            } else {
                Some(-(n as i64))
            },
            None => None,
        }
    } else {
        match read_unsigned(s, 0x7fff_ffff_ffff_ffff) {
            Some(n) => Some(n as i64),
            None => None,
        }
    }
}

/// Reading the decimal digits of a number gives back the number.
pub proof fn decimal_reads_back(n: nat)
    ensures
        plain_value(decimal(n)) == Some(n as int),
        unsigned_value(decimal(n)) == Some(n as int),
        is_number(decimal(n)),
    decreases n,
{
    let s = decimal(n);
    if n >= 10 {
        decimal_reads_back(n / 10);
        assert(s.drop_last() =~= decimal(n / 10));
        assert(s.last() == digit_char((n % 10) as int));
        assert forall|j: int| 0 <= j < s.len() implies is_digit(#[trigger] s[j]) by {
            if j < s.len() - 1 {
                assert(is_digit(decimal(n / 10)[j]));
            }
        }
    } else {
        assert(s.drop_last() =~= Seq::<char>::empty());
        assert(digits_value(s.drop_last()) == 0);
        assert(s.last() == digit_char(n as int));
    }
    assert(is_digit(s[0]));
}

/// Reading an integer that was written with any padding gives back the integer.
pub proof fn signed_decimal_reads_back(n: int, width: int)
    ensures
        signed_value(signed_decimal(n, width)) == Some(n),
{
    let m: nat = if n < 0 {
        (-n) as nat
    } else {
        n as nat
    };
    let w = if n < 0 {
        width - 1
    } else {
        width
    };
    decimal_reads_back(m);
    padding_keeps_value(decimal(m), w - decimal(m).len());
    if n < 0 {
        assert(signed_decimal(n, width).drop_first() =~= zero_padded(decimal(m), w));
    } else {
        assert(is_digit(zero_padded(decimal(m), w)[0]));
    }
}

/// Reading the padded digits of a number gives back the number.
pub proof fn padded_decimal_reads_back(n: nat, width: int)
    ensures
        plain_value(zero_padded(decimal(n), width)) == Some(n as int),
{
    decimal_reads_back(n);
    padding_keeps_value(decimal(n), width - decimal(n).len());
}

/// The padded digits of a number of at most three places fill the width, if that is
/// wide enough.
pub proof fn padded_decimal_length(n: nat, width: int)
    requires
        n < 1000,
        width >= 1,
        n >= 10 ==> width >= 2,
        n >= 100 ==> width >= 3,
    ensures
        zero_padded(decimal(n), width).len() == width,
{
    reveal_with_fuel(decimal, 3);
}

proof fn padding_keeps_value(digits: Seq<char>, k: int)
    requires
        is_number(digits),
    ensures
        is_number(zeros(k) + digits),
        digits_value(zeros(k) + digits) == digits_value(digits),
    decreases digits.len(),
{
    let s = zeros(k) + digits;
    assert forall|j: int| 0 <= j < s.len() implies is_digit(#[trigger] s[j]) by {
        if j >= zeros(k).len() {
            assert(is_digit(digits[j - zeros(k).len()]));
        }
    }
    assert(s.drop_last() =~= zeros(k) + digits.drop_last());
    assert(s.last() == digits.last());
    if digits.len() > 1 {
        assert forall|j: int| 0 <= j < digits.drop_last().len() implies is_digit(
            #[trigger] digits.drop_last()[j],
        ) by {
            assert(is_digit(digits[j]));
        }
        padding_keeps_value(digits.drop_last(), k);
    } else {
        assert(digits.drop_last() =~= Seq::<char>::empty());
        assert(s.drop_last() =~= zeros(k));
        zeros_are_worth_nothing(k);
    }
}

proof fn zeros_are_worth_nothing(k: int)
    ensures
        digits_value(zeros(k)) == 0,
    decreases k,
{
    if k > 0 {
        assert(zeros(k).drop_last() =~= zeros(k - 1));
        zeros_are_worth_nothing(k - 1);
    }
}

/// The digits of a number below `16^width` fill at most `width` places.
pub proof fn hexadecimal_length(n: nat, width: nat)
    requires
        n < vstd::arithmetic::power::pow(16, width),
        width > 0,
    ensures
        0 < hexadecimal(n).len() <= width,
    decreases width,
{
    if n >= 16 {
        vstd::arithmetic::power::lemma_pow1(16);
        if width == 1 {
        } else {
            vstd::arithmetic::power::lemma_pow_adds(16, 1, (width - 1) as nat);
            hexadecimal_length(n / 16, (width - 1) as nat);
        }
    }
}

/// Two numbers with the same padded hexadecimal digits are one.
pub proof fn padded_hexadecimal_is_injective(a: nat, b: nat, width: int)
    requires
        zero_padded(hexadecimal(a), width) == zero_padded(hexadecimal(b), width),
    ensures
        a == b,
{
    padded_hexadecimal_value(a, width - hexadecimal(a).len());
    padded_hexadecimal_value(b, width - hexadecimal(b).len());
}

/// The value of hexadecimal digits.
spec fn hex_value(s: Seq<char>) -> nat
    decreases s.len(),
{
    if s.len() == 0 {
        0
    } else {
        (hex_value(s.drop_last()) * 16 + (if s.last() <= '9' {
            s.last() as u32 - 48
        } else {
            s.last() as u32 - 87
        })) as nat
    }
}

proof fn padded_hexadecimal_value(n: nat, k: int)
    ensures
        hex_value(zeros(k) + hexadecimal(n)) == n,
    decreases n,
{
    let s = zeros(k) + hexadecimal(n);
    if n < 16 {
        assert(s.drop_last() =~= zeros(k));
        hex_zeros(k);
        assert(s.last() == digit_char(n as int));
    } else {
        assert(s.drop_last() =~= zeros(k) + hexadecimal(n / 16));
        padded_hexadecimal_value(n / 16, k);
        assert(s.last() == digit_char((n % 16) as int));
    }
}

proof fn hex_zeros(k: int)
    ensures
        hex_value(zeros(k)) == 0,
    decreases k,
{
    if k > 0 {
        assert(zeros(k).drop_last() =~= zeros(k - 1));
        hex_zeros(k - 1);
    }
}

} // verus!
