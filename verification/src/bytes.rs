//! Little-endian integers and UTF-8 text in byte sequences.
use vstd::prelude::*;
use vstd::utf8::{decode_utf8, encode_utf8, valid_utf8};

verus! {

/// The low `n` bytes of a number, least significant first.
pub open spec fn le_bytes(v: nat, n: nat) -> Seq<u8>
    decreases n,
{
    if n == 0 {
        seq![]
    } else {
        seq![(v % 256) as u8] + le_bytes(v / 256, (n - 1) as nat)
    }
}

/// The number whose bytes are given, least significant first.
pub open spec fn le_value(s: Seq<u8>) -> nat
    decreases s.len(),
{
    if s.len() == 0 {
        0
    } else {
        s[0] as nat + 256 * le_value(s.drop_first())
    }
}

/// Appends the low `n` bytes of a number.
pub fn push_le(out: &mut Vec<u8>, v: u64, n: usize)
    ensures
        final(out)@ == old(out)@ + le_bytes(v as nat, n as nat),
{
    let ghost start = out@;
    let mut rest: u64 = v;
    let mut k: usize = n;
    assert(out@ + le_bytes(v as nat, n as nat) == start + le_bytes(v as nat, n as nat));
    while k > 0
        invariant
            out@ + le_bytes(rest as nat, k as nat) == start + le_bytes(v as nat, n as nat),
        decreases k,
    {
        let ghost before = out@;
        let ghost was = rest as nat;
        out.push((rest % 256) as u8);
        rest = rest / 256;
        k = k - 1;
        proof {
            assert(out@ + le_bytes(rest as nat, k as nat) =~= before + le_bytes(
                was,
                (k + 1) as nat,
            ));
        }
    }
    assert(out@ =~= out@ + le_bytes(rest as nat, 0));
}

/// Reads four bytes.
pub fn read_u32(s: &[u8], at: usize) -> (r: u32)
    requires
        at + 4 <= s@.len(),
    ensures
        r == le_value(s@.subrange(at as int, at + 4)),
{
    let r: u64 = s[at] as u64 + 256 * (s[at + 1] as u64 + 256 * (s[at + 2] as u64 + 256 * (s[at
        + 3] as u64)));
    proof {
        let q = s@.subrange(at as int, at + 4);
        reveal_with_fuel(le_value, 5);
        assert(q.drop_first()[0] == s@[at + 1]);
        assert(q.drop_first().drop_first()[0] == s@[at + 2]);
        assert(q.drop_first().drop_first().drop_first()[0] == s@[at + 3]);
        assert(q.drop_first().drop_first().drop_first().drop_first().len() == 0);
    }
    r as u32
}

/// The number of bytes written is the number asked for.
pub proof fn le_bytes_length(v: nat, n: nat)
    ensures
        le_bytes(v, n).len() == n,
    decreases n,
{
    if n > 0 {
        le_bytes_length(v / 256, (n - 1) as nat);
    }
}

/// Reading the low `n` bytes of a number gives the number modulo `256^n`.
pub proof fn le_bytes_read_back(v: nat, n: nat)
    ensures
        le_value(le_bytes(v, n)) == v as int % vstd::arithmetic::power::pow(256, n),
    decreases n,
{
    use_pow(n);
    if n == 0 {
    } else {
        le_bytes_read_back(v / 256, (n - 1) as nat);
        le_bytes_length(v / 256, (n - 1) as nat);
        assert(le_bytes(v, n).drop_first() =~= le_bytes(v / 256, (n - 1) as nat));
        let p = vstd::arithmetic::power::pow(256, (n - 1) as nat);
        vstd::arithmetic::div_mod::lemma_mod_breakdown(v as int, 256, p);
    }
}

proof fn use_pow(n: nat)
    ensures
        n == 0 ==> vstd::arithmetic::power::pow(256, n) == 1,
        n > 0 ==> vstd::arithmetic::power::pow(256, n) == 256 * vstd::arithmetic::power::pow(
            256,
            (n - 1) as nat,
        ),
        vstd::arithmetic::power::pow(256, n) > 0,
{
    reveal(vstd::arithmetic::power::pow);
    vstd::arithmetic::power::lemma_pow_positive(256, n);
}

/// Multiples of `256^n` leave the low `n` bytes as they are.
pub proof fn high_bytes_are_cut(v: nat, m: nat, n: nat)
    ensures
        le_bytes((v + m * vstd::arithmetic::power::pow(256, n)) as nat, n) == le_bytes(v, n),
    decreases n,
{
    use_pow(n);
    if n > 0 {
        let p = vstd::arithmetic::power::pow(256, (n - 1) as nat);
        use_pow((n - 1) as nat);
        let w = v + m * vstd::arithmetic::power::pow(256, n);
        assert(m * (256 * p) == (m * p) * 256) by (nonlinear_arith);
        assert(m * p >= 0) by (nonlinear_arith)
            requires
                m >= 0,
                p > 0,
        ;
        assert(w % 256 == v as int % 256);
        assert(w / 256 == v / 256 + m * p);
        high_bytes_are_cut(v / 256, m, (n - 1) as nat);
    }
}

/// Four bytes hold every number of 32 bits.
pub proof fn four_bytes_read_back(v: nat)
    ensures
        le_bytes(v, 4).len() == 4,
        le_value(le_bytes(v, 4)) == v % 0x1_0000_0000,
        le_bytes(v, 4) == le_bytes(v % 0x1_0000_0000, 4),
{
    le_bytes_length(v, 4);
    le_bytes_read_back(v, 4);
    assert(vstd::arithmetic::power::pow(256, 4) == 0x1_0000_0000) by {
        reveal_with_fuel(vstd::arithmetic::power::pow, 6);
    }
    high_bytes_are_cut(v % 0x1_0000_0000, v / 0x1_0000_0000, 4);
}

/// Eight bytes hold every number of 64 bits.
pub proof fn eight_bytes_read_back(v: nat)
    ensures
        le_bytes(v, 8).len() == 8,
        le_value(le_bytes(v, 8)) == v % 0x1_0000_0000_0000_0000,
        le_bytes(v, 8) == le_bytes(v % 0x1_0000_0000_0000_0000, 8),
{
    le_bytes_length(v, 8);
    le_bytes_read_back(v, 8);
    assert(vstd::arithmetic::power::pow(256, 8) == 0x1_0000_0000_0000_0000) by {
        reveal_with_fuel(vstd::arithmetic::power::pow, 10);
    }
    high_bytes_are_cut(v % 0x1_0000_0000_0000_0000, v / 0x1_0000_0000_0000_0000, 8);
}

/// A character takes at most four bytes.
pub proof fn utf8_length(s: Seq<char>)
    ensures
        encode_utf8(s).len() <= 4 * s.len(),
    decreases s.len(),
{
    if s.len() > 0 {
        utf8_length(s.drop_first());
    }
}

/// Appends the UTF-8 bytes of a text.
pub fn push_text(out: &mut Vec<u8>, s: &str)
    ensures
        final(out)@ == old(out)@ + encode_utf8(s@),
{
    out.extend_from_slice(s.as_bytes());
    assert(out@ =~= old(out)@ + encode_utf8(s@));
}

/// Appends bytes.
pub fn push_bytes(out: &mut Vec<u8>, s: &[u8])
    ensures
        final(out)@ == old(out)@ + s@,
{
    out.extend_from_slice(s);
    assert(out@ =~= old(out)@ + s@);
}

/// The index of the first `b`, or the length where there is none.
pub open spec fn byte_position(s: Seq<u8>, b: u8) -> int
    decreases s.len(),
{
    if s.len() == 0 || s[0] == b {
        0
    } else {
        1 + byte_position(s.drop_first(), b)
    }
}

pub fn find_byte(s: &[u8], b: u8) -> (r: usize)
    ensures
        r == byte_position(s@, b),
        r <= s@.len(),
{
    let mut i: usize = 0;
    assert(s@.skip(0) =~= s@);
    while i < s.len() && s[i] != b
        invariant
            i <= s@.len(),
            byte_position(s@, b) == i + byte_position(s@.skip(i as int), b),
        decreases s.len() - i,
    {
        assert(s@.skip(i as int).drop_first() =~= s@.skip(i + 1));
        i = i + 1;
    }
    i
}

/// Whether two byte slices are equal.
pub fn same_bytes(a: &[u8], b: &[u8]) -> (r: bool)
    ensures
        r == (a@ == b@),
{
    if a.len() != b.len() {
        return false;
    }
    for i in 0..a.len()
        invariant
            a@.len() == b@.len(),
            forall|j: int| 0 <= j < i ==> a@[j] == b@[j],
    {
        if a[i] != b[i] {
            return false;
        }
    }
    assert(a@ =~= b@);
    true
}

/// What `String::from_utf8_lossy` reads from bytes.
pub uninterp spec fn lossy_text(bytes: Seq<u8>) -> Seq<char>;

/// `String::from_utf8_lossy`: the text depends on the bytes alone, and well-formed
/// UTF-8 is read as the characters that it encodes. Where the replacement
/// characters stand for malformed bytes is not said.
#[verifier::external_body]
pub(crate) fn read_lossy(bytes: &[u8]) -> (r: String)
    ensures
        r@ == lossy_text(bytes@),
        valid_utf8(bytes@) ==> r@ == decode_utf8(bytes@),
{
    String::from_utf8_lossy(bytes).to_string()
}

} // verus!
