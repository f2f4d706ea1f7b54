//! The 64-bit machine word and the numeric helpers of the emulator: the
//! `int64` value type with wraparound arithmetic, the bit-pattern
//! conversions between signed and unsigned words, truncating division,
//! the little-endian byte view of a word, and decimal text for output.

use vstd::prelude::*;

verus! {

use vstd::arithmetic::div_mod::lemma_div_is_ordered;
use vstd::arithmetic::div_mod::lemma_div_is_ordered_by_denominator;
use vstd::arithmetic::div_mod::lemma_div_nonincreasing;
use vstd::arithmetic::div_mod::lemma_div_pos_is_pos;
use vstd::bytes::spec_u64_to_le_bytes;
use vstd::bytes::u64_to_le_bytes;
use vstd::wrapping::i64_specs;

/// The unsigned word with the same 64-bit pattern as `x`.
pub open spec fn to_unsigned(x: i64) -> u64 {
    if x >= 0 {
        x as u64
    } else {
        (x + 0x1_0000_0000_0000_0000) as u64
    }
}

/// The signed word with the same 64-bit pattern as `u`.
pub open spec fn to_signed(u: u64) -> i64 {
    if u <= i64::MAX as u64 {
        u as i64
    } else {
        (u - 0x1_0000_0000_0000_0000) as i64
    }
}

/// The two bit-pattern conversions invert each other.
pub proof fn lemma_signed_unsigned_inverse(x: i64, u: u64)
    ensures
        to_signed(to_unsigned(x)) == x,
        to_unsigned(to_signed(u)) == u,
{
}

/// Reinterpret a signed word as its unsigned bit pattern.
pub fn unsigned_bits(x: i64) -> (u: u64)
    ensures
        u == to_unsigned(x),
{
    if x >= 0 {
        x as u64
    } else {
        u64::MAX - ((-(x + 1)) as u64)
    }
}

/// Reinterpret an unsigned word as its signed bit pattern.
pub fn signed_bits(u: u64) -> (x: i64)
    ensures
        x == to_signed(u),
{
    if u <= i64::MAX as u64 {
        u as i64
    } else {
        -((u64::MAX - u) as i64) - 1
    }
}

/// Signed division truncating toward zero, as the division instruction
/// performs it on a nonzero divisor.
pub open spec fn trunc_div(x: int, d: int) -> int
    recommends
        d != 0,
{
    if x == 0 {
        0
    } else if x > 0 && d > 0 {
        x / d
    } else if x < 0 && d < 0 {
        (x * -1) / (d * -1)
    } else if x < 0 {
        ((x * -1) / d) * -1
    } else {
        (x / (d * -1)) * -1
    }
}

/// Division of one 64-bit word by another, nonzero word: truncating, with
/// the single wraparound case `i64::MIN / -1`, whose true quotient does not
/// fit, coming back around to `i64::MIN`.
pub open spec fn wrapping_div_i64(a: i64, b: i64) -> i64
    recommends
        b != 0,
{
    if a == i64::MIN && b == -1 {
        i64::MIN
    } else {
        trunc_div(a as int, b as int) as i64
    }
}

/// For every pair of words other than `i64::MIN / -1`, the truncating
/// quotient fits in a 64-bit word.
pub proof fn lemma_trunc_div_fits(x: int, d: int)
    requires
        -0x8000_0000_0000_0000 <= x <= 0x7fff_ffff_ffff_ffff,
        -0x8000_0000_0000_0000 <= d <= 0x7fff_ffff_ffff_ffff,
        d != 0,
        !(x == -0x8000_0000_0000_0000 && d == -1),
    ensures
        -0x8000_0000_0000_0000 <= trunc_div(x, d) <= 0x7fff_ffff_ffff_ffff,
{
    if x == 0 {
    } else if x > 0 && d > 0 {
        lemma_div_pos_is_pos(x, d);
        lemma_div_nonincreasing(x, d);
    } else if x < 0 && d < 0 {
        let m = x * -1;
        let e = d * -1;
        lemma_div_pos_is_pos(m, e);
        if e == 1 {
            assert(m / e <= 0x7fff_ffff_ffff_ffff);
        } else {
            lemma_div_is_ordered_by_denominator(m, 2, e);
            lemma_div_is_ordered(m, 0x8000_0000_0000_0000, 2);
        }
    } else if x < 0 {
        let m = x * -1;
        lemma_div_pos_is_pos(m, d);
        lemma_div_nonincreasing(m, d);
    } else {
        let e = d * -1;
        lemma_div_pos_is_pos(x, e);
        lemma_div_nonincreasing(x, e);
    }
}

/// The character of one decimal digit.
pub open spec fn digit_char(d: int) -> char
    recommends
        0 <= d <= 9,
{
    ((48 + d) as u8) as char
}

/// The decimal digits of `n`, most significant first.
pub open spec fn dec_digits(n: nat) -> Seq<char>
    decreases n,
{
    if n < 10 {
        seq![digit_char(n as int)]
    } else {
        dec_digits(n / 10).push(digit_char((n % 10) as int))
    }
}

/// The decimal text of `v`: a minus sign first when `v` is negative.
pub open spec fn dec_str(v: i64) -> Seq<char> {
    if v >= 0 {
        dec_digits(v as nat)
    } else {
        seq!['-'] + dec_digits((-(v as int)) as nat)
    }
}

/// Append the decimal digits of `n` to `out`, most significant first.
fn push_decimal_digits(n: u64, out: &mut Vec<char>)
    ensures
        final(out)@ == old(out)@ + dec_digits(n as nat),
    decreases n,
{
    if n < 10 {
        let c: char = (48 + n as u8) as char;
        out.push(c);
        assert(out@ =~= old(out)@ + dec_digits(n as nat));
    } else {
        push_decimal_digits(n / 10, out);
        let c: char = (48 + (n % 10) as u8) as char;
        out.push(c);
        assert(out@ =~= old(out)@ + dec_digits(n as nat));
    }
}

/// The decimal text of a signed 64-bit word, as the integer-output
/// instruction emits it.
pub fn format_decimal(v: i64) -> (r: Vec<char>)
    ensures
        r@ == dec_str(v),
{
    let mut out: Vec<char> = Vec::new();
    if v >= 0 {
        push_decimal_digits(v as u64, &mut out);
    } else {
        out.push('-');
        let m: u64 = ((-(v + 1)) as u64) + 1;
        assert(m == -(v as int));
        push_decimal_digits(m, &mut out);
        assert(out@ =~= dec_str(v));
    }
    out
}

/// The character held in the low 8 bits of a word, as the character-output
/// instruction emits it.
pub open spec fn low_char(x: i64) -> char {
    ((to_unsigned(x) % 256) as u8) as char
}

/// A signed 64-bit machine word. Addition, subtraction and multiplication
/// wrap around modulo 2^64 rather than fault; division truncates toward
/// zero and wraps in the single case `i64::MIN / -1`.
#[allow(non_camel_case_types)]
#[derive(Clone, Copy, Debug, Hash, PartialEq, Eq, Structural)]
pub struct int64(pub i64);

impl int64 {
    /// Wraparound addition.
    pub fn add(self, rhs: int64) -> (r: int64)
        ensures
            r.0 == i64_specs::wrapping_add(self.0, rhs.0),
    {
        int64(self.0.wrapping_add(rhs.0))
    }

    /// Wraparound subtraction.
    pub fn sub(self, rhs: int64) -> (r: int64)
        ensures
            r.0 == i64_specs::wrapping_sub(self.0, rhs.0),
    {
        int64(self.0.wrapping_sub(rhs.0))
    }

    /// Wraparound multiplication.
    pub fn mul(self, rhs: int64) -> (r: int64)
        ensures
            r.0 == i64_specs::wrapping_mul(self.0, rhs.0),
    {
        int64(self.0.wrapping_mul(rhs.0))
    }

    /// Truncating division by a nonzero word.
    pub fn div(self, rhs: int64) -> (r: int64)
        requires
            rhs.0 != 0,
        ensures
            r.0 == wrapping_div_i64(self.0, rhs.0),
    {
        proof {
            if !(self.0 == i64::MIN && rhs.0 == -1) {
                lemma_trunc_div_fits(self.0 as int, rhs.0 as int);
            }
        }
        match self.0.checked_div(rhs.0) {
            Some(q) => int64(q),
            None => int64(i64::MIN),
        }
    }

    /// The eight bytes of this word, least significant first.
    pub fn to_bytes(self) -> (r: Vec<u8>)
        ensures
            r@ == spec_u64_to_le_bytes(to_unsigned(self.0)),
            r@.len() == 8,
    {
        u64_to_le_bytes(unsigned_bits(self.0))
    }

    /// The character held in the low 8 bits of this word.
    pub fn to_char(self) -> (c: char)
        ensures
            c == low_char(self.0),
    {
        let u: u64 = unsigned_bits(self.0);
        ((u % 256) as u8) as char
    }
}

impl From<i64> for int64 {
    fn from(v: i64) -> (r: int64) {
        int64(v)
    }
}

impl vstd::std_specs::convert::FromSpecImpl<i64> for int64 {
    open spec fn obeys_from_spec() -> bool {
        true
    }

    open spec fn from_spec(v: i64) -> int64 {
        int64(v)
    }
}

impl Default for int64 {
    /// The zero word.
    fn default() -> (r: int64)
        ensures
            r.0 == 0,
    {
        int64(0)
    }
}

} // verus!
