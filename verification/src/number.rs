//! Unsigned numbers written in ASCII digits, in base ten or sixteen.

use vstd::prelude::*;
use vstd::slice::slice_subrange;
use crate::error::ErrorKind;

verus! {

/// The hexadecimal digits, in either case.
pub open spec fn is_hex_digit_char(c: char) -> bool {
    ('0' <= c && c <= '9') || ('a' <= c && c <= 'f') || ('A' <= c && c <= 'F')
}

/// Whether `c` is a hexadecimal digit, in either case.
pub fn is_hex_digit(c: char) -> (b: bool)
    ensures
        b == is_hex_digit_char(c),
{
    ('0' <= c && c <= '9') || ('a' <= c && c <= 'f') || ('A' <= c && c <= 'F')
}

/// The value of a digit byte: `0`..`9` count 0 to 9, `a`..`f` and `A`..`F`
/// count 10 to 15, and every other byte counts 16, which is a digit in no
/// base up to sixteen.
pub open spec fn digit_value(b: u8) -> nat {
    if 0x30 <= b <= 0x39 {
        (b - 0x30) as nat
    } else if 0x61 <= b <= 0x66 {
        (b - 0x61 + 10) as nat
    } else if 0x41 <= b <= 0x46 {
        (b - 0x41 + 10) as nat
    } else {
        16
    }
}

/// A non-empty sequence of digits of base `radix`.
pub open spec fn is_numeral(s: Seq<u8>, radix: nat) -> bool {
    &&& s.len() > 0
    &&& forall|i: int| 0 <= i < s.len() ==> digit_value(#[trigger] s[i]) < radix
}

/// The number that the digits of `s` write in base `radix`, most significant
/// digit first.
pub open spec fn numeral_value(s: Seq<u8>, radix: nat) -> nat
    decreases s.len(),
{
    if s.len() == 0 {
        0
    } else {
        numeral_value(s.drop_last(), radix) * radix + digit_value(s.last())
    }
}

/// A non-empty sequence of decimal digits.
pub open spec fn is_decimal(s: Seq<u8>) -> bool {
    is_numeral(s, 10)
}

/// The number that a sequence of decimal digits writes.
pub open spec fn decimal_value(s: Seq<u8>) -> nat {
    numeral_value(s, 10)
}

/// The result of reading a numeral against an upper limit.
#[derive(Debug, Clone, Copy, PartialEq, Eq, Structural)]
pub enum Number {
    /// Empty, or some byte is not a digit of the base.
    Malformed,
    /// Digits only, but the value lies above the limit.
    TooLarge,
    /// Digits only, with this value, which is at most the limit.
    Value(u32),
}

/// What reading `s` in base `radix` against `limit` gives.
pub open spec fn number_outcome(s: Seq<u8>, radix: nat, limit: u32) -> Number {
    if !is_numeral(s, radix) {
        Number::Malformed
    } else if numeral_value(s, radix) > limit {
        Number::TooLarge
    } else {
        Number::Value(numeral_value(s, radix) as u32)
    }
}

/// Appending a digit never makes a numeral smaller.
pub proof fn lemma_numeral_grows(s: Seq<u8>, radix: nat, n: int)
    requires
        0 <= n < s.len(),
        radix >= 1,
    ensures
        s.take(n + 1).drop_last() == s.take(n),
        numeral_value(s.take(n + 1), radix) == numeral_value(s.take(n), radix) * radix
            + digit_value(s[n]),
        numeral_value(s.take(n), radix) <= numeral_value(s.take(n + 1), radix),
{
    assert(s.take(n + 1).drop_last() =~= s.take(n));
    let v = numeral_value(s.take(n), radix);
    assert(v <= v * radix) by (nonlinear_arith)
        requires
            v >= 0,
            radix >= 1,
    ;
}

/// The value of a digit byte, as `digit_value` defines it.
pub fn digit_of(b: u8) -> (d: u32)
    ensures
        d == digit_value(b),
{
    if 0x30 <= b && b <= 0x39 {
        (b - 0x30) as u32
    } else if 0x61 <= b && b <= 0x66 {
        (b - 0x61) as u32 + 10
    } else if 0x41 <= b && b <= 0x46 {
        (b - 0x41) as u32 + 10
    } else {
        16
    }
}

/// Reads `digits` as a number in base `radix` and compares it with `limit`.
/// Leading zeros are digits like any other, and a numeral of any length is
/// read without overflow.
pub fn read_number(digits: &[u8], radix: u32, limit: u32) -> (r: Number)
    requires
        2 <= radix <= 16,
    ensures
        r == number_outcome(digits@, radix as nat, limit),
{
    if digits.len() == 0 {
        return Number::Malformed;
    }
    let mut value: u64 = 0;
    let mut above: bool = false;
    let mut i: usize = 0;
    while i < digits.len()
        invariant
            i <= digits.len(),
            2 <= radix <= 16,
            forall|j: int| 0 <= j < i ==> digit_value(#[trigger] digits@[j]) < radix,
            above <==> numeral_value(digits@.take(i as int), radix as nat) > limit,
            !above ==> value == numeral_value(digits@.take(i as int), radix as nat),
        decreases digits.len() - i,
    {
        let d: u32 = digit_of(digits[i]);
        if d >= radix {
            return Number::Malformed;
        }
        proof {
            lemma_numeral_grows(digits@, radix as nat, i as int);
        }
        if !above {
            assert(value * radix <= 0xffff_ffff * 16) by (nonlinear_arith)
                requires
                    value <= 0xffff_ffff,
                    radix <= 16,
            ;
            value = value * (radix as u64) + (d as u64);
            if value > limit as u64 {
                above = true;
            }
        }
        i = i + 1;
    }
    assert(digits@.take(digits@.len() as int) =~= digits@);
    if above {
        Number::TooLarge
    } else {
        Number::Value(value as u32)
    }
}

/// Reads `digits` as an unsigned decimal number no greater than `limit`.
pub fn read_decimal(digits: &[u8], limit: u32) -> (r: Number)
    ensures
        r == number_outcome(digits@, 10, limit),
{
    read_number(digits, 10, limit)
}

/// The digits of a hexadecimal literal: the literal itself, without the plus
/// sign that may stand in front.
pub open spec fn hex_digits(s: Seq<u8>) -> Seq<u8> {
    if s.len() > 0 && s[0] == 0x2b {
        s.skip(1)
    } else {
        s
    }
}

/// The byte that a hexadecimal literal writes, if it writes one: an optional
/// plus sign, then one or more hexadecimal digits whose value is at most 255.
pub open spec fn hex_byte(s: Seq<u8>) -> Option<u8> {
    match number_outcome(hex_digits(s), 16, 255) {
        Number::Value(v) => Some(v as u8),
        _ => None,
    }
}

/// Converts a hexadecimal literal to the byte it writes.
pub fn from_hex(input: &[u8]) -> (r: Result<u8, ErrorKind>)
    ensures
        r == match hex_byte(input@) {
            Some(v) => Ok::<u8, ErrorKind>(v),
            None => Err(ErrorKind::MalformedHex),
        },
{
    let digits = if input.len() > 0 && input[0] == 0x2b {
        slice_subrange(input, 1, input.len())
    } else {
        input
    };
    match read_number(digits, 16, 255) {
        Number::Value(v) => Ok(v as u8),
        _ => Err(ErrorKind::MalformedHex),
    }
}

} // verus!
