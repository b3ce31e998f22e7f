//! Colours and the `#RRGGBB` literal.

use vstd::prelude::*;
use vstd::slice::slice_subrange;
use crate::error::{agrees, failure, ErrorKind, Outcome, ParseError};
use crate::number::{
    digit_value, from_hex, hex_byte, is_hex_digit, is_hex_digit_char, is_numeral, numeral_value,
};

verus! {

/// Three 8-bit channel intensities.
#[derive(Debug, PartialEq, Eq, Clone, Copy, Structural)]
pub struct Color {
    pub red: u8,
    pub green: u8,
    pub blue: u8,
}

/// The `n` bytes of `s` from `start` on exist and are hexadecimal digits.
pub open spec fn is_hex_group(s: Seq<u8>, start: int, n: int) -> bool {
    &&& 0 <= start
    &&& 0 <= n
    &&& start + n <= s.len()
    &&& forall|i: int| start <= i < start + n ==> is_hex_digit_char(#[trigger] s[i] as char)
}

/// The byte that the two hexadecimal digits at `at` write.
pub open spec fn hex_pair_value(s: Seq<u8>, at: int) -> u8 {
    (digit_value(s[at]) * 16 + digit_value(s[at + 1])) as u8
}

/// Checks that exactly `n` hexadecimal digits stand at `start` and returns
/// the offset after them; otherwise reports `MalformedHex` at `start`.
pub fn take_fixed_hex(input: &[u8], start: usize, n: usize) -> (r: Result<usize, ParseError>)
    requires
        start <= input@.len(),
    ensures
        r == if is_hex_group(input@, start as int, n as int) {
            Ok::<usize, ParseError>((start + n) as usize)
        } else {
            Err(failure(ErrorKind::MalformedHex, start as int, input@.len() as int))
        },
{
    let len = input.len();
    if n > len - start {
        return Err(ParseError::new(ErrorKind::MalformedHex, start, len));
    }
    let mut i: usize = start;
    while i < start + n
        invariant
            start <= i <= start + n <= len,
            len == input@.len(),
            forall|j: int| start <= j < i ==> is_hex_digit_char(#[trigger] input@[j] as char),
        decreases start + n - i,
    {
        if !is_hex_digit(input[i] as char) {
            return Err(ParseError::new(ErrorKind::MalformedHex, start, len));
        }
        i = i + 1;
    }
    Ok(i)
}

/// What `hex_primary` makes of `s`.
pub open spec fn hex_pair_outcome(s: Seq<u8>) -> Outcome<u8> {
    if is_hex_group(s, 0, 2) {
        Outcome::Done(hex_pair_value(s, 0), 2)
    } else {
        Outcome::Fail(ErrorKind::MalformedHex, 0)
    }
}

/// Parses one channel: exactly two hexadecimal digits at the start of
/// `input`, read in base sixteen.
pub fn hex_primary(input: &[u8]) -> (r: Result<(&[u8], u8), ParseError>)
    ensures
        agrees(r, input@, hex_pair_outcome(input@)),
{
    let end = match take_fixed_hex(input, 0, 2) {
        Ok(end) => end,
        Err(e) => { return Err(e); },
    };
    proof {
        lemma_pair_value(input@, 0);
    }
    match from_hex(slice_subrange(input, 0, end)) {
        Ok(v) => Ok((slice_subrange(input, end, input.len()), v)),
        Err(_) => Err(ParseError::new(ErrorKind::MalformedHex, 0, input.len())),
    }
}

/// What `parse_hex_color` makes of `s`: a `#`, then three channels of two
/// hexadecimal digits each, in the order red, green, blue.
pub open spec fn hex_color_outcome(s: Seq<u8>) -> Outcome<Color> {
    if s.len() == 0 || s[0] != 0x23 {
        Outcome::Fail(ErrorKind::ExpectedHashPrefix, 0)
    } else if !is_hex_group(s, 1, 2) {
        Outcome::Fail(ErrorKind::MalformedHex, 1)
    } else if !is_hex_group(s, 3, 2) {
        Outcome::Fail(ErrorKind::MalformedHex, 3)
    } else if !is_hex_group(s, 5, 2) {
        Outcome::Fail(ErrorKind::MalformedHex, 5)
    } else {
        Outcome::Done(
            Color {
                red: hex_pair_value(s, 1),
                green: hex_pair_value(s, 3),
                blue: hex_pair_value(s, 5),
            },
            7,
        )
    }
}

/// Parses a `#RRGGBB` literal at the start of `input` and returns the colour
/// with the input that follows the literal.
pub fn parse_hex_color(input: &[u8]) -> (r: Result<(&[u8], Color), ParseError>)
    ensures
        agrees(r, input@, hex_color_outcome(input@)),
{
    let len = input.len();
    if len == 0 || input[0] != 0x23 {
        return Err(ParseError::new(ErrorKind::ExpectedHashPrefix, 0, len));
    }
    let ghost s = input@;
    let after_hash = slice_subrange(input, 1, len);
    assert(is_hex_group(after_hash@, 0, 2) <==> is_hex_group(s, 1, 2)) by {
        lemma_group_in_suffix(s, 1, 0);
    }
    let (after_red, red) = match hex_primary(after_hash) {
        Ok(p) => p,
        Err(e) => { return Err(e.shifted(1)); },
    };
    assert(after_red@ =~= s.subrange(3, s.len() as int));
    assert(is_hex_group(after_red@, 0, 2) <==> is_hex_group(s, 3, 2)) by {
        lemma_group_in_suffix(s, 3, 0);
    }
    let (after_green, green) = match hex_primary(after_red) {
        Ok(p) => p,
        Err(e) => { return Err(e.shifted(3)); },
    };
    assert(after_green@ =~= s.subrange(5, s.len() as int));
    assert(is_hex_group(after_green@, 0, 2) <==> is_hex_group(s, 5, 2)) by {
        lemma_group_in_suffix(s, 5, 0);
    }
    let (rest, blue) = match hex_primary(after_green) {
        Ok(p) => p,
        Err(e) => { return Err(e.shifted(5)); },
    };
    assert(rest@ =~= s.subrange(7, s.len() as int));
    Ok((rest, Color { red, green, blue }))
}

/// A `#` followed by six hexadecimal digits parses to the colour whose
/// channels are the base-sixteen values of the three pairs of digits, and
/// the whole input is consumed.
pub proof fn lemma_hex_color_literal(s: Seq<u8>)
    requires
        s.len() == 7,
        s[0] == 0x23,
        forall|i: int| 1 <= i < 7 ==> is_hex_digit_char(#[trigger] s[i] as char),
    ensures
        hex_color_outcome(s) == Outcome::Done(
            Color {
                red: numeral_value(s.subrange(1, 3), 16) as u8,
                green: numeral_value(s.subrange(3, 5), 16) as u8,
                blue: numeral_value(s.subrange(5, 7), 16) as u8,
            },
            s.len() as int,
        ),
        numeral_value(s.subrange(1, 3), 16) <= 255,
        numeral_value(s.subrange(3, 5), 16) <= 255,
        numeral_value(s.subrange(5, 7), 16) <= 255,
{
    lemma_pair_value(s, 1);
    lemma_pair_value(s, 3);
    lemma_pair_value(s, 5);
}

/// The two hexadecimal digits at `at` write, as a numeral of base sixteen,
/// sixteen times the first plus the second.
pub proof fn lemma_pair_value(s: Seq<u8>, at: int)
    requires
        is_hex_group(s, at, 2),
    ensures
        numeral_value(s.subrange(at, at + 2), 16) == digit_value(s[at]) * 16 + digit_value(
            s[at + 1],
        ),
        numeral_value(s.subrange(at, at + 2), 16) <= 255,
        hex_byte(s.subrange(at, at + 2)) == Some(hex_pair_value(s, at)),
{
    let g = s.subrange(at, at + 2);
    assert(is_hex_digit_char(s[at] as char) && is_hex_digit_char(s[at + 1] as char));
    assert(g.len() == 2 && g[0] == s[at] && g[1] == s[at + 1]);
    assert(is_numeral(g, 16));
    let g1 = g.drop_last();
    assert(g1.len() == 1 && g1[0] == s[at]);
    assert(g1.drop_last().len() == 0);
    reveal_with_fuel(numeral_value, 3);
}

/// A group of two hexadecimal digits stands at `at` in the suffix of `s`
/// from `cut` on exactly when it stands at `cut + at` in `s`.
pub proof fn lemma_group_in_suffix(s: Seq<u8>, cut: int, at: int)
    requires
        0 <= cut <= s.len(),
        0 <= at,
    ensures
        is_hex_group(s.subrange(cut, s.len() as int), at, 2) <==> is_hex_group(s, cut + at, 2),
{
    let t = s.subrange(cut, s.len() as int);
    if at + 2 <= t.len() {
        assert(t[at] == s[cut + at]);
        assert(t[at + 1] == s[cut + at + 1]);
    }
}

} // verus!
