//! The pixel body written as decimal numbers separated by whitespace.

use vstd::prelude::*;
use vstd::slice::slice_subrange;
use crate::color::Color;
use crate::error::{failure, ErrorKind, Outcome, ParseError};
use crate::grid::{grid_agrees, grid_of, grid_view, lemma_pixel_number, PPMData};
use crate::number::{decimal_value, is_decimal, number_outcome, read_decimal, Number};
use crate::sample::{lemma_scaled_ends, scale_sample, scaled};
use crate::scan::{lemma_run_end_closes, run_end, take_while, take_whitespace, ByteClass};

verus! {

/// Where the token that follows the cursor begins: behind the whitespace at
/// the cursor.
pub open spec fn token_start(s: Seq<u8>, cursor: int) -> int {
    run_end(s, cursor, ByteClass::Whitespace)
}

/// Where that token ends: at the next whitespace or at the end of the input.
pub open spec fn token_end(s: Seq<u8>, cursor: int) -> int {
    run_end(s, token_start(s, cursor), ByteClass::NonWhitespace)
}

/// The bytes of that token; empty exactly when only whitespace is left.
pub open spec fn token(s: Seq<u8>, cursor: int) -> Seq<u8> {
    s.subrange(token_start(s, cursor), token_end(s, cursor))
}

/// The cursor after `k` tokens have been read from the start of `s`.
pub open spec fn cursor_after(s: Seq<u8>, k: int) -> int
    decreases k,
{
    if k <= 0 {
        0
    } else {
        token_end(s, cursor_after(s, k - 1))
    }
}

/// The sample that a token writes.
///
/// A decimal number up to `max_value` is rescaled to `[0, 255]`. A larger
/// one, or a minus sign followed by decimal digits, is out of range. No
/// token at all means that the input has ended, and any other token is not a
/// number.
pub open spec fn sample_outcome(token: Seq<u8>, max_value: u32) -> Result<u8, ErrorKind> {
    if token.len() == 0 {
        Err(ErrorKind::UnexpectedEndOfInput)
    } else {
        match number_outcome(token, 10, max_value) {
            Number::Value(v) => Ok(scaled(v as int, max_value as int) as u8),
            Number::TooLarge => Err(ErrorKind::SampleOutOfRange),
            Number::Malformed => if token[0] == 0x2d && is_decimal(token.skip(1)) {
                Err(ErrorKind::SampleOutOfRange)
            } else {
                Err(ErrorKind::InvalidDimension)
            },
        }
    }
}

/// Rescaling is exact at both ends: a token that writes 0 gives the sample
/// 0 and a token that writes `max_value` gives the sample 255.
pub proof fn lemma_sample_ends(token: Seq<u8>, max_value: u32)
    requires
        is_decimal(token),
        1 <= max_value,
    ensures
        decimal_value(token) == 0 ==> sample_outcome(token, max_value) == Ok::<u8, ErrorKind>(0),
        decimal_value(token) == max_value ==> sample_outcome(token, max_value) == Ok::<
            u8,
            ErrorKind,
        >(255),
{
    lemma_scaled_ends(max_value as int);
}

/// The sample that token number `k` of `s` writes, counting from 0.
pub open spec fn ascii_sample(s: Seq<u8>, k: int, max_value: u32) -> Result<u8, ErrorKind> {
    sample_outcome(token(s, cursor_after(s, k)), max_value)
}

/// Pixel number `i` of the body: tokens `3 * i`, `3 * i + 1` and `3 * i + 2`
/// as red, green and blue.
pub open spec fn ascii_pixel(s: Seq<u8>, i: int, max_value: u32) -> Color {
    Color {
        red: ascii_sample(s, 3 * i, max_value).unwrap(),
        green: ascii_sample(s, 3 * i + 1, max_value).unwrap(),
        blue: ascii_sample(s, 3 * i + 2, max_value).unwrap(),
    }
}

/// Token `k` is the first among the first `count` tokens that does not write
/// a sample.
pub open spec fn is_first_failure(s: Seq<u8>, count: int, max_value: u32, k: int) -> bool {
    &&& 0 <= k < count
    &&& ascii_sample(s, k, max_value) is Err
    &&& forall|j: int| 0 <= j < k ==> (#[trigger] ascii_sample(s, j, max_value)) is Ok
}

/// Some token among the first `count` does not write a sample.
pub open spec fn has_failure(s: Seq<u8>, count: int, max_value: u32) -> bool {
    exists|k: int| is_first_failure(s, count, max_value, k)
}

/// The number of the first such token.
pub open spec fn first_failure(s: Seq<u8>, count: int, max_value: u32) -> int {
    choose|k: int| is_first_failure(s, count, max_value, k)
}

/// What `parse_ppm_data_ascii` makes of `s`.
///
/// The body is `3 * width * height` tokens. If one of them writes no sample,
/// the first such token decides the error, which is reported where that
/// token begins. Otherwise the samples fill the grid row by row, three to a
/// pixel, and the whitespace behind the last token is consumed as well.
pub open spec fn ascii_outcome(s: Seq<u8>, width: u32, height: u32, max_value: u32) -> Outcome<
    Seq<Seq<Color>>,
> {
    let count = 3 * (width * height);
    if has_failure(s, count, max_value) {
        let k = first_failure(s, count, max_value);
        Outcome::Fail(
            ascii_sample(s, k, max_value)->Err_0,
            token_start(s, cursor_after(s, k)),
        )
    } else {
        Outcome::Done(
            grid_of(width as int, height as int, |i: int| ascii_pixel(s, i, max_value)),
            token_start(s, cursor_after(s, count)),
        )
    }
}

/// A failing token with only good tokens in front of it is the first
/// failure.
pub proof fn lemma_first_failure(s: Seq<u8>, count: int, max_value: u32, k: int)
    requires
        is_first_failure(s, count, max_value, k),
    ensures
        has_failure(s, count, max_value),
        first_failure(s, count, max_value) == k,
{
    let f = first_failure(s, count, max_value);
    assert(is_first_failure(s, count, max_value, f));
    if f < k {
        assert(ascii_sample(s, f, max_value) is Ok);
    }
    if k < f {
        assert(ascii_sample(s, k, max_value) is Ok);
    }
}

/// A body that runs out of tokens before the grid is full fails with
/// `UnexpectedEndOfInput`, at the end of the input: here token `k` is
/// missing and the `k` tokens in front of it write samples.
pub proof fn lemma_too_few_tokens(s: Seq<u8>, width: u32, height: u32, max_value: u32, k: int)
    requires
        0 <= k < 3 * (width * height),
        forall|j: int| 0 <= j < k ==> (#[trigger] ascii_sample(s, j, max_value)) is Ok,
        token(s, cursor_after(s, k)).len() == 0,
    ensures
        ascii_outcome(s, width, height, max_value) == Outcome::<Seq<Seq<Color>>>::Fail(
            ErrorKind::UnexpectedEndOfInput,
            token_start(s, cursor_after(s, k)),
        ),
        0 <= cursor_after(s, k) <= s.len() ==> token_start(s, cursor_after(s, k)) == s.len(),
{
    lemma_first_failure(s, 3 * (width * height), max_value, k);
    let cursor = cursor_after(s, k);
    if 0 <= cursor <= s.len() {
        let start = token_start(s, cursor);
        lemma_run_end_closes(s, cursor, ByteClass::Whitespace);
        lemma_run_end_closes(s, start, ByteClass::NonWhitespace);
    }
}

/// A token that writes a number above `max_value`, behind tokens that all
/// write samples, fails with `SampleOutOfRange` where that token begins.
pub proof fn lemma_sample_above_max(s: Seq<u8>, width: u32, height: u32, max_value: u32, k: int)
    requires
        0 <= k < 3 * (width * height),
        forall|j: int| 0 <= j < k ==> (#[trigger] ascii_sample(s, j, max_value)) is Ok,
        is_decimal(token(s, cursor_after(s, k))),
        decimal_value(token(s, cursor_after(s, k))) > max_value,
    ensures
        ascii_outcome(s, width, height, max_value) == Outcome::<Seq<Seq<Color>>>::Fail(
            ErrorKind::SampleOutOfRange,
            token_start(s, cursor_after(s, k)),
        ),
{
    lemma_first_failure(s, 3 * (width * height), max_value, k);
}

/// Reads the token that follows `cursor` as a sample and returns it with the
/// offset behind the token.
pub fn read_sample(input: &[u8], cursor: usize, max_value: u32) -> (r: Result<
    (u8, usize),
    ParseError,
>)
    requires
        cursor <= input@.len(),
        1 <= max_value <= 65535,
    ensures
        match sample_outcome(token(input@, cursor as int), max_value) {
            Ok(v) => r == Ok::<(u8, usize), ParseError>(
                (v, token_end(input@, cursor as int) as usize),
            ),
            Err(kind) => r == Err::<(u8, usize), ParseError>(
                failure(kind, token_start(input@, cursor as int), input@.len() as int),
            ),
        },
        cursor <= token_start(input@, cursor as int) <= token_end(input@, cursor as int)
            <= input@.len(),
{
    let len = input.len();
    let start = take_whitespace(input, cursor);
    let end = take_while(input, start, ByteClass::NonWhitespace);
    if start == end {
        return Err(ParseError::new(ErrorKind::UnexpectedEndOfInput, start, len));
    }
    let token = slice_subrange(input, start, end);
    match read_decimal(token, max_value) {
        Number::Value(v) => Ok((scale_sample(v, max_value), end)),
        Number::TooLarge => Err(ParseError::new(ErrorKind::SampleOutOfRange, start, len)),
        Number::Malformed => {
            if token[0] == 0x2d {
                let digits = slice_subrange(token, 1, token.len());
                match read_decimal(digits, 0) {
                    Number::Malformed => Err(
                        ParseError::new(ErrorKind::InvalidDimension, start, len),
                    ),
                    _ => Err(ParseError::new(ErrorKind::SampleOutOfRange, start, len)),
                }
            } else {
                Err(ParseError::new(ErrorKind::InvalidDimension, start, len))
            }
        },
    }
}

/// Parses a body of `height` rows of `width` pixels, three decimal samples
/// to a pixel, each rescaled from `[0, max_value]` to `[0, 255]`, and returns
/// the grid with the input that follows the body.
pub fn parse_ppm_data_ascii(input: &[u8], width: u32, height: u32, max_value: u32) -> (r: Result<
    (&[u8], PPMData),
    ParseError,
>)
    requires
        1 <= max_value <= 65535,
    ensures
        grid_agrees(r, input@, ascii_outcome(input@, width, height, max_value)),
{
    let ghost s = input@;
    let ghost count = 3 * (width * height);
    let len = input.len();
    let mut data: PPMData = Vec::new();
    let mut cursor: usize = 0;
    let mut row_number: u32 = 0;
    while row_number < height
        invariant
            s == input@,
            len == s.len(),
            count == 3 * (width * height),
            1 <= max_value <= 65535,
            row_number <= height,
            cursor <= len,
            cursor == cursor_after(s, 3 * (row_number * width)),
            forall|j: int|
                0 <= j < 3 * (row_number * width) ==> (#[trigger] ascii_sample(
                    s,
                    j,
                    max_value,
                )) is Ok,
            data@.len() == row_number,
            forall|r: int| 0 <= r < row_number ==> (#[trigger] data@[r])@.len() == width,
            forall|r: int, c: int|
                0 <= r < row_number && 0 <= c < width ==> (#[trigger] data@[r]@[c]) == ascii_pixel(
                    s,
                    r * width + c,
                    max_value,
                ),
        decreases height - row_number,
    {
        let mut row: Vec<Color> = Vec::new();
        let mut column: u32 = 0;
        while column < width
            invariant
                s == input@,
                len == s.len(),
                count == 3 * (width * height),
                1 <= max_value <= 65535,
                row_number < height,
                column <= width,
                cursor <= len,
                cursor == cursor_after(s, 3 * (row_number * width + column)),
                forall|j: int|
                    0 <= j < 3 * (row_number * width + column) ==> (#[trigger] ascii_sample(
                        s,
                        j,
                        max_value,
                    )) is Ok,
                row@.len() == column,
                forall|c: int|
                    0 <= c < column ==> (#[trigger] row@[c]) == ascii_pixel(
                        s,
                        row_number * width + c,
                        max_value,
                    ),
            decreases width - column,
        {
            let ghost i = row_number * width + column;
            proof {
                lemma_pixel_number(width as int, height as int, row_number as int, column as int);
                assert(cursor_after(s, 3 * i + 1) == token_end(s, cursor_after(s, 3 * i)));
                assert(cursor_after(s, 3 * i + 2) == token_end(s, cursor_after(s, 3 * i + 1)));
                assert(cursor_after(s, 3 * i + 3) == token_end(s, cursor_after(s, 3 * i + 2)));
            }
            let red = match read_sample(input, cursor, max_value) {
                Ok((v, next)) => { cursor = next; v },
                Err(e) => {
                    proof {
                        lemma_first_failure(s, count, max_value, 3 * i);
                    }
                    return Err(e);
                },
            };
            let green = match read_sample(input, cursor, max_value) {
                Ok((v, next)) => { cursor = next; v },
                Err(e) => {
                    proof {
                        lemma_first_failure(s, count, max_value, 3 * i + 1);
                    }
                    return Err(e);
                },
            };
            let blue = match read_sample(input, cursor, max_value) {
                Ok((v, next)) => { cursor = next; v },
                Err(e) => {
                    proof {
                        lemma_first_failure(s, count, max_value, 3 * i + 2);
                    }
                    return Err(e);
                },
            };
            row.push(Color { red, green, blue });
            column = column + 1;
        }
        proof {
            lemma_pixel_number(width as int, height as int, row_number as int, 0);
        }
        data.push(row);
        row_number = row_number + 1;
    }
    proof {
        assert(row_number * width == width * height) by (nonlinear_arith)
            requires
                row_number == height,
        ;
        assert(grid_view(&data) =~~= grid_of(
            width as int,
            height as int,
            |i: int| ascii_pixel(s, i, max_value),
        ));
    }
    let end = take_whitespace(input, cursor);
    Ok((slice_subrange(input, end, len), data))
}

} // verus!
