//! The pixel body written as raw bytes.

use vstd::prelude::*;
use vstd::slice::slice_subrange;
use crate::color::Color;
use crate::error::{ErrorKind, Outcome, ParseError};
use crate::grid::{grid_agrees, grid_of, grid_view, lemma_pixel_number, PPMData};
use crate::sample::{scale_sample, scaled};

verus! {

/// Pixel number `i` of a body with one byte to a sample: bytes `3 * i`,
/// `3 * i + 1` and `3 * i + 2` as red, green and blue, unchanged.
pub open spec fn byte_pixel(s: Seq<u8>, i: int) -> Color {
    Color { red: s[3 * i], green: s[3 * i + 1], blue: s[3 * i + 2] }
}

/// Sample number `k` of a body with two bytes to a sample, most significant
/// byte first.
pub open spec fn wide_sample(s: Seq<u8>, k: int) -> int {
    s[2 * k] * 256 + s[2 * k + 1]
}

/// Pixel number `i` of a body with two bytes to a sample: samples `3 * i`,
/// `3 * i + 1` and `3 * i + 2`, rescaled, as red, green and blue.
pub open spec fn wide_pixel(s: Seq<u8>, i: int, max_value: u32) -> Color {
    Color {
        red: scaled(wide_sample(s, 3 * i), max_value as int) as u8,
        green: scaled(wide_sample(s, 3 * i + 1), max_value as int) as u8,
        blue: scaled(wide_sample(s, 3 * i + 2), max_value as int) as u8,
    }
}

/// Sample `k` is the first among the first `count` two-byte samples that
/// lies above `max_value`.
pub open spec fn is_first_excess(s: Seq<u8>, count: int, max_value: u32, k: int) -> bool {
    &&& 0 <= k < count
    &&& wide_sample(s, k) > max_value
    &&& forall|j: int| 0 <= j < k ==> #[trigger] wide_sample(s, j) <= max_value
}

/// Some sample among the first `count` lies above `max_value`.
pub open spec fn has_excess(s: Seq<u8>, count: int, max_value: u32) -> bool {
    exists|k: int| is_first_excess(s, count, max_value, k)
}

/// The number of the first such sample.
pub open spec fn first_excess(s: Seq<u8>, count: int, max_value: u32) -> int {
    choose|k: int| is_first_excess(s, count, max_value, k)
}

/// What `parse_ppm_data_bytes` makes of `s`.
///
/// The body holds `3 * width * height` samples. Up to a maximum intensity of
/// 255 a sample is one byte, taken as it is. Above that a sample is two
/// bytes, most significant first, rescaled to `[0, 255]`; the first one above
/// `max_value` decides the error, which is reported at its first byte. A
/// body that is too short for all its samples fails where the input ends,
/// whatever it holds.
pub open spec fn binary_outcome(s: Seq<u8>, width: u32, height: u32, max_value: u32) -> Outcome<
    Seq<Seq<Color>>,
> {
    let count = 3 * (width * height);
    if max_value <= 255 {
        if s.len() < count {
            Outcome::Fail(ErrorKind::UnexpectedEndOfInput, s.len() as int)
        } else {
            Outcome::Done(grid_of(width as int, height as int, |i: int| byte_pixel(s, i)), count)
        }
    } else {
        if s.len() < 2 * count {
            Outcome::Fail(ErrorKind::UnexpectedEndOfInput, s.len() as int)
        } else if has_excess(s, count, max_value) {
            Outcome::Fail(ErrorKind::SampleOutOfRange, 2 * first_excess(s, count, max_value))
        } else {
            Outcome::Done(
                grid_of(width as int, height as int, |i: int| wide_pixel(s, i, max_value)),
                2 * count,
            )
        }
    }
}

/// A sample above the limit with none in front of it is the first excess.
pub proof fn lemma_first_excess(s: Seq<u8>, count: int, max_value: u32, k: int)
    requires
        is_first_excess(s, count, max_value, k),
    ensures
        has_excess(s, count, max_value),
        first_excess(s, count, max_value) == k,
{
    let f = first_excess(s, count, max_value);
    assert(is_first_excess(s, count, max_value, f));
    if f < k {
        assert(wide_sample(s, f) <= max_value);
    }
    if k < f {
        assert(wide_sample(s, k) <= max_value);
    }
}

/// Whether `input` holds `per_sample` bytes for each of the
/// `3 * width * height` samples.
fn holds_body(input: &[u8], width: u32, height: u32, per_sample: u8) -> (b: bool)
    requires
        1 <= per_sample <= 2,
    ensures
        b == (per_sample * (3 * (width * height)) <= input@.len()),
{
    assert(width * height <= 0xffff_ffff * 0xffff_ffff) by (nonlinear_arith)
        requires
            width <= 0xffff_ffff,
            height <= 0xffff_ffff,
    ;
    let pixels: u128 = (width as u128) * (height as u128);
    let need: u128 = if per_sample == 1 {
        3 * pixels
    } else {
        6 * pixels
    };
    need <= input.len() as u128
}

/// Reads a body with one byte to a sample.
fn read_narrow_body(input: &[u8], width: u32, height: u32) -> (data: PPMData)
    requires
        3 * (width * height) <= input@.len(),
    ensures
        grid_view(&data) == grid_of(
            width as int,
            height as int,
            |i: int| byte_pixel(input@, i),
        ),
{
    let ghost s = input@;
    let mut data: PPMData = Vec::new();
    let mut at: usize = 0;
    let mut row_number: u32 = 0;
    while row_number < height
        invariant
            s == input@,
            3 * (width * height) <= s.len(),
            row_number <= height,
            at == 3 * (row_number * width),
            data@.len() == row_number,
            forall|r: int| 0 <= r < row_number ==> (#[trigger] data@[r])@.len() == width,
            forall|r: int, c: int|
                0 <= r < row_number && 0 <= c < width ==> (#[trigger] data@[r]@[c]) == byte_pixel(
                    s,
                    r * width + c,
                ),
        decreases height - row_number,
    {
        let mut row: Vec<Color> = Vec::new();
        let mut column: u32 = 0;
        while column < width
            invariant
                s == input@,
                3 * (width * height) <= s.len(),
                row_number < height,
                column <= width,
                at == 3 * (row_number * width + column),
                row@.len() == column,
                forall|c: int|
                    0 <= c < column ==> (#[trigger] row@[c]) == byte_pixel(
                        s,
                        row_number * width + c,
                    ),
            decreases width - column,
        {
            proof {
                lemma_pixel_number(width as int, height as int, row_number as int, column as int);
            }
            row.push(Color { red: input[at], green: input[at + 1], blue: input[at + 2] });
            at = at + 3;
            column = column + 1;
        }
        proof {
            lemma_pixel_number(width as int, height as int, row_number as int, 0);
        }
        data.push(row);
        row_number = row_number + 1;
    }
    proof {
        assert(grid_view(&data) =~~= grid_of(
            width as int,
            height as int,
            |i: int| byte_pixel(s, i),
        ));
    }
    data
}

/// Reads the two-byte sample at offset `at` and rescales it.
fn read_wide_sample(input: &[u8], at: usize, max_value: u32) -> (r: Option<u8>)
    requires
        at + 2 <= input@.len(),
        256 <= max_value <= 65535,
    ensures
        r == if input@[at as int] * 256 + input@[at + 1] <= max_value {
            Some(scaled(input@[at as int] * 256 + input@[at + 1], max_value as int) as u8)
        } else {
            None
        },
{
    let sample: u32 = (input[at] as u32) * 256 + (input[at + 1] as u32);
    if sample <= max_value {
        Some(scale_sample(sample, max_value))
    } else {
        None
    }
}

/// Reads a body with two bytes to a sample; on failure returns the offset of
/// the first sample above `max_value`.
fn read_wide_body(input: &[u8], width: u32, height: u32, max_value: u32) -> (r: Result<
    PPMData,
    usize,
>)
    requires
        2 * (3 * (width * height)) <= input@.len(),
        256 <= max_value <= 65535,
    ensures
        match r {
            Ok(data) => {
                &&& !has_excess(input@, 3 * (width * height), max_value)
                &&& grid_view(&data) == grid_of(
                    width as int,
                    height as int,
                    |i: int| wide_pixel(input@, i, max_value),
                )
            },
            Err(offset) => {
                &&& has_excess(input@, 3 * (width * height), max_value)
                &&& offset == 2 * first_excess(input@, 3 * (width * height), max_value)
                &&& offset <= input@.len()
            },
        },
{
    let ghost s = input@;
    let ghost count = 3 * (width * height);
    let len = input.len();
    let mut data: PPMData = Vec::new();
    let mut at: usize = 0;
    let mut row_number: u32 = 0;
    while row_number < height
        invariant
            s == input@,
            len == s.len(),
            count == 3 * (width * height),
            2 * count <= s.len(),
            256 <= max_value <= 65535,
            row_number <= height,
            at == 2 * (3 * (row_number * width)),
            forall|j: int|
                0 <= j < 3 * (row_number * width) ==> #[trigger] wide_sample(s, j) <= max_value,
            data@.len() == row_number,
            forall|r: int| 0 <= r < row_number ==> (#[trigger] data@[r])@.len() == width,
            forall|r: int, c: int|
                0 <= r < row_number && 0 <= c < width ==> (#[trigger] data@[r]@[c]) == wide_pixel(
                    s,
                    r * width + c,
                    max_value,
                ),
        decreases height - row_number,
    {
        let mut row: Vec<Color> = Vec::new();
        let mut column: u32 = 0;
        while column < width
            invariant
                s == input@,
                len == s.len(),
                count == 3 * (width * height),
                2 * count <= s.len(),
                256 <= max_value <= 65535,
                row_number < height,
                column <= width,
                at == 2 * (3 * (row_number * width + column)),
                forall|j: int|
                    0 <= j < 3 * (row_number * width + column) ==> #[trigger] wide_sample(s, j)
                        <= max_value,
                row@.len() == column,
                forall|c: int|
                    0 <= c < column ==> (#[trigger] row@[c]) == wide_pixel(
                        s,
                        row_number * width + c,
                        max_value,
                    ),
            decreases width - column,
        {
            let ghost i = row_number * width + column;
            proof {
                lemma_pixel_number(width as int, height as int, row_number as int, column as int);
            }
            assert(at + 6 <= len);
            let red = match read_wide_sample(input, at, max_value) {
                Some(v) => v,
                None => {
                    proof {
                        lemma_first_excess(s, count, max_value, 3 * i);
                    }
                    return Err(at);
                },
            };
            let green = match read_wide_sample(input, at + 2, max_value) {
                Some(v) => v,
                None => {
                    proof {
                        lemma_first_excess(s, count, max_value, 3 * i + 1);
                    }
                    return Err(at + 2);
                },
            };
            let blue = match read_wide_sample(input, at + 4, max_value) {
                Some(v) => v,
                None => {
                    proof {
                        lemma_first_excess(s, count, max_value, 3 * i + 2);
                    }
                    return Err(at + 4);
                },
            };
            row.push(Color { red, green, blue });
            at = at + 6;
            column = column + 1;
        }
        proof {
            lemma_pixel_number(width as int, height as int, row_number as int, 0);
        }
        data.push(row);
        row_number = row_number + 1;
    }
    proof {
        assert(row_number * width == width * height) by (nonlinear_arith)
            requires
                row_number == height,
        ;
        assert(grid_view(&data) =~~= grid_of(
            width as int,
            height as int,
            |i: int| wide_pixel(s, i, max_value),
        ));
    }
    Ok(data)
}

/// Parses a body of `height` rows of `width` pixels, three raw samples to a
/// pixel, and returns the grid with the input that follows the body.
pub fn parse_ppm_data_bytes(input: &[u8], width: u32, height: u32, max_value: u32) -> (r: Result<
    (&[u8], PPMData),
    ParseError,
>)
    requires
        1 <= max_value <= 65535,
    ensures
        grid_agrees(r, input@, binary_outcome(input@, width, height, max_value)),
{
    let len = input.len();
    if max_value <= 255 {
        if !holds_body(input, width, height, 1) {
            return Err(ParseError::new(ErrorKind::UnexpectedEndOfInput, len, len));
        }
        let data = read_narrow_body(input, width, height);
        assert(width * height <= 0xffff_ffff * 0xffff_ffff) by (nonlinear_arith)
            requires
                width <= 0xffff_ffff,
                height <= 0xffff_ffff,
        ;
        let end: u128 = 3 * ((width as u128) * (height as u128));
        Ok((slice_subrange(input, end as usize, len), data))
    } else {
        if !holds_body(input, width, height, 2) {
            return Err(ParseError::new(ErrorKind::UnexpectedEndOfInput, len, len));
        }
        match read_wide_body(input, width, height, max_value) {
            Ok(data) => {
                assert(width * height <= 0xffff_ffff * 0xffff_ffff) by (nonlinear_arith)
                    requires
                        width <= 0xffff_ffff,
                        height <= 0xffff_ffff,
                ;
                let end: u128 = 6 * ((width as u128) * (height as u128));
                Ok((slice_subrange(input, end as usize, len), data))
            },
            Err(offset) => Err(ParseError::new(ErrorKind::SampleOutOfRange, offset, len)),
        }
    }
}

} // verus!
