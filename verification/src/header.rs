//! The image header: magic number, dimensions and maximum intensity.

use vstd::prelude::*;
use vstd::slice::slice_subrange;
use crate::error::{agrees, ErrorKind, Outcome, ParseError};
use crate::number::{number_outcome, read_decimal, Number};
use crate::scan::{is_digit, run_end, take_alphanumeric, take_whitespace, ByteClass};

verus! {

/// How the samples of the pixel body are written.
#[derive(Debug, PartialEq, Eq, Clone, Copy, Structural)]
pub enum PPMDataType {
    /// Decimal numbers separated by whitespace.
    ASCII,
    /// Raw bytes.
    BYTE,
}

/// The metadata in front of the pixel body.
#[derive(Debug, PartialEq, Eq, Clone, Copy, Structural)]
pub struct Header {
    pub data_type: PPMDataType,
    pub width: u32,
    pub height: u32,
    pub max_value: u32,
}

impl Header {
    /// Both dimensions are positive and the maximum intensity lies between 1
    /// and 65535.
    pub open spec fn is_valid(&self) -> bool {
        &&& self.width > 0
        &&& self.height > 0
        &&& 1 <= self.max_value <= 65535
    }
}

/// The width or height that a field writes: a decimal number that fits in 32
/// bits and is not zero.
pub open spec fn dimension_outcome(field: Seq<u8>) -> Result<u32, ErrorKind> {
    match number_outcome(field, 10, u32::MAX) {
        Number::Malformed => Err(ErrorKind::InvalidDimension),
        Number::TooLarge => Err(ErrorKind::InvalidDimension),
        Number::Value(v) => if v == 0 {
            Err(ErrorKind::ZeroDimension)
        } else {
            Ok(v)
        },
    }
}

/// The maximum intensity that a field writes: a decimal number between 1 and
/// 65535.
pub open spec fn max_value_outcome(field: Seq<u8>) -> Result<u32, ErrorKind> {
    match number_outcome(field, 10, 65535) {
        Number::Malformed => Err(ErrorKind::InvalidDimension),
        Number::TooLarge => Err(ErrorKind::InvalidMaxValue),
        Number::Value(v) => if v == 0 {
            Err(ErrorKind::InvalidMaxValue)
        } else {
            Ok(v)
        },
    }
}

/// Reads a width or a height.
pub fn read_dimension(field: &[u8]) -> (r: Result<u32, ErrorKind>)
    ensures
        r == dimension_outcome(field@),
{
    match read_decimal(field, u32::MAX) {
        Number::Malformed => Err(ErrorKind::InvalidDimension),
        Number::TooLarge => Err(ErrorKind::InvalidDimension),
        Number::Value(v) => if v == 0 {
            Err(ErrorKind::ZeroDimension)
        } else {
            Ok(v)
        },
    }
}

/// Reads a maximum intensity.
pub fn read_max_value(field: &[u8]) -> (r: Result<u32, ErrorKind>)
    ensures
        r == max_value_outcome(field@),
{
    match read_decimal(field, 65535) {
        Number::Malformed => Err(ErrorKind::InvalidDimension),
        Number::TooLarge => Err(ErrorKind::InvalidMaxValue),
        Number::Value(v) => if v == 0 {
            Err(ErrorKind::InvalidMaxValue)
        } else {
            Ok(v)
        },
    }
}

/// Where the numeric field that follows offset `after` begins: behind the
/// whitespace that starts at `after`.
pub open spec fn field_start(s: Seq<u8>, after: int) -> int {
    run_end(s, after, ByteClass::Whitespace)
}

/// Where that field ends: behind the letters and digits that start it.
pub open spec fn field_end(s: Seq<u8>, after: int) -> int {
    run_end(s, field_start(s, after), ByteClass::Alphanumeric)
}

/// The bytes of that field.
pub open spec fn field(s: Seq<u8>, after: int) -> Seq<u8> {
    s.subrange(field_start(s, after), field_end(s, after))
}

/// The payload encoding that a type digit selects.
pub open spec fn data_type_of(digit: u8) -> PPMDataType {
    if digit == 0x33 {
        PPMDataType::ASCII
    } else {
        PPMDataType::BYTE
    }
}

/// What `parse_ppm_header` makes of `s`.
///
/// The header is `P`, a type digit (`3` or `6`), then width, height and
/// maximum intensity, each a run of letters and digits behind a run of
/// whitespace, and a final run of whitespace. The first field that is wrong
/// decides the error, which is reported at the start of that field.
pub open spec fn header_outcome(s: Seq<u8>) -> Outcome<Header> {
    if s.len() == 0 || s[0] != 0x50 {
        Outcome::Fail(ErrorKind::ExpectedMagicNumber, 0)
    } else if s.len() < 2 || !is_digit(s[1]) {
        Outcome::Fail(ErrorKind::ExpectedMagicNumber, 1)
    } else if s[1] != 0x33 && s[1] != 0x36 {
        Outcome::Fail(ErrorKind::UnsupportedFormat, 1)
    } else {
        let width_end = field_end(s, 2);
        let height_end = field_end(s, width_end);
        let max_end = field_end(s, height_end);
        match dimension_outcome(field(s, 2)) {
            Err(kind) => Outcome::Fail(kind, field_start(s, 2)),
            Ok(width) => match dimension_outcome(field(s, width_end)) {
                Err(kind) => Outcome::Fail(kind, field_start(s, width_end)),
                Ok(height) => match max_value_outcome(field(s, height_end)) {
                    Err(kind) => Outcome::Fail(kind, field_start(s, height_end)),
                    Ok(max_value) => Outcome::Done(
                        Header { data_type: data_type_of(s[1]), width, height, max_value },
                        run_end(s, max_end, ByteClass::Whitespace),
                    ),
                },
            },
        }
    }
}

/// Parses the header at the start of `input` and returns it with the input
/// that follows, which begins at the first byte of the pixel body.
pub fn parse_ppm_header(input: &[u8]) -> (r: Result<(&[u8], Header), ParseError>)
    ensures
        agrees(r, input@, header_outcome(input@)),
        r matches Ok((_, header)) ==> header.is_valid(),
{
    let len = input.len();
    if len == 0 || input[0] != 0x50 {
        return Err(ParseError::new(ErrorKind::ExpectedMagicNumber, 0, len));
    }
    if len < 2 || !(0x30 <= input[1] && input[1] <= 0x39) {
        return Err(ParseError::new(ErrorKind::ExpectedMagicNumber, 1, len));
    }
    let data_type = if input[1] == 0x33 {
        PPMDataType::ASCII
    } else if input[1] == 0x36 {
        PPMDataType::BYTE
    } else {
        return Err(ParseError::new(ErrorKind::UnsupportedFormat, 1, len));
    };
    let width_start = take_whitespace(input, 2);
    let width_end = take_alphanumeric(input, width_start);
    let width = match read_dimension(slice_subrange(input, width_start, width_end)) {
        Ok(v) => v,
        Err(kind) => { return Err(ParseError::new(kind, width_start, len)); },
    };
    let height_start = take_whitespace(input, width_end);
    let height_end = take_alphanumeric(input, height_start);
    let height = match read_dimension(slice_subrange(input, height_start, height_end)) {
        Ok(v) => v,
        Err(kind) => { return Err(ParseError::new(kind, height_start, len)); },
    };
    let max_start = take_whitespace(input, height_end);
    let max_end = take_alphanumeric(input, max_start);
    let max_value = match read_max_value(slice_subrange(input, max_start, max_end)) {
        Ok(v) => v,
        Err(kind) => { return Err(ParseError::new(kind, max_start, len)); },
    };
    let end = take_whitespace(input, max_end);
    Ok((slice_subrange(input, end, len), Header { data_type, width, height, max_value }))
}

/// Only valid headers are parsed: both dimensions are positive and the
/// maximum intensity lies between 1 and 65535.
pub proof fn lemma_header_valid(s: Seq<u8>)
    ensures
        header_outcome(s) matches Outcome::Done(header, end) ==> header.is_valid(),
{
}

} // verus!
