//! Outcome failures and the specification-level outcome of a parser.

use vstd::prelude::*;

verus! {

/// Why a parser stopped.
#[derive(Debug, Clone, Copy, PartialEq, Eq, Structural)]
pub enum ErrorKind {
    /// The input does not begin with `P` followed by a decimal digit.
    ExpectedMagicNumber,
    /// The type digit of the magic number is neither `3` nor `6`.
    UnsupportedFormat,
    /// A colour literal does not begin with `#`.
    ExpectedHashPrefix,
    /// A numeric field or sample token is empty or is not an unsigned decimal
    /// number, or a width or height does not fit in 32 bits.
    InvalidDimension,
    /// A width or height of zero.
    ZeroDimension,
    /// A maximum intensity of zero or above 65535.
    InvalidMaxValue,
    /// Fewer hexadecimal digits than required at the current position.
    MalformedHex,
    /// A sample above the maximum intensity, or a negative one.
    SampleOutOfRange,
    /// The input ended before the pixel body was complete.
    UnexpectedEndOfInput,
}

/// A failure together with the place where it was detected.
///
/// `offset` counts bytes from the start of the buffer handed to the parser
/// that reports the error; `remaining` is the number of bytes from `offset`
/// to the end of that buffer, so `offset + remaining` is its length.
#[derive(Debug, Clone, Copy, PartialEq, Eq, Structural)]
pub struct ParseError {
    pub kind: ErrorKind,
    pub offset: usize,
    pub remaining: usize,
}

/// The error of kind `kind` detected at `offset` in a buffer of `len` bytes.
pub open spec fn failure(kind: ErrorKind, offset: int, len: int) -> ParseError {
    ParseError { kind, offset: offset as usize, remaining: (len - offset) as usize }
}

/// What a parser makes of a byte sequence: either a value and the offset of
/// the first unconsumed byte, or an error kind and the offset of the failure.
pub enum Outcome<T> {
    Done(T, int),
    Fail(ErrorKind, int),
}

/// A parser's result is the one that `expected` describes: on success the
/// same value and the input from the end offset on, on failure the error of
/// that kind at that offset.
pub open spec fn agrees<T>(
    r: Result<(&[u8], T), ParseError>,
    input: Seq<u8>,
    expected: Outcome<T>,
) -> bool {
    match expected {
        Outcome::Done(v, end) => {
            &&& r matches Ok((rest, value))
            &&& value == v
            &&& 0 <= end <= input.len()
            &&& rest@ == input.subrange(end, input.len() as int)
        },
        Outcome::Fail(kind, offset) => {
            &&& r matches Err(e)
            &&& 0 <= offset <= input.len()
            &&& e == failure(kind, offset, input.len() as int)
        },
    }
}

impl ParseError {
    /// Builds the error of kind `kind` at `offset` in a buffer of `len` bytes.
    pub(crate) fn new(kind: ErrorKind, offset: usize, len: usize) -> (e: ParseError)
        requires
            offset <= len,
        ensures
            e == failure(kind, offset as int, len as int),
    {
        ParseError { kind, offset, remaining: len - offset }
    }

    /// The same failure seen from a buffer that has `by` more bytes in front.
    pub(crate) fn shifted(self, by: usize) -> (e: ParseError)
        requires
            by + self.offset <= usize::MAX,
        ensures
            e == (ParseError {
                kind: self.kind,
                offset: (by + self.offset) as usize,
                remaining: self.remaining,
            }),
    {
        ParseError { kind: self.kind, offset: by + self.offset, remaining: self.remaining }
    }
}

} // verus!
