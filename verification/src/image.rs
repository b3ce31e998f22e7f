//! The whole image: a header and the pixel grid that it announces.

use vstd::prelude::*;
use crate::ascii::{ascii_outcome, ascii_pixel, parse_ppm_data_ascii};
use crate::binary::{binary_outcome, byte_pixel, parse_ppm_data_bytes, wide_pixel};
use crate::color::Color;
use crate::error::{failure, ErrorKind, Outcome, ParseError};
use crate::grid::{grid_view, has_shape, lemma_grid_of_shape, PPMData};
use crate::header::{
    header_outcome, lemma_header_valid, parse_ppm_header, Header, PPMDataType,
};

verus! {

/// A parsed image.
#[derive(Debug, PartialEq, Clone)]
pub struct PPM {
    pub header: Header,
    pub data: PPMData,
}

impl PPM {
    /// The pixel rows, top row first.
    pub open spec fn grid(&self) -> Seq<Seq<Color>> {
        grid_view(&self.data)
    }

    /// The header is valid and the grid has its dimensions: `height` rows of
    /// `width` pixels each.
    pub open spec fn is_valid(&self) -> bool {
        &&& self.header.is_valid()
        &&& has_shape(self.grid(), self.header.width as int, self.header.height as int)
    }
}

/// What the body parser that `header` selects makes of `s`.
pub open spec fn body_outcome(s: Seq<u8>, header: Header) -> Outcome<Seq<Seq<Color>>> {
    match header.data_type {
        PPMDataType::ASCII => ascii_outcome(s, header.width, header.height, header.max_value),
        PPMDataType::BYTE => binary_outcome(s, header.width, header.height, header.max_value),
    }
}

/// An image in specifications: its header and its pixel rows.
pub type ImageView = (Header, Seq<Seq<Color>>);

/// What `parse_ppm` makes of `s`: the header, then the body that the header
/// announces, read from where the header ends. The first failure of either
/// stage is the failure of the whole, at its offset in `s`.
pub open spec fn ppm_outcome(s: Seq<u8>) -> Outcome<ImageView> {
    match header_outcome(s) {
        Outcome::Fail(kind, offset) => Outcome::Fail(kind, offset),
        Outcome::Done(header, body_start) => match body_outcome(
            s.subrange(body_start, s.len() as int),
            header,
        ) {
            Outcome::Fail(kind, offset) => Outcome::Fail(kind, body_start + offset),
            Outcome::Done(grid, body_len) => Outcome::Done((header, grid), body_start + body_len),
        },
    }
}

/// A failure of the header is the failure of the whole, unchanged.
pub proof fn lemma_header_failure(s: Seq<u8>, kind: ErrorKind, offset: int)
    requires
        header_outcome(s) == Outcome::<Header>::Fail(kind, offset),
    ensures
        ppm_outcome(s) == Outcome::<ImageView>::Fail(kind, offset),
{
}

/// A failure of the body is the failure of the whole, with its kind
/// unchanged and its offset counted from the start of the header.
pub proof fn lemma_body_failure(
    s: Seq<u8>,
    header: Header,
    body_start: int,
    kind: ErrorKind,
    offset: int,
)
    requires
        header_outcome(s) == Outcome::Done(header, body_start),
        body_outcome(s.subrange(body_start, s.len() as int), header) == Outcome::<
            Seq<Seq<Color>>,
        >::Fail(kind, offset),
    ensures
        ppm_outcome(s) == Outcome::<ImageView>::Fail(kind, body_start + offset),
{
}

/// Nothing at all is no image: the magic number is missing at offset 0.
pub proof fn lemma_empty_image()
    ensures
        ppm_outcome(Seq::empty()) == Outcome::<ImageView>::Fail(ErrorKind::ExpectedMagicNumber, 0),
{
}

/// Whatever parses has the shape that its header announces: `height` rows
/// of `width` pixels each, under a valid header.
pub proof fn lemma_parsed_shape(s: Seq<u8>)
    ensures
        ppm_outcome(s) matches Outcome::Done((header, grid), end) ==> {
            &&& header.is_valid()
            &&& has_shape(grid, header.width as int, header.height as int)
        },
{
    lemma_header_valid(s);
    if let Outcome::Done(header, body_start) = header_outcome(s) {
        let body = s.subrange(body_start, s.len() as int);
        let (w, h, m) = (header.width, header.height, header.max_value);
        lemma_grid_of_shape(w as int, h as int, |i: int| ascii_pixel(body, i, m));
        lemma_grid_of_shape(w as int, h as int, |i: int| byte_pixel(body, i));
        lemma_grid_of_shape(w as int, h as int, |i: int| wide_pixel(body, i, m));
    }
}

/// Parses an image at the start of `input` and returns it with the input
/// that follows the pixel body.
pub fn parse_ppm(input: &[u8]) -> (r: Result<(&[u8], PPM), ParseError>)
    ensures
        match ppm_outcome(input@) {
            Outcome::Done((header, grid), end) => {
                &&& r matches Ok((rest, image))
                &&& image.header == header
                &&& image.grid() == grid
                &&& 0 <= end <= input@.len()
                &&& rest@ == input@.subrange(end, input@.len() as int)
            },
            Outcome::Fail(kind, offset) => {
                &&& r matches Err(e)
                &&& 0 <= offset <= input@.len()
                &&& e == failure(kind, offset, input@.len() as int)
            },
        },
        r matches Ok((_, image)) ==> image.is_valid(),
{
    let (body, header) = match parse_ppm_header(input) {
        Ok(p) => p,
        Err(e) => { return Err(e); },
    };
    let body_start = input.len() - body.len();
    let parsed = match header.data_type {
        PPMDataType::ASCII => parse_ppm_data_ascii(
            body,
            header.width,
            header.height,
            header.max_value,
        ),
        PPMDataType::BYTE => parse_ppm_data_bytes(
            body,
            header.width,
            header.height,
            header.max_value,
        ),
    };
    proof {
        lemma_parsed_shape(input@);
    }
    match parsed {
        Ok((rest, data)) => {
            assert(rest@ =~= input@.subrange(
                input@.len() - rest@.len(),
                input@.len() as int,
            ));
            Ok((rest, PPM { header, data }))
        },
        Err(e) => Err(e.shifted(body_start)),
    }
}

} // verus!
