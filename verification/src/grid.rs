//! The pixel grid: rows of colours, top row first.

use vstd::prelude::*;
use crate::color::Color;
use crate::error::{failure, Outcome, ParseError};

verus! {

/// A grid of pixels, one vector per row.
pub type PPMData = Vec<Vec<Color>>;

/// The rows of a grid as sequences of colours.
pub open spec fn grid_view(data: &PPMData) -> Seq<Seq<Color>> {
    Seq::new(data@.len(), |r: int| data@[r]@)
}

/// The grid of `height` rows of `width` pixels each whose pixels, counted
/// row by row from the top left, are `pixel(0)`, `pixel(1)` and so on.
pub open spec fn grid_of(width: int, height: int, pixel: spec_fn(int) -> Color) -> Seq<Seq<Color>> {
    Seq::new(height as nat, |r: int| Seq::new(width as nat, |c: int| pixel(r * width + c)))
}

/// A grid has `height` rows of `width` pixels each.
pub open spec fn has_shape(grid: Seq<Seq<Color>>, width: int, height: int) -> bool {
    &&& grid.len() == height
    &&& forall|r: int| 0 <= r < grid.len() ==> (#[trigger] grid[r]).len() == width
}

/// A grid built row by row has the shape it was built with.
pub proof fn lemma_grid_of_shape(width: int, height: int, pixel: spec_fn(int) -> Color)
    requires
        0 <= width,
        0 <= height,
    ensures
        has_shape(grid_of(width, height, pixel), width, height),
{
}

/// A body parser's result is the one that `expected` describes.
pub open spec fn grid_agrees(
    r: Result<(&[u8], PPMData), ParseError>,
    input: Seq<u8>,
    expected: Outcome<Seq<Seq<Color>>>,
) -> bool {
    match expected {
        Outcome::Done(grid, end) => {
            &&& r matches Ok((rest, data))
            &&& grid_view(&data) == grid
            &&& 0 <= end <= input.len()
            &&& rest@ == input.subrange(end, input.len() as int)
        },
        Outcome::Fail(kind, offset) => {
            &&& r matches Err(e)
            &&& 0 <= offset <= input.len()
            &&& e == failure(kind, offset, input.len() as int)
        },
    }
}

/// The pixel in row `r` and column `c` of a row-major grid is pixel number
/// `r * width + c`, which is below `width * height`; the next row begins
/// `width` pixels after this one.
pub proof fn lemma_pixel_number(width: int, height: int, r: int, c: int)
    requires
        0 <= r < height,
        0 <= c <= width,
    ensures
        0 <= r * width + c <= width * height,
        c < width ==> r * width + c < width * height,
        (r + 1) * width == r * width + width,
{
    assert(0 <= r * width && r * width + width <= width * height && (r + 1) * width == r * width
        + width) by (nonlinear_arith)
        requires
            0 <= r < height,
            0 <= width,
    ;
}

} // verus!
