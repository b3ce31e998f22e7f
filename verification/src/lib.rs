//! A verified parser for the Portable Pixmap format and for `#RRGGBB`
//! colour literals.
//!
//! Every parser takes the bytes still to be read and returns the value it
//! found with the bytes that follow it, or a [`ParseError`] that names what
//! went wrong and where. What each one returns is fixed by a specification
//! function on the byte sequence alone.

pub mod ascii;
pub mod binary;
pub mod color;
pub mod error;
pub mod grid;
pub mod header;
pub mod header_text;
pub mod image;
pub mod number;
pub mod sample;
pub mod scan;

pub use crate::ascii::{parse_ppm_data_ascii, read_sample};
pub use crate::binary::parse_ppm_data_bytes;
pub use crate::color::{hex_primary, parse_hex_color, take_fixed_hex, Color};
pub use crate::error::{ErrorKind, ParseError};
pub use crate::grid::PPMData;
pub use crate::header::{parse_ppm_header, read_dimension, read_max_value, Header, PPMDataType};
pub use crate::image::{parse_ppm, PPM};
pub use crate::number::{from_hex, is_hex_digit, read_decimal, read_number, Number};
pub use crate::sample::scale_sample;
pub use crate::scan::{is_whitespace, take_alphanumeric, take_while, take_whitespace, ByteClass};
