//! Per-pixel color filters over a plain-text RGB raster.
//!
//! - `text`: characters, lines, whitespace tokens and `u32` parsing.
//! - `pixel`: the pixel type, the four filters and the text of a pixel line.
//! - `picture`: the parsed image, its decoding, encoding and per-filter output.
//! - `laws`: properties of the filters and of the text format, proved.
use vstd::prelude::*;

pub mod laws;
pub mod picture;
pub mod pixel;
pub mod text;

verus! {

} // verus!
