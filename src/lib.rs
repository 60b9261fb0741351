//! Turns an RGB raster into text: the image is cut into blocks, each block is
//! averaged, and its luminance picks a character from a glyph ramp.

pub mod ascii;
pub mod cli;
pub mod convert;
pub mod font;
pub mod image;

pub use crate::convert::{image_to_ascii, AsciiOptions};
pub use crate::image::{AspectRatio, BlockSample, RgbImage};
