//! Conversions between the Hex, RGB, HSL, HSV and CMYK encodings of a colour.
//!
//! A colour is stored as three 8-bit channels ([`ColorBytes`]); every other
//! encoding is computed from them on demand. All arithmetic is exact integer
//! arithmetic: a percentage with one decimal place is carried as a whole
//! number of tenths of a percent.

pub mod rounding;
pub mod cylindrical;
pub mod cmyk;
pub mod hexcode;
pub mod tuples;
pub mod error;
pub mod text;
pub mod color;
pub mod input;
pub mod report;
pub mod laws;

pub use crate::color::{Color, ColorBytes};
pub use crate::error::ColorError;
