//! A colour as three bytes, and its other encodings.

use vstd::prelude::*;
use vstd::string::StringExecFns;
use crate::cmyk::{channel, channel_from_ink, ink, ink_percent, key, key_percent};
use crate::cylindrical::{
    hue, hue_degrees, largest, lightness, lightness_tenths, max3, saturation, saturation_tenths,
    value, value_tenths,
};
use crate::error::ColorError;
use crate::hexcode::{decode, decoded, encode_upper, encoded, is_hex_text};
use crate::text::{
    decimal, one_decimal, push_decimal, push_one_decimal, quad_text, triple_text,
};
use crate::tuples::{collect_quad, collect_triple};

verus! {

/// A colour: red, green and blue, one byte each.
#[derive(Clone, Copy, Debug, PartialEq, Eq, Structural)]
pub struct ColorBytes {
    pub r: u8,
    pub g: u8,
    pub b: u8,
}

impl ColorBytes {
    /// The colour with each channel turned into its distance from 255.
    pub open spec fn spec_complement(self) -> ColorBytes {
        ColorBytes { r: (255 - self.r) as u8, g: (255 - self.g) as u8, b: (255 - self.b) as u8 }
    }

    /// The colour that the percentages of cyan, magenta, yellow and black stand for.
    pub open spec fn spec_from_cmyk(c: u8, m: u8, y: u8, k: u8) -> ColorBytes {
        ColorBytes {
            r: channel_from_ink(c as int, k as int) as u8,
            g: channel_from_ink(m as int, k as int) as u8,
            b: channel_from_ink(y as int, k as int) as u8,
        }
    }

    /// The colour that a list of channels stands for: three are red, green
    /// and blue, four are percentages of cyan, magenta, yellow and black.
    pub open spec fn spec_from_vec(channels: Seq<u8>) -> Result<ColorBytes, ColorError> {
        if channels.len() == 3 {
            Ok(ColorBytes { r: channels[0], g: channels[1], b: channels[2] })
        } else if channels.len() == 4 {
            Ok(Self::spec_from_cmyk(channels[0], channels[1], channels[2], channels[3]))
        } else {
            Err(ColorError::InvalidLength)
        }
    }

    /// The colour that hexadecimal text stands for: six digits, two for each
    /// of red, green and blue.
    pub open spec fn spec_from_hex(text: Seq<char>) -> Result<ColorBytes, ColorError> {
        if is_hex_text(text) && text.len() == 6 {
            Ok(ColorBytes { r: decoded(text)[0], g: decoded(text)[1], b: decoded(text)[2] })
        } else {
            Err(ColorError::DecodeError)
        }
    }

    /// Six upper-case hexadecimal digits, two for each of red, green and blue.
    pub open spec fn spec_as_hex(self) -> Seq<char> {
        encoded(seq![self.r, self.g, self.b])
    }

    /// Hue in degrees, saturation and lightness in tenths of a percent.
    pub open spec fn spec_as_hsl(self) -> (u16, u16, u16) {
        (
            hue(self.r as int, self.g as int, self.b as int) as u16,
            saturation_tenths(self.r as int, self.g as int, self.b as int) as u16,
            lightness_tenths(self.r as int, self.g as int, self.b as int) as u16,
        )
    }

    /// Hue in degrees, saturation and value in tenths of a percent.
    pub open spec fn spec_as_hsv(self) -> (u16, u16, u16) {
        (
            hue(self.r as int, self.g as int, self.b as int) as u16,
            saturation_tenths(self.r as int, self.g as int, self.b as int) as u16,
            value_tenths(self.r as int, self.g as int, self.b as int) as u16,
        )
    }

    /// Percentages of cyan, magenta, yellow and black.
    pub open spec fn spec_as_cmyk(self) -> (u8, u8, u8, u8) {
        let hi = max3(self.r as int, self.g as int, self.b as int);
        (
            ink_percent(self.r as int, hi) as u8,
            ink_percent(self.g as int, hi) as u8,
            ink_percent(self.b as int, hi) as u8,
            key_percent(hi) as u8,
        )
    }

    fn new(r: u8, g: u8, b: u8) -> (out: ColorBytes)
        ensures
            out == (ColorBytes { r, g, b }),
    {
        ColorBytes { r: r, g: g, b: b }
    }

    /// The complement: each channel turned into its distance from 255.
    #[verifier::when_used_as_spec(spec_complement)]
    pub fn complement(self) -> (out: ColorBytes)
        ensures
            out == self.spec_complement(),
            out.r == 255 - self.r,
            out.g == 255 - self.g,
            out.b == 255 - self.b,
    {
        ColorBytes { r: u8::MAX - self.r, g: u8::MAX - self.g, b: u8::MAX - self.b }
    }

    /// The colour with the given red, green and blue.
    pub fn from_tuple(rgb_tuple: (u8, u8, u8)) -> (out: ColorBytes)
        ensures
            out == (ColorBytes { r: rgb_tuple.0, g: rgb_tuple.1, b: rgb_tuple.2 }),
    {
        ColorBytes::new(rgb_tuple.0, rgb_tuple.1, rgb_tuple.2)
    }

    /// The colour that a list of channels stands for: three are red, green
    /// and blue, four are percentages of cyan, magenta, yellow and black.
    /// A list of any other length is refused with `InvalidLength`.
    pub fn from_vec(vec: Vec<u8>) -> (out: Result<ColorBytes, ColorError>)
        ensures
            out == Self::spec_from_vec(vec@),
    {
        match vec.len() {
            3 => match collect_triple(vec) {
                Some(rgb) => Ok(ColorBytes::from_tuple(rgb)),
                None => Err(ColorError::InvalidLength),
            },
            4 => match collect_quad(vec) {
                Some(tuple) => Ok(ColorBytes::from_cmyk(tuple.0, tuple.1, tuple.2, tuple.3)),
                None => Err(ColorError::InvalidLength),
            },
            _ => Err(ColorError::InvalidLength),
        }
    }

    /// The colour that six hexadecimal digits of either case stand for.
    /// Text of odd length, with a character that is no hexadecimal digit, or
    /// for another number of bytes than three is refused with `DecodeError`.
    pub fn from_hex(hex_string: String) -> (out: Result<ColorBytes, ColorError>)
        ensures
            out == Self::spec_from_hex(hex_string@),
    {
        match decode(hex_string.as_str()) {
            Ok(bytes) => match collect_triple(bytes) {
                Some(rgb) => Ok(ColorBytes::from_tuple(rgb)),
                None => Err(ColorError::DecodeError),
            },
            Err(_) => Err(ColorError::DecodeError),
        }
    }

    /// The colour with the given red, green and blue.
    pub fn from_rgb(r: u8, g: u8, b: u8) -> (out: ColorBytes)
        ensures
            out == (ColorBytes { r, g, b }),
    {
        ColorBytes::new(r, g, b)
    }

    /// The colour that percentages of cyan, magenta, yellow and black stand
    /// for. A channel is `255 * (1 - ink / 100) * (1 - k / 100)`, rounded to
    /// the nearest integer and held within a byte.
    #[verifier::when_used_as_spec(spec_from_cmyk)]
    pub fn from_cmyk(c: u8, m: u8, y: u8, k: u8) -> (out: ColorBytes)
        ensures
            out == Self::spec_from_cmyk(c, m, y, k),
    {
        let r: u8 = channel(c, k);
        let g: u8 = channel(m, k);
        let b: u8 = channel(y, k);
        ColorBytes::new(r, g, b)
    }

    /// Red, green and blue.
    pub fn as_rgb(self) -> (out: (u8, u8, u8))
        ensures
            out == (self.r, self.g, self.b),
    {
        (self.r, self.g, self.b)
    }

    /// Six upper-case hexadecimal digits, two for each of red, green and blue.
    pub fn as_hex(self) -> (out: String)
        ensures
            out@ == self.spec_as_hex(),
    {
        let bytes: Vec<u8> = vec![self.r, self.g, self.b];
        assert(bytes@ =~= seq![self.r, self.g, self.b]);
        encode_upper(&bytes)
    }

    /// Hue in whole degrees below 360, then saturation and lightness in
    /// tenths of a percent, each at most 1000.
    #[verifier::when_used_as_spec(spec_as_hsl)]
    pub fn as_hsl(self) -> (out: (u16, u16, u16))
        ensures
            out == self.spec_as_hsl(),
            out.0 == hue(self.r as int, self.g as int, self.b as int),
            out.1 == saturation_tenths(self.r as int, self.g as int, self.b as int),
            out.2 == lightness_tenths(self.r as int, self.g as int, self.b as int),
            out.0 < 360,
            out.1 <= 1000,
            out.2 <= 1000,
    {
        (
            hue_degrees(self.r, self.g, self.b),
            saturation(self.r, self.g, self.b),
            lightness(self.r, self.g, self.b),
        )
    }

    /// Hue in whole degrees below 360, then saturation and value in tenths
    /// of a percent, each at most 1000. Hue and saturation are those of
    /// [`ColorBytes::as_hsl`].
    #[verifier::when_used_as_spec(spec_as_hsv)]
    pub fn as_hsv(self) -> (out: (u16, u16, u16))
        ensures
            out == self.spec_as_hsv(),
            out.0 == hue(self.r as int, self.g as int, self.b as int),
            out.1 == saturation_tenths(self.r as int, self.g as int, self.b as int),
            out.2 == value_tenths(self.r as int, self.g as int, self.b as int),
            out.0 < 360,
            out.1 <= 1000,
            out.2 <= 1000,
    {
        (
            hue_degrees(self.r, self.g, self.b),
            saturation(self.r, self.g, self.b),
            value(self.r, self.g, self.b),
        )
    }

    /// Percentages of cyan, magenta, yellow and black, each rounded on its
    /// own to a whole number at most 100. Black has no coloured ink.
    #[verifier::when_used_as_spec(spec_as_cmyk)]
    pub fn as_cmyk(self) -> (out: (u8, u8, u8, u8))
        ensures
            out == self.spec_as_cmyk(),
            out.0 == ink_percent(self.r as int, max3(self.r as int, self.g as int, self.b as int)),
            out.1 == ink_percent(self.g as int, max3(self.r as int, self.g as int, self.b as int)),
            out.2 == ink_percent(self.b as int, max3(self.r as int, self.g as int, self.b as int)),
            out.3 == key_percent(max3(self.r as int, self.g as int, self.b as int)),
            out.0 <= 100,
            out.1 <= 100,
            out.2 <= 100,
            out.3 <= 100,
    {
        let hi: u8 = largest(self.r, self.g, self.b);
        (ink(self.r, hi), ink(self.g, hi), ink(self.b, hi), key(hi))
    }
}

/// A colour together with the encoding in which it is to be shown.
#[derive(Clone, Copy, Debug)]
pub enum Color {
    Hex(ColorBytes),
    RGB(ColorBytes),
    HSL(ColorBytes),
    HSV(ColorBytes),
    CMYK(ColorBytes),
}

impl Color {
    /// The labelled line that shows the colour in its encoding.
    pub open spec fn text(self) -> Seq<char> {
        match self {
            Color::Hex(cb) => "Hex: 0x"@ + cb.spec_as_hex(),
            Color::RGB(cb) => "RGB: "@ + triple_text(
                decimal(cb.r as nat),
                decimal(cb.g as nat),
                decimal(cb.b as nat),
            ),
            Color::HSL(cb) => "HSL: "@ + triple_text(
                decimal(cb.spec_as_hsl().0 as nat),
                one_decimal(cb.spec_as_hsl().1 as nat),
                one_decimal(cb.spec_as_hsl().2 as nat),
            ),
            Color::HSV(cb) => "HSV: "@ + triple_text(
                decimal(cb.spec_as_hsv().0 as nat),
                one_decimal(cb.spec_as_hsv().1 as nat),
                one_decimal(cb.spec_as_hsv().2 as nat),
            ),
            Color::CMYK(cb) => "CMYK: "@ + quad_text(
                decimal(cb.spec_as_cmyk().0 as nat),
                decimal(cb.spec_as_cmyk().1 as nat),
                decimal(cb.spec_as_cmyk().2 as nat),
                decimal(cb.spec_as_cmyk().3 as nat),
            ),
        }
    }

    /// The labelled line that shows the colour in its encoding:
    /// `Hex: 0x228B22`, `RGB: (34, 139, 34)`, `HSL: (120, 60.7, 33.9)`,
    /// `HSV: (120, 60.7, 54.5)`, `CMYK: (76, 0, 76, 45)`.
    pub fn render(&self) -> (line: String)
        ensures
            line@ == self.text(),
    {
        match self {
            Color::Hex(cb) => {
                let mut line: String = String::from_str("Hex: 0x");
                let digits: String = cb.as_hex();
                line.append(digits.as_str());
                line
            },
            Color::RGB(cb) => {
                let mut line: String = String::from_str("RGB: ");
                line.append("(");
                push_decimal(&mut line, cb.r as u32);
                line.append(", ");
                push_decimal(&mut line, cb.g as u32);
                line.append(", ");
                push_decimal(&mut line, cb.b as u32);
                line.append(")");
                assert(line@ =~= self.text());
                line
            },
            Color::HSL(cb) => {
                let hsl: (u16, u16, u16) = cb.as_hsl();
                let mut line: String = String::from_str("HSL: ");
                line.append("(");
                push_decimal(&mut line, hsl.0 as u32);
                line.append(", ");
                push_one_decimal(&mut line, hsl.1 as u32);
                line.append(", ");
                push_one_decimal(&mut line, hsl.2 as u32);
                line.append(")");
                assert(line@ =~= self.text());
                line
            },
            Color::HSV(cb) => {
                let hsv: (u16, u16, u16) = cb.as_hsv();
                let mut line: String = String::from_str("HSV: ");
                line.append("(");
                push_decimal(&mut line, hsv.0 as u32);
                line.append(", ");
                push_one_decimal(&mut line, hsv.1 as u32);
                line.append(", ");
                push_one_decimal(&mut line, hsv.2 as u32);
                line.append(")");
                assert(line@ =~= self.text());
                line
            },
            Color::CMYK(cb) => {
                let cmyk: (u8, u8, u8, u8) = cb.as_cmyk();
                let mut line: String = String::from_str("CMYK: ");
                line.append("(");
                push_decimal(&mut line, cmyk.0 as u32);
                line.append(", ");
                push_decimal(&mut line, cmyk.1 as u32);
                line.append(", ");
                push_decimal(&mut line, cmyk.2 as u32);
                line.append(", ");
                push_decimal(&mut line, cmyk.3 as u32);
                line.append(")");
                assert(line@ =~= self.text());
                line
            },
        }
    }
}

} // verus!
