//! A colour shown in every encoding.

use vstd::prelude::*;
use crate::color::{Color, ColorBytes};
use crate::error::ColorError;
use crate::input::{color_from_sources, spec_color_from_sources};

verus! {

/// Whether `lines` shows `color` as Hex, RGB, HSL, HSV and CMYK, in that order.
pub open spec fn is_report(lines: Seq<String>, color: ColorBytes) -> bool {
    &&& lines.len() == 5
    &&& lines[0]@ == Color::Hex(color).text()
    &&& lines[1]@ == Color::RGB(color).text()
    &&& lines[2]@ == Color::HSL(color).text()
    &&& lines[3]@ == Color::HSV(color).text()
    &&& lines[4]@ == Color::CMYK(color).text()
}

/// The five labelled lines for a colour: Hex, RGB, HSL, HSV and CMYK.
pub fn report(color: ColorBytes) -> (lines: Vec<String>)
    ensures
        is_report(lines@, color),
{
    let mut lines: Vec<String> = Vec::new();
    lines.push(Color::Hex(color).render());
    lines.push(Color::RGB(color).render());
    lines.push(Color::HSL(color).render());
    lines.push(Color::HSV(color).render());
    lines.push(Color::CMYK(color).render());
    lines
}

/// Makes the colour from the sources given, takes its complement where
/// that is asked for, and shows it in every encoding: the result is the
/// colour shown and its five lines. Input that is refused gives its error.
pub fn convert(
    hex: Option<String>,
    rgb: Option<String>,
    cmyk: Option<String>,
    complement: bool,
) -> (out: Result<(ColorBytes, Vec<String>), ColorError>)
    ensures
        match spec_color_from_sources(hex, rgb, cmyk) {
            Ok(color) => out matches Ok(shown) && shown.0 == (if complement {
                color.spec_complement()
            } else {
                color
            }) && is_report(shown.1@, shown.0),
            Err(e) => out matches Err(f) && f == e,
        },
{
    match color_from_sources(hex, rgb, cmyk) {
        Ok(color) => {
            let shown: ColorBytes = if complement {
                color.complement()
            } else {
                color
            };
            Ok((shown, report(shown)))
        },
        Err(e) => Err(e),
    }
}

} // verus!
