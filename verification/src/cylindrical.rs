//! Hue, saturation, lightness and value of an RGB triple.
//!
//! With `hi` and `lo` the largest and smallest channel and `spread = hi - lo`,
//! the usual formulas on channels scaled to the unit interval reduce to
//! quotients of small integers:
//!
//! * lightness `(hi + lo) / 510`,
//! * value `hi / 255`,
//! * saturation `spread / (255 - |hi + lo - 255|)`, which is `spread` over
//!   `hi + lo` or over `510 - (hi + lo)`, whichever is the smaller; 0 for a grey,
//! * hue: 60 degrees times `(g - b) / spread`, `(b - r) / spread + 2` or
//!   `(r - g) / spread + 4`, whichever channel is the largest, taken into one
//!   turn of the colour wheel; 0 for a grey.
//!
//! Percentages are carried in tenths of a percent, rounded to the nearest
//! tenth; the hue is cut down to whole degrees.

use vstd::prelude::*;
use crate::rounding::{
    lemma_round_div_bounds, lemma_round_div_exact, lemma_round_div_monotonic, round_div,
    rounded_quotient,
};

verus! {

/// The largest of three channels.
pub open spec fn max3(r: int, g: int, b: int) -> int {
    if r >= g && r >= b {
        r
    } else if g >= b {
        g
    } else {
        b
    }
}

/// The smallest of three channels.
pub open spec fn min3(r: int, g: int, b: int) -> int {
    if r <= g && r <= b {
        r
    } else if g <= b {
        g
    } else {
        b
    }
}

/// Hue in whole degrees, in `[0, 360)`.
///
/// The exact hue is cut down to the degree below it. Where two channels tie
/// for the largest, red is preferred to green and green to blue.
pub open spec fn hue(r: int, g: int, b: int) -> int {
    let hi = max3(r, g, b);
    let spread = hi - min3(r, g, b);
    if spread == 0 {
        0
    } else if hi == r {
        ((60 * (g - b)) / spread) % 360
    } else if hi == g {
        (60 * (b - r)) / spread + 120
    } else {
        (60 * (r - g)) / spread + 240
    }
}

/// Saturation in tenths of a percent.
pub open spec fn saturation_tenths(r: int, g: int, b: int) -> int {
    let hi = max3(r, g, b);
    let lo = min3(r, g, b);
    if hi == lo {
        0
    } else if hi + lo <= 255 {
        round_div(1000 * (hi - lo), hi + lo)
    } else {
        round_div(1000 * (hi - lo), 510 - (hi + lo))
    }
}

/// Lightness in tenths of a percent.
pub open spec fn lightness_tenths(r: int, g: int, b: int) -> int {
    round_div(1000 * (max3(r, g, b) + min3(r, g, b)), 510)
}

/// Value (brightness of the largest channel) in tenths of a percent.
pub open spec fn value_tenths(r: int, g: int, b: int) -> int {
    round_div(1000 * max3(r, g, b), 255)
}

/// Dividing the negation of a positive number rounds away from zero.
proof fn lemma_div_of_negative(n: int, d: int)
    requires
        n > 0,
        d > 0,
    ensures
        (-n) / d == -((n + d - 1) / d),
{
    let up = (n + d - 1) / d;
    assert(d * up <= n + d - 1 < d * up + d) by (nonlinear_arith)
        requires
            d > 0,
            up == (n + d - 1) / d,
    ;
    let q = (-n) / d;
    assert(d * q <= -n < d * q + d) by (nonlinear_arith)
        requires
            d > 0,
            q == (-n) / d,
    ;
    assert(q == -up) by (nonlinear_arith)
        requires
            d > 0,
            d * up <= n + d - 1 < d * up + d,
            d * q <= -n < d * q + d,
    ;
}

/// The hue is a whole number of degrees within one turn.
pub proof fn lemma_hue_in_range(r: int, g: int, b: int)
    requires
        0 <= r <= 255,
        0 <= g <= 255,
        0 <= b <= 255,
    ensures
        0 <= hue(r, g, b) < 360,
{
    let hi = max3(r, g, b);
    let spread = hi - min3(r, g, b);
    if spread != 0 {
        if hi == r {
        } else if hi == g {
            lemma_offset_in_range(b - r, spread);
        } else {
            lemma_offset_in_range(r - g, spread);
        }
    }
}

/// Sixty times a ratio between -1 and 1 stays between -60 and 60.
proof fn lemma_offset_in_range(diff: int, spread: int)
    requires
        spread > 0,
        -spread <= diff <= spread,
    ensures
        -60 <= (60 * diff) / spread <= 60,
        diff >= 0 ==> (60 * diff) / spread >= 0,
        diff < spread ==> (60 * diff) / spread < 60,
{
    let q = (60 * diff) / spread;
    assert(-60 <= q <= 60 && (diff >= 0 ==> q >= 0) && (diff < spread ==> q < 60))
        by (nonlinear_arith)
        requires
            spread > 0,
            -spread <= diff <= spread,
            q == (60 * diff) / spread,
    ;
}

/// Saturation, lightness and value are percentages.
pub proof fn lemma_percentages_in_range(r: int, g: int, b: int)
    requires
        0 <= r <= 255,
        0 <= g <= 255,
        0 <= b <= 255,
    ensures
        0 <= saturation_tenths(r, g, b) <= 1000,
        0 <= lightness_tenths(r, g, b) <= 1000,
        0 <= value_tenths(r, g, b) <= 1000,
{
    let hi = max3(r, g, b);
    let lo = min3(r, g, b);
    if hi != lo {
        let den = if hi + lo <= 255 {
            hi + lo
        } else {
            510 - (hi + lo)
        };
        lemma_round_div_bounds(1000 * (hi - lo), den);
        lemma_round_div_monotonic(1000 * (hi - lo), 1000 * den, den);
        lemma_round_div_exact(1000, den);
    }
}

/// `floor(60 * (a - b) / spread)`, for channels no further apart than `spread`.
fn sextant_offset(a: u8, b: u8, spread: u8) -> (q: i16)
    requires
        spread > 0,
        -(spread as int) <= a - b <= spread as int,
    ensures
        q == (60 * (a - b)) / (spread as int),
        -60 <= q <= 60,
{
    proof {
        lemma_offset_in_range(a - b, spread as int);
    }
    if a >= b {
        let q: u32 = 60 * ((a - b) as u32) / (spread as u32);
        q as i16
    } else {
        let n: u32 = 60 * ((b - a) as u32);
        let up: u32 = (n + spread as u32 - 1) / (spread as u32);
        proof {
            lemma_div_of_negative(n as int, spread as int);
        }
        -(up as i16)
    }
}

/// The largest of three channels.
pub fn largest(r: u8, g: u8, b: u8) -> (hi: u8)
    ensures
        hi == max3(r as int, g as int, b as int),
{
    if r >= g && r >= b {
        r
    } else if g >= b {
        g
    } else {
        b
    }
}

/// The smallest of three channels.
pub fn smallest(r: u8, g: u8, b: u8) -> (lo: u8)
    ensures
        lo == min3(r as int, g as int, b as int),
{
    if r <= g && r <= b {
        r
    } else if g <= b {
        g
    } else {
        b
    }
}

/// Hue of an RGB triple in whole degrees.
pub fn hue_degrees(r: u8, g: u8, b: u8) -> (h: u16)
    ensures
        h == hue(r as int, g as int, b as int),
        h < 360,
{
    proof {
        lemma_hue_in_range(r as int, g as int, b as int);
    }
    let hi: u8 = largest(r, g, b);
    let lo: u8 = smallest(r, g, b);
    if hi == lo {
        return 0;
    }
    let spread: u8 = hi - lo;
    if hi == r {
        let q: i16 = sextant_offset(g, b, spread);
        if q >= 0 {
            q as u16
        } else {
            (q + 360) as u16
        }
    } else if hi == g {
        (sextant_offset(b, r, spread) + 120) as u16
    } else {
        (sextant_offset(r, g, spread) + 240) as u16
    }
}

/// Saturation of an RGB triple in tenths of a percent.
pub fn saturation(r: u8, g: u8, b: u8) -> (s: u16)
    ensures
        s == saturation_tenths(r as int, g as int, b as int),
        s <= 1000,
{
    proof {
        lemma_percentages_in_range(r as int, g as int, b as int);
    }
    let hi: u8 = largest(r, g, b);
    let lo: u8 = smallest(r, g, b);
    if hi == lo {
        return 0;
    }
    let sum: u32 = hi as u32 + lo as u32;
    let den: u32 = if sum <= 255 {
        sum
    } else {
        510 - sum
    };
    rounded_quotient(1000 * ((hi - lo) as u32), den) as u16
}

/// Lightness of an RGB triple in tenths of a percent.
pub fn lightness(r: u8, g: u8, b: u8) -> (l: u16)
    ensures
        l == lightness_tenths(r as int, g as int, b as int),
        l <= 1000,
{
    proof {
        lemma_percentages_in_range(r as int, g as int, b as int);
    }
    let hi: u8 = largest(r, g, b);
    let lo: u8 = smallest(r, g, b);
    rounded_quotient(1000 * (hi as u32 + lo as u32), 510) as u16
}

/// Value of an RGB triple in tenths of a percent.
pub fn value(r: u8, g: u8, b: u8) -> (v: u16)
    ensures
        v == value_tenths(r as int, g as int, b as int),
        v <= 1000,
{
    proof {
        lemma_percentages_in_range(r as int, g as int, b as int);
    }
    let hi: u8 = largest(r, g, b);
    rounded_quotient(1000 * (hi as u32), 255) as u16
}

} // verus!
