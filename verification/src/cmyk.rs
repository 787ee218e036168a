//! Ink percentages of an RGB triple, and the way back.
//!
//! With `hi` the largest channel, the key (black) share is `1 - hi / 255` and
//! the share of a coloured ink is `(1 - ch / 255 - key) / (1 - key)`, which is
//! `(hi - ch) / hi`; black itself has no coloured ink. Each share is rounded
//! to a whole percentage on its own.
//!
//! Back from percentages, a channel is `255 * (1 - ink / 100) * (1 - key / 100)`
//! rounded to the nearest integer and held within a byte.

use vstd::prelude::*;
use crate::rounding::{
    lemma_round_div_bounds, lemma_round_div_is_nearest, lemma_round_div_monotonic, round_div,
    rounded_quotient,
};

verus! {

/// Percentage of a coloured ink for channel `ch` of a colour whose largest
/// channel is `hi`.
pub open spec fn ink_percent(ch: int, hi: int) -> int {
    if hi == 0 {
        0
    } else {
        round_div(100 * (hi - ch), hi)
    }
}

/// Percentage of black for a colour whose largest channel is `hi`.
pub open spec fn key_percent(hi: int) -> int {
    round_div(100 * (255 - hi), 255)
}

/// The channel that `ink` percent of a coloured ink under `key` percent of
/// black gives, held within `[0, 255]`.
pub open spec fn channel_from_ink(ink: int, key: int) -> int {
    let exact = round_div(255 * (100 - ink) * (100 - key), 10000);
    if exact < 0 {
        0
    } else if exact > 255 {
        255
    } else {
        exact
    }
}

/// A channel put through its ink percentage and back.
pub open spec fn channel_round_trip(ch: int, hi: int) -> int {
    channel_from_ink(ink_percent(ch, hi), key_percent(hi))
}

/// Ink percentages are percentages.
pub proof fn lemma_ink_in_range(ch: int, hi: int)
    requires
        0 <= ch <= hi <= 255,
    ensures
        0 <= ink_percent(ch, hi) <= 100,
        0 <= key_percent(hi) <= 100,
{
    lemma_round_div_bounds(100 * (255 - hi), 255);
    lemma_round_div_monotonic(100 * (255 - hi), 25500, 255);
    assert(round_div(25500, 255) == 100);
    if hi != 0 {
        lemma_round_div_bounds(100 * (hi - ch), hi);
        lemma_round_div_monotonic(100 * (hi - ch), 100 * hi, hi);
        crate::rounding::lemma_round_div_exact(100, hi);
    }
}

/// Within the percentages, a channel computed from inks needs no clamping.
pub proof fn lemma_channel_from_ink_exact(ink: int, key: int)
    requires
        0 <= ink <= 100,
        0 <= key <= 100,
    ensures
        channel_from_ink(ink, key) == round_div(255 * (100 - ink) * (100 - key), 10000),
{
    let a = 100 - ink;
    let b = 100 - key;
    assert(0 <= a * b <= 10000) by (nonlinear_arith)
        requires
            0 <= a <= 100,
            0 <= b <= 100,
    ;
    assert(255 * a * b == 255 * (a * b)) by (nonlinear_arith);
    lemma_round_div_bounds(255 * (a * b), 10000);
    lemma_round_div_monotonic(255 * (a * b), 2550000, 10000);
    assert(round_div(2550000, 10000) == 255);
}

/// How far `51 * a * b` can lie from `2000 * ch` when `a / 100` stands for
/// `ch / hi` with an error of `x / (2 * hi)` and `b / 100` for `hi / 255`
/// with an error of `y / 510`.
proof fn lemma_product_error(ch: int, hi: int, a: int, b: int, x: int, y: int, reach: int, span: int)
    requires
        0 <= ch <= hi,
        0 < hi,
        2 * hi * a == 200 * ch + x,
        510 * b == 200 * hi + y,
        -reach <= x <= reach,
        -span <= y <= span,
        0 <= reach <= hi,
        0 <= span,
    ensures
        -(hi * (201 * span + 200 * reach)) <= 20 * hi * (51 * (a * b) - 2000 * ch) <= hi * (201
            * span + 200 * reach),
{
    let e = 51 * (a * b) - 2000 * ch;
    assert(20 * hi * e == 200 * (ch * y) + 200 * (hi * x) + x * y) by (nonlinear_arith)
        requires
            e == 51 * (a * b) - 2000 * ch,
            2 * hi * a == 200 * ch + x,
            510 * b == 200 * hi + y,
    {
        assert((2 * hi * a) * (510 * b) == 1020 * hi * (a * b));
        assert((200 * ch + x) * (200 * hi + y) == 40000 * (ch * hi) + 200 * (ch * y) + 200 * (hi
            * x) + x * y);
    }
    assert(-(hi * span) <= ch * y <= hi * span) by (nonlinear_arith)
        requires
            0 <= ch <= hi,
            -span <= y <= span,
    ;
    assert(-(hi * reach) <= hi * x <= hi * reach) by (nonlinear_arith)
        requires
            0 < hi,
            -reach <= x <= reach,
    ;
    assert(-(hi * span) <= x * y <= hi * span) by (nonlinear_arith)
        requires
            -reach <= x <= reach,
            -span <= y <= span,
            0 <= reach <= hi,
            0 <= span,
    ;
    let bound = hi * (201 * span + 200 * reach);
    assert(bound == 201 * (hi * span) + 200 * (hi * reach)) by (nonlinear_arith)
        requires
            bound == hi * (201 * span + 200 * reach),
    ;
    assert(-bound <= 20 * hi * e <= bound);
}

/// A channel comes back from its ink percentages at most two steps away,
/// and at most one step away where it is the largest channel of its colour
/// or where that largest channel is 255.
pub proof fn lemma_channel_round_trip(ch: int, hi: int)
    requires
        0 <= ch <= hi <= 255,
    ensures
        ch - 2 <= channel_round_trip(ch, hi) <= ch + 2,
        ch == hi || hi == 255 ==> ch - 1 <= channel_round_trip(ch, hi) <= ch + 1,
{
    let c = ink_percent(ch, hi);
    let k = key_percent(hi);
    lemma_ink_in_range(ch, hi);
    lemma_channel_from_ink_exact(c, k);
    let a = 100 - c;
    let b = 100 - k;
    assert(255 * a * b == 255 * (a * b)) by (nonlinear_arith);
    lemma_round_div_is_nearest(255 * (a * b), 10000);
    lemma_round_div_is_nearest(100 * (255 - hi), 255);
    if hi == 0 {
        assert(a * b == 0) by (nonlinear_arith)
            requires
                b == 0,
        ;
    } else {
        lemma_round_div_is_nearest(100 * (hi - ch), hi);
        assert(2 * hi * a == 200 * hi - 2 * hi * c) by (nonlinear_arith)
            requires
                a == 100 - c,
        ;
        let x = 2 * hi * a - 200 * ch;
        let y = 510 * b - 200 * hi;
        let e = 51 * (a * b) - 2000 * ch;
        let span: int = vstd::math::abs(y) as int;
        assert(201 * span + 200 * hi < 100000);
        lemma_product_error(ch, hi, a, b, x, y, hi, span);
        assert(-5000 < e < 5000) by (nonlinear_arith)
            requires
                -(hi * (201 * span + 200 * hi)) <= 20 * hi * e <= hi * (201 * span + 200 * hi),
                201 * span + 200 * hi < 100000,
                0 < hi,
        ;
        if hi == 255 {
            assert(y == 0);
            lemma_product_error(ch, hi, a, b, x, y, hi, 0);
            assert(-3000 < e < 3000) by (nonlinear_arith)
                requires
                    -(hi * (201 * 0 + 200 * hi)) <= 20 * hi * e <= hi * (201 * 0 + 200 * hi),
                    hi == 255,
            ;
        } else if ch == hi {
            crate::rounding::lemma_round_div_exact(0, hi);
            assert(2 * hi * c == 0) by (nonlinear_arith)
                requires
                    c == 0,
            ;
            lemma_product_error(ch, hi, a, b, x, y, 0, 255);
            assert(-3000 < e < 3000) by (nonlinear_arith)
                requires
                    -(hi * (201 * 255 + 200 * 0)) <= 20 * hi * e <= hi * (201 * 255 + 200 * 0),
                    0 < hi,
            ;
        }
    }
}

/// Whether the inks of channel `ch` under largest channel `hi` give, before
/// the last rounding, a value less than one and a half steps from `ch`:
/// whether `255 * a * b / 10000` lies in `[ch - 1.5, ch + 1.5)`, with `a` and
/// `b` what the percentages of ink and of black leave of 100.
pub open spec fn inks_resolve(ch: int, hi: int) -> bool {
    let a = 100 - ink_percent(ch, hi);
    let b = 100 - key_percent(hi);
    20000 * ch - 30000 <= 510 * (a * b) < 20000 * ch + 30000
}

/// A channel comes back from its ink percentages at most one step away
/// exactly where its inks resolve it.
pub proof fn lemma_channel_round_trip_within_one(ch: int, hi: int)
    requires
        0 <= ch <= hi <= 255,
    ensures
        inks_resolve(ch, hi) <==> ch - 1 <= channel_round_trip(ch, hi) <= ch + 1,
{
    let c = ink_percent(ch, hi);
    let k = key_percent(hi);
    lemma_ink_in_range(ch, hi);
    lemma_channel_from_ink_exact(c, k);
    let a = 100 - c;
    let b = 100 - k;
    assert(255 * a * b == 255 * (a * b)) by (nonlinear_arith);
    lemma_round_div_is_nearest(255 * (a * b), 10000);
}

/// Percentage of a coloured ink for channel `ch` under largest channel `hi`.
pub fn ink(ch: u8, hi: u8) -> (p: u8)
    requires
        ch <= hi,
    ensures
        p == ink_percent(ch as int, hi as int),
        p <= 100,
{
    proof {
        lemma_ink_in_range(ch as int, hi as int);
    }
    if hi == 0 {
        0
    } else {
        rounded_quotient(100 * ((hi - ch) as u32), hi as u32) as u8
    }
}

/// Percentage of black under largest channel `hi`.
pub fn key(hi: u8) -> (p: u8)
    ensures
        p == key_percent(hi as int),
        p <= 100,
{
    proof {
        lemma_ink_in_range(0, hi as int);
    }
    rounded_quotient(100 * ((255 - hi) as u32), 255) as u8
}

/// The channel that `ink` percent of a coloured ink under `key` percent of
/// black gives. Percentages over 100 are taken as they stand and the result
/// is held within a byte.
pub fn channel(ink: u8, key: u8) -> (ch: u8)
    ensures
        ch == channel_from_ink(ink as int, key as int),
{
    let a: u32 = if ink <= 100 {
        (100 - ink) as u32
    } else {
        (ink - 100) as u32
    };
    let b: u32 = if key <= 100 {
        (100 - key) as u32
    } else {
        (key - 100) as u32
    };
    let ghost product = 255 * (100 - ink) * (100 - key);
    if (ink > 100) != (key > 100) {
        proof {
            assert(product <= 0) by (nonlinear_arith)
                requires
                    product == 255 * (100 - ink) * (100 - key),
                    (100 - ink <= 0 && 100 - key >= 0) || (100 - ink >= 0 && 100 - key <= 0),
            ;
            lemma_round_div_is_nearest(product, 10000);
        }
        0
    } else {
        proof {
            assert(product == 255 * a * b && 255 * a * b <= 255 * 155 * 155) by (nonlinear_arith)
                requires
                    product == 255 * (100 - ink) * (100 - key),
                    (a == 100 - ink && b == 100 - key) || (a == ink - 100 && b == key - 100),
                    0 <= a <= 155,
                    0 <= b <= 155,
            ;
        }
        let exact: u32 = rounded_quotient(255 * a * b, 10000);
        if exact > 255 {
            255
        } else {
            exact as u8
        }
    }
}

} // verus!
