//! What holds of every colour.

use vstd::prelude::*;
use crate::cmyk::{
    channel_round_trip, inks_resolve, lemma_channel_round_trip,
    lemma_channel_round_trip_within_one, lemma_ink_in_range,
};
use crate::color::ColorBytes;
use crate::cylindrical::max3;
use crate::error::ColorError;
use crate::hexcode::lemma_decode_encode;
use crate::input::{
    all_digits, channel_of, channels_of, comma_free, digits_value, is_digit, join_commas,
    lemma_split_of_join, spec_cmyk_from_text, spec_rgb_from_text, split_commas, unsigned,
};
use crate::text::{decimal, lemma_digit_char};

verus! {

/// Whether two channels lie at most `steps` apart.
pub open spec fn close(a: u8, b: u8, steps: int) -> bool {
    -steps <= a - b <= steps
}

/// The complement of the complement of a colour is the colour itself.
pub proof fn lemma_complement_involutive(color: ColorBytes)
    ensures
        color.complement().complement() == color,
{
}

/// A colour read back from its own hexadecimal text is the colour itself.
pub proof fn lemma_hex_round_trip(color: ColorBytes)
    ensures
        ColorBytes::spec_from_hex(color.spec_as_hex()) == Ok::<ColorBytes, ColorError>(color),
{
    lemma_decode_encode(seq![color.r, color.g, color.b]);
}

/// A grey, with its three channels equal, has hue 0 and saturation 0, both
/// as HSL and as HSV.
pub proof fn lemma_grey_has_no_hue(color: ColorBytes)
    requires
        color.r == color.g,
        color.g == color.b,
    ensures
        color.as_hsl().0 == 0,
        color.as_hsl().1 == 0,
        color.as_hsv().0 == 0,
        color.as_hsv().1 == 0,
{
}

/// HSV has the hue and the saturation of HSL.
pub proof fn lemma_hsv_shares_hue_and_saturation(color: ColorBytes)
    ensures
        color.as_hsv().0 == color.as_hsl().0,
        color.as_hsv().1 == color.as_hsl().1,
{
}

/// A colour made from its own ink percentages differs from the colour by
/// at most two steps in each channel. A channel that is the largest of its
/// colour comes back at most one step away.
pub proof fn lemma_cmyk_round_trip(color: ColorBytes)
    ensures
        ({
            let inks = color.as_cmyk();
            let back = ColorBytes::from_cmyk(inks.0, inks.1, inks.2, inks.3);
            let hi = max3(color.r as int, color.g as int, color.b as int);
            &&& close(back.r, color.r, 2)
            &&& close(back.g, color.g, 2)
            &&& close(back.b, color.b, 2)
            &&& color.r == hi ==> close(back.r, color.r, 1)
            &&& color.g == hi ==> close(back.g, color.g, 1)
            &&& color.b == hi ==> close(back.b, color.b, 1)
        }),
{
    let hi = max3(color.r as int, color.g as int, color.b as int);
    lemma_round_trip_of(color.r as int, hi);
    lemma_round_trip_of(color.g as int, hi);
    lemma_round_trip_of(color.b as int, hi);
}

/// A colour whose largest channel is 255, so that it holds no black, comes
/// back from its own ink percentages at most one step away in each channel.
pub proof fn lemma_cmyk_round_trip_without_black(color: ColorBytes)
    requires
        max3(color.r as int, color.g as int, color.b as int) == 255,
    ensures
        ({
            let inks = color.as_cmyk();
            let back = ColorBytes::from_cmyk(inks.0, inks.1, inks.2, inks.3);
            &&& inks.3 == 0
            &&& close(back.r, color.r, 1)
            &&& close(back.g, color.g, 1)
            &&& close(back.b, color.b, 1)
        }),
{
    lemma_round_trip_of(color.r as int, 255);
    lemma_round_trip_of(color.g as int, 255);
    lemma_round_trip_of(color.b as int, 255);
}

/// A colour comes back from its own ink percentages at most one step away
/// in each channel exactly where its inks resolve each channel.
pub proof fn lemma_cmyk_round_trip_within_one(color: ColorBytes)
    ensures
        ({
            let inks = color.as_cmyk();
            let back = ColorBytes::from_cmyk(inks.0, inks.1, inks.2, inks.3);
            let hi = max3(color.r as int, color.g as int, color.b as int);
            &&& inks_resolve(color.r as int, hi) <==> close(back.r, color.r, 1)
            &&& inks_resolve(color.g as int, hi) <==> close(back.g, color.g, 1)
            &&& inks_resolve(color.b as int, hi) <==> close(back.b, color.b, 1)
        }),
{
    let hi = max3(color.r as int, color.g as int, color.b as int);
    lemma_round_trip_of(color.r as int, hi);
    lemma_round_trip_of(color.g as int, hi);
    lemma_round_trip_of(color.b as int, hi);
    lemma_channel_round_trip_within_one(color.r as int, hi);
    lemma_channel_round_trip_within_one(color.g as int, hi);
    lemma_channel_round_trip_within_one(color.b as int, hi);
}

/// A number in decimal is a run of digits that stands for the number.
pub proof fn lemma_decimal_reads_back(n: nat)
    ensures
        decimal(n).len() >= 1,
        all_digits(decimal(n)),
        digits_value(decimal(n)) == n,
        unsigned(decimal(n)) == decimal(n),
        n <= 255 ==> channel_of(decimal(n)) == Some(n as u8),
    decreases n,
{
    let text = decimal(n);
    if n < 10 {
        lemma_digit_char(n as int);
        assert(text.drop_last() =~= Seq::<char>::empty());
        assert(digits_value(text.drop_last()) == 0);
    } else {
        lemma_decimal_reads_back(n / 10);
        lemma_digit_char((n % 10) as int);
        let front = decimal(n / 10);
        assert(text.drop_last() =~= front);
        assert(text[0] == front[0]);
        assert forall|i: int| 0 <= i < text.len() implies is_digit(#[trigger] text[i]) by {
            if i < front.len() {
                assert(text[i] == front[i]);
            }
        }
    }
    assert(is_digit(text[0]));
}

/// Three bytes written in decimal with commas between them are read back
/// as red, green and blue.
pub proof fn lemma_rgb_text_reads_back(color: ColorBytes)
    ensures
        spec_rgb_from_text(
            join_commas(
                seq![decimal(color.r as nat), decimal(color.g as nat), decimal(color.b as nat)],
            ),
        ) == Ok::<ColorBytes, ColorError>(color),
{
    let pieces = seq![decimal(color.r as nat), decimal(color.g as nat), decimal(color.b as nat)];
    lemma_pieces_read_back(seq![color.r, color.g, color.b], pieces);
    let channels = channels_of(join_commas(pieces))->0;
    assert(channels[0] == color.r && channels[1] == color.g && channels[2] == color.b);
}

/// Four percentages written in decimal with commas between them are read
/// back as the colour that the percentages stand for.
pub proof fn lemma_cmyk_text_reads_back(c: u8, m: u8, y: u8, k: u8)
    requires
        c <= 100,
        m <= 100,
        y <= 100,
        k <= 100,
    ensures
        spec_cmyk_from_text(
            join_commas(
                seq![decimal(c as nat), decimal(m as nat), decimal(y as nat), decimal(k as nat)],
            ),
        ) == Ok::<ColorBytes, ColorError>(ColorBytes::from_cmyk(c, m, y, k)),
{
    let pieces = seq![decimal(c as nat), decimal(m as nat), decimal(y as nat), decimal(k as nat)];
    lemma_pieces_read_back(seq![c, m, y, k], pieces);
    let channels = channels_of(join_commas(pieces))->0;
    assert(channels[0] == c && channels[1] == m && channels[2] == y && channels[3] == k);
}

/// Bytes written in decimal with commas between them are read back as
/// the bytes.
proof fn lemma_pieces_read_back(bytes: Seq<u8>, pieces: Seq<Seq<char>>)
    requires
        bytes.len() >= 1,
        pieces.len() == bytes.len(),
        forall|j: int| 0 <= j < bytes.len() ==> #[trigger] pieces[j] == decimal(bytes[j] as nat),
    ensures
        channels_of(join_commas(pieces)) == Some(bytes),
{
    assert forall|j: int| 0 <= j < pieces.len() implies channel_of(#[trigger] pieces[j]) == Some(
        bytes[j],
    ) && all_digits(pieces[j]) by {
        lemma_decimal_reads_back(bytes[j] as nat);
    }
    assert forall|j: int, i: int|
        0 <= j < pieces.len() && 0 <= i < pieces[j].len() implies #[trigger] pieces[j][i]
        != ',' by {
        assert(all_digits(pieces[j]));
        assert(is_digit(pieces[j][i]));
    }
    assert(comma_free(pieces));
    lemma_split_of_join(pieces);
    assert(split_commas(join_commas(pieces)) == pieces);
    assert(pieces.map_values(|t: Seq<char>| channel_of(t)->0) =~= bytes);
}

/// The round trip of one channel, with the percentages held in bytes.
proof fn lemma_round_trip_of(ch: int, hi: int)
    requires
        0 <= ch <= hi <= 255,
    ensures
        0 <= crate::cmyk::ink_percent(ch, hi) <= 100,
        0 <= crate::cmyk::key_percent(hi) <= 100,
        0 <= channel_round_trip(ch, hi) <= 255,
        ch - 2 <= channel_round_trip(ch, hi) <= ch + 2,
        ch == hi || hi == 255 ==> ch - 1 <= channel_round_trip(ch, hi) <= ch + 1,
{
    lemma_ink_in_range(ch, hi);
    lemma_channel_round_trip(ch, hi);
}

} // verus!
