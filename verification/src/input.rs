//! Colours from text as it is typed on a command line.
//!
//! A list of channels is written as whole numbers separated by commas,
//! without blanks: `34,139,34`. A number is a run of decimal digits, which
//! a `+` may precede, with a value that fits in a byte.

use vstd::prelude::*;
use crate::color::ColorBytes;
use crate::error::ColorError;

verus! {

/// Whether `c` is a decimal digit.
pub open spec fn is_digit(c: char) -> bool {
    '0' <= c <= '9'
}

/// Whether every character of `s` is a decimal digit.
pub open spec fn all_digits(s: Seq<char>) -> bool {
    forall|i: int| 0 <= i < s.len() ==> is_digit(#[trigger] s[i])
}

/// The number that a run of decimal digits stands for; the empty run stands for 0.
pub open spec fn digits_value(s: Seq<char>) -> nat
    decreases s.len(),
{
    if s.len() == 0 {
        0
    } else {
        (10 * digits_value(s.drop_last()) + (s.last() as int - '0' as int)) as nat
    }
}

/// A token without the `+` that may stand at its head.
pub open spec fn unsigned(token: Seq<char>) -> Seq<char> {
    if token.len() > 0 && token[0] == '+' {
        token.skip(1)
    } else {
        token
    }
}

/// Whether `digits` is a run of decimal digits with a value of at most 255.
pub open spec fn fits_byte(digits: Seq<char>) -> bool {
    all_digits(digits) && digits_value(digits) <= 255
}

/// The channel that a token stands for, `None` where it is no number or
/// does not fit in a byte.
pub open spec fn channel_of(token: Seq<char>) -> Option<u8> {
    let digits = unsigned(token);
    if digits.len() > 0 && fits_byte(digits) {
        Some(digits_value(digits) as u8)
    } else {
        None
    }
}

/// The pieces of `s` between its commas, in order. Text with `n` commas has
/// `n + 1` pieces, of which any may be empty.
pub open spec fn split_commas(s: Seq<char>) -> Seq<Seq<char>>
    decreases s.len(),
{
    if s.len() == 0 {
        seq![Seq::<char>::empty()]
    } else {
        let front = split_commas(s.drop_last());
        if s.last() == ',' {
            front.push(Seq::<char>::empty())
        } else {
            front.update(front.len() - 1, front.last().push(s.last()))
        }
    }
}

/// Whether every token stands for a channel.
pub open spec fn all_channels(tokens: Seq<Seq<char>>) -> bool {
    forall|j: int| 0 <= j < tokens.len() ==> channel_of(#[trigger] tokens[j]) is Some
}

/// The channels that a comma-separated list stands for, `None` where one of
/// its tokens stands for none.
pub open spec fn channels_of(text: Seq<char>) -> Option<Seq<u8>> {
    let tokens = split_commas(text);
    if all_channels(tokens) {
        Some(tokens.map_values(|t: Seq<char>| channel_of(t)->0))
    } else {
        None
    }
}

/// Text is split into at least one piece.
pub proof fn lemma_split_nonempty(s: Seq<char>)
    ensures
        split_commas(s).len() >= 1,
    decreases s.len(),
{
    if s.len() > 0 {
        lemma_split_nonempty(s.drop_last());
    }
}

/// Pieces put together again, with a comma between each two.
pub open spec fn join_commas(pieces: Seq<Seq<char>>) -> Seq<char>
    decreases pieces.len(),
{
    if pieces.len() == 0 {
        Seq::<char>::empty()
    } else if pieces.len() == 1 {
        pieces[0]
    } else {
        join_commas(pieces.drop_last()) + seq![','] + pieces.last()
    }
}

/// Whether no piece holds a comma.
pub open spec fn comma_free(pieces: Seq<Seq<char>>) -> bool {
    forall|j: int, i: int|
        0 <= j < pieces.len() && 0 <= i < pieces[j].len() ==> #[trigger] pieces[j][i] != ','
}

/// The pieces of a text hold no comma, and a comma between each two of them
/// gives the text back.
pub proof fn lemma_split_joins(s: Seq<char>)
    ensures
        split_commas(s).len() >= 1,
        comma_free(split_commas(s)),
        join_commas(split_commas(s)) == s,
    decreases s.len(),
{
    if s.len() > 0 {
        let t = s.drop_last();
        let c = s.last();
        lemma_split_joins(t);
        let front = split_commas(t);
        let pieces = split_commas(s);
        assert(s =~= t.push(c));
        if c == ',' {
            assert(pieces.drop_last() =~= front);
            assert(join_commas(pieces) =~= s);
        } else {
            let last = front.last().push(c);
            assert(pieces.last() == last);
            if front.len() == 1 {
                assert(join_commas(front) == front[0]);
                assert(join_commas(pieces) =~= s);
            } else {
                assert(pieces.drop_last() =~= front.drop_last());
                assert(join_commas(pieces) =~= join_commas(front).push(c));
            }
            assert forall|j: int, i: int|
                0 <= j < pieces.len() && 0 <= i < pieces[j].len() implies #[trigger] pieces[j][i]
                != ',' by {
                if j < pieces.len() - 1 {
                    assert(pieces[j] == front[j]);
                } else if i < front.last().len() {
                    assert(pieces[j][i] == front[j][i]);
                }
            }
        }
    }
}

/// The text of pieces put together ends as its last piece does, or in a
/// comma where that piece is empty.
proof fn lemma_join_last(pieces: Seq<Seq<char>>)
    requires
        pieces.len() >= 1,
    ensures
        join_commas(pieces).len() >= pieces.last().len(),
        pieces.last().len() > 0 ==> join_commas(pieces).last() == pieces.last().last(),
        pieces.last().len() > 0 ==> join_commas(pieces).drop_last() == join_commas(
            pieces.update(pieces.len() - 1, pieces.last().drop_last()),
        ),
        pieces.last().len() == 0 && pieces.len() >= 2 ==> join_commas(pieces).last() == ','
            && join_commas(pieces).drop_last() == join_commas(pieces.drop_last()),
        pieces.last().len() == 0 && pieces.len() == 1 ==> join_commas(pieces).len() == 0,
{
    let last = pieces.last();
    if last.len() > 0 {
        let shorter = pieces.update(pieces.len() - 1, last.drop_last());
        if pieces.len() >= 2 {
            assert(shorter.drop_last() =~= pieces.drop_last());
            assert(join_commas(pieces).drop_last() =~= join_commas(shorter));
        }
    } else if pieces.len() >= 2 {
        assert(join_commas(pieces).drop_last() =~= join_commas(pieces.drop_last()));
    }
}

/// Pieces without a comma are the pieces of the text that they give when a
/// comma is put between each two of them.
pub proof fn lemma_split_of_join(pieces: Seq<Seq<char>>)
    requires
        pieces.len() >= 1,
        comma_free(pieces),
    ensures
        split_commas(join_commas(pieces)) == pieces,
    decreases join_commas(pieces).len(),
{
    let s = join_commas(pieces);
    let last = pieces.last();
    lemma_join_last(pieces);
    if last.len() > 0 {
        let shorter = pieces.update(pieces.len() - 1, last.drop_last());
        assert forall|j: int, i: int|
            0 <= j < shorter.len() && 0 <= i < shorter[j].len() implies #[trigger] shorter[j][i]
            != ',' by {
            assert(shorter[j][i] == pieces[j][i]);
        }
        lemma_split_of_join(shorter);
        assert(s.last() == last[last.len() - 1]);
        assert(split_commas(s) =~= pieces) by {
            assert(shorter.last().push(last.last()) =~= last);
        }
    } else if pieces.len() >= 2 {
        let front = pieces.drop_last();
        assert forall|j: int, i: int|
            0 <= j < front.len() && 0 <= i < front[j].len() implies #[trigger] front[j][i]
            != ',' by {
            assert(front[j][i] == pieces[j][i]);
        }
        lemma_split_of_join(front);
        assert(last =~= Seq::<char>::empty());
        assert(front.push(last) =~= pieces);
    } else {
        assert(last =~= Seq::<char>::empty());
        assert(seq![last] =~= pieces);
    }
}

/// What one more character does to the pieces.
proof fn lemma_split_push(s: Seq<char>, c: char)
    ensures
        split_commas(s).len() >= 1,
        c == ',' ==> split_commas(s.push(c)) == split_commas(s).push(Seq::<char>::empty()),
        c != ',' ==> split_commas(s.push(c)) == split_commas(s).drop_last().push(
            split_commas(s).last().push(c),
        ),
{
    lemma_split_nonempty(s);
    assert(s.push(c).drop_last() =~= s);
    let front = split_commas(s);
    assert(front.update(front.len() - 1, front.last().push(c)) =~= front.drop_last().push(
        front.last().push(c),
    ));
}

/// What one more digit does to a run of digits.
proof fn lemma_digits_push(digits: Seq<char>, c: char)
    ensures
        all_digits(digits.push(c)) == (all_digits(digits) && is_digit(c)),
        digits_value(digits.push(c)) == (10 * digits_value(digits) + (c as int - '0' as int)) as nat,
{
    let longer = digits.push(c);
    assert(longer.drop_last() =~= digits);
    if all_digits(longer) {
        assert(is_digit(longer[digits.len() as int]));
        assert forall|i: int| 0 <= i < digits.len() implies is_digit(#[trigger] digits[i]) by {
            assert(digits[i] == longer[i]);
        }
    }
}

/// What one more token does to the channels of a list of tokens.
proof fn lemma_tokens_push(done: Seq<Seq<char>>, token: Seq<char>)
    ensures
        all_channels(done.push(token)) == (all_channels(done) && channel_of(token) is Some),
        done.push(token).map_values(|t: Seq<char>| channel_of(t)->0) == done.map_values(
            |t: Seq<char>| channel_of(t)->0,
        ).push(channel_of(token)->0),
{
    let longer = done.push(token);
    if all_channels(longer) {
        assert(channel_of(longer[done.len() as int]) is Some);
        assert forall|j: int| 0 <= j < done.len() implies channel_of(#[trigger] done[j])
            is Some by {
            assert(done[j] == longer[j]);
        }
    }
    assert(longer.map_values(|t: Seq<char>| channel_of(t)->0) =~= done.map_values(
        |t: Seq<char>| channel_of(t)->0,
    ).push(channel_of(token)->0));
}

/// The state of a scan through one token.
struct Scan {
    /// No character of the token has been read.
    empty: bool,
    /// A digit or another character has been read after the sign, if any.
    started: bool,
    /// What has been read after the sign is a run of digits worth at most 255.
    fits: bool,
    /// The value of that run, where it fits.
    value: u8,
}

impl Scan {
    /// Whether the state is that of a scan that has read `token`.
    spec fn tracks(self, token: Seq<char>) -> bool {
        &&& self.empty == (token.len() == 0)
        &&& self.started == (unsigned(token).len() > 0)
        &&& self.fits == fits_byte(unsigned(token))
        &&& self.fits ==> self.value == digits_value(unsigned(token))
    }

    /// The state before any character.
    fn start() -> (scan: Scan)
        ensures
            scan.tracks(Seq::<char>::empty()),
    {
        Scan { empty: true, started: false, fits: true, value: 0 }
    }

    /// The state after one more character, which is no comma.
    fn step(self, c: char, Ghost(token): Ghost<Seq<char>>) -> (scan: Scan)
        requires
            self.tracks(token),
        ensures
            scan.tracks(token.push(c)),
    {
        let longer = Ghost(token.push(c));
        if self.empty && c == '+' {
            assert(unsigned(longer@) =~= Seq::<char>::empty());
            return Scan { empty: false, started: false, fits: true, value: 0 };
        }
        proof {
            assert(unsigned(longer@) =~= unsigned(token).push(c));
            lemma_digits_push(unsigned(token), c);
        }
        if self.fits && '0' <= c && c <= '9' {
            let wide: u32 = 10 * (self.value as u32) + (c as u32 - '0' as u32);
            if wide <= 255 {
                return Scan { empty: false, started: true, fits: true, value: wide as u8 };
            }
        }
        Scan { empty: false, started: true, fits: false, value: 0 }
    }

    /// The channel that the token read stands for.
    fn finish(self, Ghost(token): Ghost<Seq<char>>) -> (channel: Option<u8>)
        requires
            self.tracks(token),
        ensures
            channel == channel_of(token),
    {
        if self.started && self.fits {
            Some(self.value)
        } else {
            None
        }
    }
}

/// Reads a comma-separated list of channels. Text with a token that is no
/// whole number from 0 to 255 is refused with `ParseError`.
pub fn parse_channels(text: &str) -> (out: Result<Vec<u8>, ColorError>)
    ensures
        match out {
            Ok(channels) => channels_of(text@) == Some(channels@),
            Err(e) => e == ColorError::ParseError && channels_of(text@) is None,
        },
{
    let mut channels: Vec<u8> = Vec::new();
    let mut valid: bool = true;
    let mut scan: Scan = Scan::start();
    let ghost mut done: Seq<Seq<char>> = Seq::empty();
    let ghost mut token: Seq<char> = Seq::empty();
    assert(text@.take(0) =~= Seq::<char>::empty());
    assert(split_commas(Seq::<char>::empty()) =~= done.push(token));
    for c in it: text.chars()
        invariant
            it.seq() == text@,
            split_commas(text@.take(it.index() as int)) == done.push(token),
            scan.tracks(token),
            valid == all_channels(done),
            valid ==> channels@ == done.map_values(|t: Seq<char>| channel_of(t)->0),
    {
        proof {
            let read = text@.take(it.index() as int);
            assert(text@.take(it.index() + 1) =~= read.push(c));
            lemma_split_push(read, c);
            assert(done.push(token).drop_last() =~= done);
        }
        if c == ',' {
            let channel: Option<u8> = scan.finish(Ghost(token));
            proof {
                lemma_tokens_push(done, token);
                done = done.push(token);
                token = Seq::empty();
            }
            match channel {
                Some(value) => {
                    if valid {
                        channels.push(value);
                    }
                },
                None => {
                    valid = false;
                },
            }
            scan = Scan::start();
        } else {
            scan = scan.step(c, Ghost(token));
            proof {
                token = token.push(c);
            }
        }
    }
    assert(text@.take(text@.len() as int) =~= text@);
    let channel: Option<u8> = scan.finish(Ghost(token));
    proof {
        lemma_tokens_push(done, token);
    }
    match channel {
        Some(value) => {
            if valid {
                channels.push(value);
                Ok(channels)
            } else {
                Err(ColorError::ParseError)
            }
        },
        None => Err(ColorError::ParseError),
    }
}

/// Whether every channel is a percentage.
pub open spec fn all_percentages(channels: Seq<u8>) -> bool {
    forall|i: int| 0 <= i < channels.len() ==> #[trigger] channels[i] <= 100
}

/// The colour that a list of red, green and blue stands for.
pub open spec fn spec_rgb_from_text(text: Seq<char>) -> Result<ColorBytes, ColorError> {
    match channels_of(text) {
        None => Err(ColorError::ParseError),
        Some(channels) => if channels.len() == 3 {
            ColorBytes::spec_from_vec(channels)
        } else {
            Err(ColorError::InvalidLength)
        },
    }
}

/// The colour that a list of percentages of cyan, magenta, yellow and black
/// stands for.
pub open spec fn spec_cmyk_from_text(text: Seq<char>) -> Result<ColorBytes, ColorError> {
    match channels_of(text) {
        None => Err(ColorError::ParseError),
        Some(channels) => if !all_percentages(channels) {
            Err(ColorError::ParseError)
        } else if channels.len() == 4 {
            ColorBytes::spec_from_vec(channels)
        } else {
            Err(ColorError::InvalidLength)
        },
    }
}

/// The colour that the sources given stand for: the hexadecimal text where
/// there is one, else the list of red, green and blue, else the list of
/// percentages.
pub open spec fn spec_color_from_sources(
    hex: Option<String>,
    rgb: Option<String>,
    cmyk: Option<String>,
) -> Result<ColorBytes, ColorError> {
    match hex {
        Some(text) => ColorBytes::spec_from_hex(text@),
        None => match rgb {
            Some(text) => spec_rgb_from_text(text@),
            None => match cmyk {
                Some(text) => spec_cmyk_from_text(text@),
                None => Err(ColorError::UsageError),
            },
        },
    }
}

/// Whether every channel is at most 100.
fn within_percent(channels: &Vec<u8>) -> (all: bool)
    ensures
        all == all_percentages(channels@),
{
    let mut i: usize = 0;
    while i < channels.len()
        invariant
            i <= channels.len(),
            forall|j: int| 0 <= j < i ==> #[trigger] channels@[j] <= 100,
        decreases channels.len() - i,
    {
        if channels[i] > 100 {
            return false;
        }
        i = i + 1;
    }
    true
}

/// Reads red, green and blue from a comma-separated list.
///
/// A token that is no whole number from 0 to 255 gives `ParseError`;
/// a list of such numbers that has not three of them gives `InvalidLength`.
pub fn rgb_from_text(text: &str) -> (out: Result<ColorBytes, ColorError>)
    ensures
        out == spec_rgb_from_text(text@),
{
    match parse_channels(text) {
        Ok(channels) => {
            if channels.len() == 3 {
                ColorBytes::from_vec(channels)
            } else {
                Err(ColorError::InvalidLength)
            }
        },
        Err(e) => Err(e),
    }
}

/// Reads percentages of cyan, magenta, yellow and black from a
/// comma-separated list.
///
/// A token that is no whole number from 0 to 100 gives `ParseError`;
/// a list of such numbers that has not four of them gives `InvalidLength`.
pub fn cmyk_from_text(text: &str) -> (out: Result<ColorBytes, ColorError>)
    ensures
        out == spec_cmyk_from_text(text@),
{
    match parse_channels(text) {
        Ok(channels) => {
            if !within_percent(&channels) {
                Err(ColorError::ParseError)
            } else if channels.len() == 4 {
                ColorBytes::from_vec(channels)
            } else {
                Err(ColorError::InvalidLength)
            }
        },
        Err(e) => Err(e),
    }
}

/// Makes the colour from the sources given. Hexadecimal text is preferred
/// to a list of red, green and blue, and that to a list of percentages;
/// the sources after the first one given are not looked at. Without any
/// source the result is `UsageError`.
pub fn color_from_sources(hex: Option<String>, rgb: Option<String>, cmyk: Option<String>) -> (out:
    Result<ColorBytes, ColorError>)
    ensures
        out == spec_color_from_sources(hex, rgb, cmyk),
{
    match hex {
        Some(text) => ColorBytes::from_hex(text),
        None => match rgb {
            Some(text) => rgb_from_text(text.as_str()),
            None => match cmyk {
                Some(text) => cmyk_from_text(text.as_str()),
                None => Err(ColorError::UsageError),
            },
        },
    }
}

} // verus!
