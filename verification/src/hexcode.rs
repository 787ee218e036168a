//! Hexadecimal text, written and read by the `hex` crate.
//!
//! The text of a byte string holds two digits for each byte, the high half
//! first. Text is read back in either case; it is well formed when its length
//! is even and every character is a hexadecimal digit.

use vstd::prelude::*;

verus! {

/// The error of `hex::decode`. Nothing is known of a value but that decoding failed.
#[verifier::external_type_specification]
#[verifier::external_body]
pub struct ExFromHexError(hex::FromHexError);

/// The upper-case digit for a value below 16.
pub open spec fn upper_digit(v: int) -> char {
    "0123456789ABCDEF"@[v]
}

/// The value of a hexadecimal digit of either case, `None` for any other character.
pub open spec fn digit_value(c: char) -> Option<int> {
    if '0' <= c <= '9' {
        Some(c as int - '0' as int)
    } else if 'a' <= c <= 'f' {
        Some(c as int - 'a' as int + 10)
    } else if 'A' <= c <= 'F' {
        Some(c as int - 'A' as int + 10)
    } else {
        None
    }
}

/// Upper-case hexadecimal text of a byte string.
pub open spec fn encoded(bytes: Seq<u8>) -> Seq<char> {
    Seq::new(
        2 * bytes.len(),
        |i: int|
            if i % 2 == 0 {
                upper_digit(bytes[i / 2] as int / 16)
            } else {
                upper_digit(bytes[i / 2] as int % 16)
            },
    )
}

/// Whether `text` is the hexadecimal text of some byte string.
pub open spec fn is_hex_text(text: Seq<char>) -> bool {
    &&& text.len() % 2 == 0
    &&& forall|i: int| 0 <= i < text.len() ==> digit_value(#[trigger] text[i]) is Some
}

/// The byte string that well-formed hexadecimal text stands for.
pub open spec fn decoded(text: Seq<char>) -> Seq<u8> {
    Seq::new(
        text.len() / 2,
        |i: int| (16 * digit_value(text[2 * i])->0 + digit_value(text[2 * i + 1])->0) as u8,
    )
}

/// Every value below 16 is the value of its own upper-case digit.
pub proof fn lemma_upper_digit_value(v: int)
    requires
        0 <= v < 16,
    ensures
        digit_value(upper_digit(v)) == Some(v),
{
    reveal_strlit("0123456789ABCDEF");
}

/// Reading the text of a byte string gives the byte string back.
pub proof fn lemma_decode_encode(bytes: Seq<u8>)
    ensures
        is_hex_text(encoded(bytes)),
        decoded(encoded(bytes)) == bytes,
{
    let text = encoded(bytes);
    assert forall|i: int| 0 <= i < text.len() implies digit_value(#[trigger] text[i]) is Some by {
        let byte = bytes[i / 2] as int;
        lemma_upper_digit_value(byte / 16);
        lemma_upper_digit_value(byte % 16);
    }
    assert forall|j: int| 0 <= j < bytes.len() implies decoded(text)[j] == bytes[j] by {
        let byte = bytes[j] as int;
        lemma_upper_digit_value(byte / 16);
        lemma_upper_digit_value(byte % 16);
        assert(text[2 * j] == upper_digit(byte / 16));
        assert(text[2 * j + 1] == upper_digit(byte % 16));
    }
    assert(decoded(text) =~= bytes);
}

/// `hex::decode` on a string.
///
/// Decoding succeeds exactly on text of even length made of hexadecimal
/// digits of either case, and then gives one byte for each pair of digits,
/// the first digit of a pair being the high half. (The crate works on the
/// bytes of the string; a character outside ASCII has no byte that is a
/// digit, so text with one is refused whatever its length.)
#[verifier::external_body]
pub(crate) fn decode(text: &str) -> (out: Result<Vec<u8>, hex::FromHexError>)
    ensures
        out is Ok <==> is_hex_text(text@),
        out matches Ok(bytes) ==> bytes@ == decoded(text@),
{
    hex::decode(text)
}

/// `hex::encode_upper` on a byte vector: two upper-case digits for each
/// byte, the high half first.
#[verifier::external_body]
pub(crate) fn encode_upper(bytes: &Vec<u8>) -> (text: String)
    ensures
        text@ == encoded(bytes@),
{
    hex::encode_upper(bytes)
}

} // verus!
