//! Hex digits and digit pairs, and the calls into the `hex` crate that write
//! and read them.

use vstd::prelude::*;
use crate::util::digit_of;

verus! {

/// The hex digit for a value below 16, in lower or upper case.
pub open spec fn hex_digit(v: int, upper: bool) -> char {
    if v < 10 {
        (0x30 + v) as char
    } else if upper {
        (0x41 + v - 10) as char
    } else {
        (0x61 + v - 10) as char
    }
}

/// The two hex digits of a byte, high half first.
pub open spec fn hex_pair(byte: u8, upper: bool) -> Seq<char> {
    seq![hex_digit(byte as int / 16, upper), hex_digit(byte as int % 16, upper)]
}

/// The hex digits of a sequence of bytes: two per byte, nothing between.
pub open spec fn hex_text(bytes: Seq<u8>, upper: bool) -> Seq<char> {
    Seq::new(
        2 * bytes.len(),
        |i: int|
            if i % 2 == 0 {
                hex_digit(bytes[i / 2] as int / 16, upper)
            } else {
                hex_digit(bytes[i / 2] as int % 16, upper)
            },
    )
}

/// Whether a text is a sequence of hex digit pairs: an even number of
/// characters, each a hex digit in either case.
pub open spec fn is_hex_text(s: Seq<char>) -> bool {
    s.len() % 2 == 0 && forall|i: int| 0 <= i < s.len() ==> (#[trigger] digit_of(s[i], 16)) is Some
}

/// The value of a hex digit; 0 for any other character.
pub open spec fn hex_value(c: char) -> int {
    match digit_of(c, 16) {
        Some(v) => v as int,
        None => 0,
    }
}

/// The bytes that a sequence of hex digit pairs denotes.
pub open spec fn hex_bytes(s: Seq<char>) -> Seq<u8> {
    Seq::new(s.len() / 2, |i: int| (16 * hex_value(s[2 * i]) + hex_value(s[2 * i + 1])) as u8)
}

/// The upper-case form of an ASCII letter; any other character unchanged.
pub open spec fn ascii_upper(c: char) -> char {
    if 0x61 <= c as u32 <= 0x7a {
        (c as u32 - 0x20) as char
    } else {
        c
    }
}

/// A hex digit denotes the value it was made from, in either case.
pub proof fn lemma_hex_digit_value(v: int, upper: bool)
    requires
        0 <= v < 16,
    ensures
        digit_of(hex_digit(v, upper), 16) == Some(v as nat),
        ascii_upper(hex_digit(v, false)) == hex_digit(v, true),
        ascii_upper(hex_digit(v, true)) == hex_digit(v, true),
{
}

/// The hex digits of bytes are a hex text, and denote those bytes.
pub proof fn lemma_hex_text_denotes(bytes: Seq<u8>, upper: bool)
    ensures
        is_hex_text(hex_text(bytes, upper)),
        hex_bytes(hex_text(bytes, upper)) == bytes,
{
    let text: Seq<char> = hex_text(bytes, upper);
    assert forall|i: int| 0 <= i < text.len() implies (#[trigger] digit_of(text[i], 16)) is Some by {
        lemma_hex_digit_value(bytes[i / 2] as int / 16, upper);
        lemma_hex_digit_value(bytes[i / 2] as int % 16, upper);
    }
    assert forall|i: int| 0 <= i < bytes.len() implies hex_bytes(text)[i] == bytes[i] by {
        lemma_hex_digit_value(bytes[i] as int / 16, upper);
        lemma_hex_digit_value(bytes[i] as int % 16, upper);
    }
}

/// Writes bytes as lower-case hex digits, by `hex::encode`: each byte becomes
/// two digits taken from `0123456789abcdef`, the high half first.
#[verifier::external_body]
pub(crate) fn encode_hex(data: &[u8]) -> (text: String)
    ensures
        text@ == hex_text(data@, false),
{
    hex::encode(data)
}

/// The error of `hex::decode`. Nothing of it is read: a text that does not
/// decode is reported as it stands.
#[verifier::external_type_specification]
#[verifier::external_body]
pub struct ExFromHexError(hex::FromHexError);

/// Reads hex digit pairs, by `hex::decode`: it succeeds exactly on an even
/// number of hex digits, in either case, and then gives one byte per pair,
/// the first digit being the high half.
#[verifier::external_body]
pub(crate) fn decode_hex(text: &str) -> (r: Result<Vec<u8>, hex::FromHexError>)
    ensures
        r is Ok <==> is_hex_text(text@),
        r matches Ok(bytes) ==> bytes@ == hex_bytes(text@),
{
    hex::decode(text)
}

/// The upper-case form of an ASCII letter; any other character unchanged.
pub fn to_ascii_upper(c: char) -> (r: char)
    ensures
        r == ascii_upper(c),
{
    if 'a' <= c && c <= 'z' {
        ((c as u8) - 0x20) as char
    } else {
        c
    }
}

} // verus!
