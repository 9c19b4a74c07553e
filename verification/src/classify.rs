//! The category of a byte, and the glyph and colour that the category selects.

use vstd::prelude::*;
use crate::text::push_char;

verus! {

/// What a byte is, for display purposes.
#[derive(Debug, Clone, Copy, PartialEq, Eq, Structural)]
pub enum Classification {
    /// The byte 0.
    Zero,
    /// Tab, line feed, carriage return or space.
    Whitespace,
    /// A visible ASCII character, 33 to 126.
    Printable,
    /// A byte with the top bit set, 128 to 255.
    HighByte,
    /// Every other control byte: 1 to 8, 11, 12, 14 to 31, and 127.
    OtherControl,
}

/// The colour in which a byte's hex digits and glyph are shown.
#[derive(Debug, Clone, Copy, PartialEq, Eq, Structural)]
pub enum Color {
    BrightBlack,
    Cyan,
    Green,
    Yellow,
    BrightRed,
}

/// The category of each byte value.
pub open spec fn classification_of(byte: u8) -> Classification {
    if byte == 0 {
        Classification::Zero
    } else if byte == 9 || byte == 10 || byte == 13 || byte == 32 {
        Classification::Whitespace
    } else if 33 <= byte <= 126 {
        Classification::Printable
    } else if byte >= 128 {
        Classification::HighByte
    } else {
        Classification::OtherControl
    }
}

/// The colour of each category.
pub open spec fn color_of(class: Classification) -> Color {
    match class {
        Classification::Zero => Color::BrightBlack,
        Classification::Whitespace => Color::Cyan,
        Classification::Printable => Color::Green,
        Classification::HighByte => Color::Yellow,
        Classification::OtherControl => Color::BrightRed,
    }
}

/// The character that stands for a byte in the glyph column.
pub open spec fn glyph_of(byte: u8) -> char {
    match classification_of(byte) {
        Classification::Zero => '•',
        Classification::Whitespace => if byte == 9 {
            '⇥'
        } else if byte == 10 {
            '␊'
        } else if byte == 13 {
            '␍'
        } else {
            '␣'
        },
        Classification::Printable => byte as char,
        Classification::HighByte => '×',
        Classification::OtherControl => '▴',
    }
}

/// Classifies one byte.
pub fn classify(byte: u8) -> (class: Classification)
    ensures
        class == classification_of(byte),
{
    match byte {
        0 => Classification::Zero,
        9 | 10 | 13 | 32 => Classification::Whitespace,
        33..=126 => Classification::Printable,
        128..=255 => Classification::HighByte,
        _ => Classification::OtherControl,
    }
}

/// The colour in which a byte is shown: that of its category.
pub fn get_color(byte: u8) -> (color: Color)
    ensures
        color == color_of(classification_of(byte)),
{
    match classify(byte) {
        Classification::Zero => Color::BrightBlack,
        Classification::Whitespace => Color::Cyan,
        Classification::Printable => Color::Green,
        Classification::HighByte => Color::Yellow,
        Classification::OtherControl => Color::BrightRed,
    }
}

/// The glyph of a byte as a character.
pub fn glyph(byte: u8) -> (c: char)
    ensures
        c == glyph_of(byte),
{
    match byte {
        0 => '•',
        9 => '⇥',
        10 => '␊',
        13 => '␍',
        32 => '␣',
        33..=126 => byte as char,
        128..=255 => '×',
        _ => '▴',
    }
}

/// The glyph of a byte as a string of one character.
pub fn get_ascii(byte: u8) -> (s: String)
    ensures
        s@ == seq![glyph_of(byte)],
{
    let mut s = String::new();
    push_char(&mut s, glyph(byte));
    s
}

} // verus!
