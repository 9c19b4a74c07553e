//! Colouring text for a terminal.

use vstd::prelude::*;
use colored::Colorize;
use crate::classify::Color;

verus! {

/// The escape character that starts every terminal control sequence.
pub const ESCAPE: char = '\x1b';

/// The digits by which a terminal knows a foreground colour.
pub open spec fn color_code(color: Color) -> Seq<char> {
    match color {
        Color::BrightBlack => seq!['9', '0'],
        Color::Cyan => seq!['3', '6'],
        Color::Green => seq!['3', '2'],
        Color::Yellow => seq!['3', '3'],
        Color::BrightRed => seq!['9', '1'],
    }
}

/// A text between the control sequence that sets a foreground colour and the
/// one that resets it.
pub open spec fn painted(text: Seq<char>, color: Color) -> Seq<char> {
    seq![ESCAPE, '['] + color_code(color) + seq!['m'] + text + seq![ESCAPE, '[', '0', 'm']
}

/// A text as it is shown: painted where `lit` holds, as it is where not.
pub open spec fn shown(text: Seq<char>, color: Color, lit: bool) -> Seq<char> {
    if lit {
        painted(text, color)
    } else {
        text
    }
}

/// Whether `result` is the text as it may be shown once colour was asked for:
/// painted, or left as it is.
pub open spec fn may_show(result: Seq<char>, text: Seq<char>, color: Color) -> bool {
    result == text || result == painted(text, color)
}

/// Colours a text, by `Colorize::color` and the `to_string` of the
/// `ColoredString` that it returns. Whether any colour is applied is decided
/// by the `colored` crate's own switch, which goes by the variables
/// `NO_COLOR`, `CLICOLOR` and `CLICOLOR_FORCE`, by whether standard output is
/// a terminal, and by an override that a program can set: so the result is
/// either the text as it is, or the text between the sequence for the colour
/// and the reset sequence, as long as no other thread changes the override
/// while the text is written. A text that holds an escape character is left
/// out, because reset sequences inside the text would be rewritten.
#[verifier::external_body]
pub(crate) fn paint(text: &str, color: Color) -> (r: String)
    requires
        !text@.contains(ESCAPE),
    ensures
        may_show(r@, text@, color),
{
    let color = match color {
        Color::BrightBlack => colored::Color::BrightBlack,
        Color::Cyan => colored::Color::Cyan,
        Color::Green => colored::Color::Green,
        Color::Yellow => colored::Color::Yellow,
        Color::BrightRed => colored::Color::BrightRed,
    };
    text.color(color).to_string()
}

} // verus!
