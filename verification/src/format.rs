//! One display line: the address of a chunk, its bytes in hex, and their
//! glyphs, in three columns that line up from one line to the next.

use vstd::prelude::*;
use vstd::string::*;
use crate::classify::{classification_of, color_of, get_ascii, get_color, glyph_of, Color};
use crate::hexcode::{
    encode_hex, hex_digit, hex_pair, hex_text, lemma_hex_digit_value, to_ascii_upper,
};
use crate::paint::{may_show, paint, painted, shown, ESCAPE};
use crate::text::{chars_of, push_char};
use crate::util::ApplyIf;

verus! {

/// The character that divides the columns of a line.
pub const SEPARATOR: char = '│';

/// How a run renders its lines.
#[derive(Debug, Clone, Copy, PartialEq, Eq, Structural)]
pub struct DumpConfig {
    /// The number of bytes that a full line shows.
    pub bytes_per_line: usize,
    /// Whether hex digits are written in upper case.
    pub uppercase: bool,
    /// Whether the pieces of a line are coloured.
    pub use_color: bool,
}

/// Which pieces of a line came out coloured: the address, the separator, and
/// each byte's hex pair and glyph.
pub struct Styling {
    pub address: bool,
    pub separator: bool,
    pub hex: Seq<bool>,
    pub glyphs: Seq<bool>,
}

/// `n` pieces, none of them coloured.
pub open spec fn unlit(n: nat) -> Seq<bool> {
    Seq::new(n, |i: int| false)
}

impl Styling {
    /// The styling of a line of `n` bytes in which nothing is coloured.
    pub open spec fn plain(n: nat) -> Styling {
        Styling { address: false, separator: false, hex: unlit(n), glyphs: unlit(n) }
    }

    /// Whether the styling speaks of exactly `n` bytes.
    pub open spec fn fits(self, n: nat) -> bool {
        self.hex.len() == n && self.glyphs.len() == n
    }
}

/// 16 to the power `n`.
pub open spec fn pow16(n: nat) -> nat
    decreases n,
{
    if n == 0 {
        1
    } else {
        16 * pow16((n - 1) as nat)
    }
}

/// The hex digits of a number, without leading zeros; `0` for zero.
pub open spec fn hex_digits(n: nat, upper: bool) -> Seq<char>
    decreases n,
{
    if n < 16 {
        seq![hex_digit(n as int, upper)]
    } else {
        hex_digits(n / 16, upper).push(hex_digit((n % 16) as int, upper))
    }
}

/// Digits with zeros put before them until they are `width` long; digits that
/// are longer stay as they are.
pub open spec fn zero_padded(digits: Seq<char>, width: nat) -> Seq<char> {
    if digits.len() >= width {
        digits
    } else {
        Seq::new((width - digits.len()) as nat, |i: int| '0') + digits
    }
}

/// The address column: `0x`, then the address in hex, at least `width`
/// digits of it.
pub open spec fn address_text(address: nat, width: nat, upper: bool) -> Seq<char> {
    seq!['0', 'x'] + zero_padded(hex_digits(address, upper), width)
}

/// The hex column: the hex pair of each byte, a space between one and the
/// next, each pair coloured by its byte where `lit` says so.
pub open spec fn hex_column(bytes: Seq<u8>, upper: bool, lit: Seq<bool>) -> Seq<char>
    decreases bytes.len(),
{
    if bytes.len() == 0 {
        Seq::empty()
    } else {
        let cell: Seq<char> = shown(
            hex_pair(bytes.last(), upper),
            color_of(classification_of(bytes.last())),
            lit.last(),
        );
        if bytes.len() == 1 {
            cell
        } else {
            hex_column(bytes.drop_last(), upper, lit.drop_last()) + seq![' '] + cell
        }
    }
}

/// The glyph column: the glyph of each byte, coloured by its byte where
/// `lit` says so.
pub open spec fn glyph_column(bytes: Seq<u8>, lit: Seq<bool>) -> Seq<char>
    decreases bytes.len(),
{
    if bytes.len() == 0 {
        Seq::empty()
    } else {
        glyph_column(bytes.drop_last(), lit.drop_last()) + shown(
            seq![glyph_of(bytes.last())],
            color_of(classification_of(bytes.last())),
            lit.last(),
        )
    }
}

/// The spaces that stand for `missing` bytes in the hex column: three each,
/// for two digits and the space between pairs.
pub open spec fn padding(missing: nat) -> Seq<char> {
    Seq::new(3 * missing, |i: int| ' ')
}

/// The separator as it is shown.
pub open spec fn separator_text(lit: bool) -> Seq<char> {
    shown(seq![SEPARATOR], Color::BrightBlack, lit)
}

/// A whole line: a space, the address, the separator, the hex column padded
/// to the width of a full line, the separator, the glyphs, and a line feed,
/// with single spaces around the separators.
pub open spec fn line_text(
    address: nat,
    chunk: Seq<u8>,
    width: nat,
    bytes_per_line: nat,
    upper: bool,
    style: Styling,
) -> Seq<char> {
    seq![' '] + shown(address_text(address, width, upper), Color::BrightBlack, style.address)
        + seq![' '] + separator_text(style.separator) + seq![' '] + hex_column(
        chunk,
        upper,
        style.hex,
    ) + padding((bytes_per_line - chunk.len()) as nat) + seq![' '] + separator_text(
        style.separator,
    ) + seq![' '] + glyph_column(chunk, style.glyphs) + seq!['\n']
}

/// A whole line without any colour.
pub open spec fn plain_line(
    address: nat,
    chunk: Seq<u8>,
    width: nat,
    bytes_per_line: nat,
    upper: bool,
) -> Seq<char> {
    line_text(address, chunk, width, bytes_per_line, upper, Styling::plain(chunk.len()))
}

/// Whether a text is the hex column of the bytes: with colour allowed, under
/// some choice of coloured pairs; without, the plain column.
pub open spec fn renders_hex(text: Seq<char>, bytes: Seq<u8>, upper: bool, use_color: bool) -> bool {
    exists|lit: Seq<bool>|
        lit.len() == bytes.len() && (use_color || lit == unlit(bytes.len())) && text
            == #[trigger] hex_column(bytes, upper, lit)
}

/// Whether a text is the glyph column of the bytes: with colour allowed,
/// under some choice of coloured glyphs; without, the plain column.
pub open spec fn renders_glyphs(text: Seq<char>, bytes: Seq<u8>, use_color: bool) -> bool {
    exists|lit: Seq<bool>|
        lit.len() == bytes.len() && (use_color || lit == unlit(bytes.len())) && text
            == #[trigger] glyph_column(bytes, lit)
}

/// Whether a text is the line of the chunk: with colour allowed, under some
/// choice of coloured pieces; without, the plain line.
pub open spec fn renders_line(
    text: Seq<char>,
    address: nat,
    chunk: Seq<u8>,
    width: nat,
    config: DumpConfig,
) -> bool {
    exists|style: Styling|
        style.fits(chunk.len()) && (config.use_color || style == Styling::plain(chunk.len()))
            && text == #[trigger] line_text(
            address,
            chunk,
            width,
            config.bytes_per_line as nat,
            config.uppercase,
            style,
        )
}

/// The bytes of a buffer that are shown when `count` of them are valid: the
/// first `count`, or all of them where the buffer is shorter.
pub open spec fn valid_bytes(buff: Seq<u8>, count: nat) -> Seq<u8> {
    if count <= buff.len() {
        buff.take(count as int)
    } else {
        buff
    }
}

/// The number of hex digits in the address column for an input of the given
/// size: the logarithm of the size to base 16, rounded up.
pub open spec fn address_digits(size: nat) -> nat
    decreases size,
{
    if size <= 1 {
        0
    } else {
        1 + address_digits((size + 15) / 16)
    }
}

/// Larger exponents give larger powers.
pub proof fn lemma_pow16_grows(a: nat, b: nat)
    requires
        a <= b,
    ensures
        pow16(a) <= pow16(b),
        pow16(a) >= 1,
    decreases b,
{
    if a < b {
        lemma_pow16_grows(a, (b - 1) as nat);
    } else if a > 0 {
        lemma_pow16_grows((a - 1) as nat, (a - 1) as nat);
    }
}

/// The number of address digits is the least exponent whose power of 16
/// reaches the size.
pub proof fn lemma_address_digits_least(size: nat)
    ensures
        pow16(address_digits(size)) >= size,
        address_digits(size) > 0 ==> pow16((address_digits(size) - 1) as nat) < size,
    decreases size,
{
    if size > 1 {
        lemma_address_digits_least((size + 15) / 16);
    }
}

/// Only one exponent is the least whose power of 16 reaches the size.
proof fn lemma_least_exponent_unique(size: nat, a: nat, b: nat)
    requires
        pow16(a) >= size,
        a > 0 ==> pow16((a - 1) as nat) < size,
        pow16(b) >= size,
        b > 0 ==> pow16((b - 1) as nat) < size,
    ensures
        a == b,
{
    if a < b {
        lemma_pow16_grows(a, (b - 1) as nat);
    } else if b < a {
        lemma_pow16_grows(b, (a - 1) as nat);
    }
}

/// The number of hex digits that address every byte of an input of the
/// given size.
pub fn address_width(file_size: u64) -> (w: usize)
    ensures
        w == address_digits(file_size as nat),
        w <= 16,
{
    let mut w: usize = 0;
    let mut power: u128 = 1;
    while power < file_size as u128
        invariant
            power == pow16(w as nat),
            power >= 1,
            w > 0 ==> pow16((w - 1) as nat) < file_size,
            w <= 16,
        decreases 16 * file_size - power,
    {
        proof {
            if w >= 16 {
                lemma_pow16_grows(16, w as nat);
                assert(pow16(16) == 0x1_0000_0000_0000_0000) by {
                    reveal_with_fuel(pow16, 17);
                }
            }
        }
        power = power * 16;
        w = w + 1;
    }
    proof {
        lemma_address_digits_least(file_size as nat);
        lemma_least_exponent_unique(file_size as nat, w as nat, address_digits(file_size as nat));
    }
    w
}

/// Whether a character is a letter or digit of the address and hex columns.
pub open spec fn is_word_char(c: char) -> bool {
    0x30 <= c as u32 <= 0x7a
}

/// The hex digits of a number are letters and digits, and at least one.
pub proof fn lemma_hex_digits_are_words(n: nat, upper: bool)
    ensures
        forall|i: int|
            0 <= i < hex_digits(n, upper).len() ==> is_word_char(#[trigger] hex_digits(n, upper)[i]),
        hex_digits(n, upper).len() >= 1,
    decreases n,
{
    if n >= 16 {
        lemma_hex_digits_are_words(n / 16, upper);
    }
}

/// The address column is made of letters and digits: `0x`, and after it the
/// digits of the address or `width` digits, whichever is more.
pub proof fn lemma_address_is_words(address: nat, width: nat, upper: bool)
    ensures
        forall|i: int|
            0 <= i < address_text(address, width, upper).len() ==> is_word_char(
                #[trigger] address_text(address, width, upper)[i],
            ),
        address_text(address, width, upper).len() >= 3,
        address_text(address, width, upper).len() == 2 + if hex_digits(address, upper).len()
            >= width {
            hex_digits(address, upper).len()
        } else {
            width
        },
{
    lemma_hex_digits_are_words(address, upper);
}

fn digit_char(v: usize, upper: bool) -> (c: char)
    requires
        v < 16,
    ensures
        c == hex_digit(v as int, upper),
{
    let v: u8 = v as u8;
    if v < 10 {
        (0x30 + v) as char
    } else if upper {
        (0x41 + v - 10) as char
    } else {
        (0x61 + v - 10) as char
    }
}

fn push_hex_digits(digits: &mut Vec<char>, n: usize, upper: bool)
    ensures
        final(digits)@ == old(digits)@ + hex_digits(n as nat, upper),
    decreases n,
{
    if n >= 16 {
        push_hex_digits(digits, n / 16, upper);
    }
    digits.push(digit_char(n % 16, upper));
}

/// The address column of a line: `0x` and the address in hex, with zeros
/// before it up to `trailing_zeroes` digits; coloured where colour is asked
/// for and applied.
pub fn addr_line(addr: usize, trailing_zeroes: usize, uppercase: bool, use_color: bool) -> (text:
    String)
    ensures
        text@ == address_text(addr as nat, trailing_zeroes as nat, uppercase) || (use_color
            && text@ == painted(
            address_text(addr as nat, trailing_zeroes as nat, uppercase),
            Color::BrightBlack,
        )),
{
    let mut digits: Vec<char> = Vec::new();
    push_hex_digits(&mut digits, addr, uppercase);
    let mut text = String::new();
    push_char(&mut text, '0');
    push_char(&mut text, 'x');
    let mut filled: usize = digits.len();
    while filled < trailing_zeroes
        invariant
            digits.len() <= filled,
            filled <= trailing_zeroes || filled == digits.len(),
            text@ == seq!['0', 'x'] + Seq::new((filled - digits.len()) as nat, |i: int| '0'),
        decreases trailing_zeroes - filled,
    {
        push_char(&mut text, '0');
        filled = filled + 1;
    }
    let ghost zeros: Seq<char> = text@;
    let mut i: usize = 0;
    while i < digits.len()
        invariant
            i <= digits.len(),
            text@ == zeros + digits@.take(i as int),
        decreases digits.len() - i,
    {
        push_char(&mut text, digits[i]);
        i = i + 1;
    }
    proof {
        assert(text@ == address_text(addr as nat, trailing_zeroes as nat, uppercase));
        lemma_address_is_words(addr as nat, trailing_zeroes as nat, uppercase);
    }
    text.apply_if(
        use_color,
        |plain: String| -> (r: String)
            requires
                !plain@.contains(ESCAPE),
            ensures
                may_show(r@, plain@, Color::BrightBlack)
            { paint(plain.as_str(), Color::BrightBlack) },
    )
}

/// The hex column of the first `bytes_read` bytes of a buffer: two hex
/// digits per byte, in upper case where asked for, coloured by the byte where
/// colour is asked for and applied, with single spaces between the pairs.
pub fn hex_line(buff: &[u8], bytes_read: usize, uppercase: bool, use_color: bool) -> (line: String)
    ensures
        renders_hex(line@, valid_bytes(buff@, bytes_read as nat), uppercase, use_color),
{
    let encoded = encode_hex(buff);
    let digits = chars_of(encoded.as_str());
    let count: usize = if bytes_read <= buff.len() {
        bytes_read
    } else {
        buff.len()
    };
    let ghost bytes: Seq<u8> = valid_bytes(buff@, bytes_read as nat);
    let ghost mut lit: Seq<bool> = Seq::empty();
    let mut line = String::new();
    let mut i: usize = 0;
    while i < count
        invariant
            i <= count <= buff.len(),
            digits@ == hex_text(buff@, false),
            digits.len() == 2 * buff.len(),
            bytes == buff@.take(count as int),
            lit.len() == i,
            use_color || lit == unlit(i as nat),
            line@ == hex_column(bytes.take(i as int), uppercase, lit),
        decreases count - i,
    {
        let byte: u8 = buff[i];
        let color = get_color(byte);
        let high: char = digits[2 * i];
        let low: char = digits[2 * i + 1];
        let high: char = high.apply_if(uppercase, to_ascii_upper);
        let low: char = low.apply_if(uppercase, to_ascii_upper);
        let mut pair = String::new();
        push_char(&mut pair, high);
        push_char(&mut pair, low);
        proof {
            lemma_hex_digit_value(byte as int / 16, uppercase);
            lemma_hex_digit_value(byte as int % 16, uppercase);
            assert(pair@ == hex_pair(byte, uppercase));
            lemma_pair_chars(byte, uppercase);
        }
        let cell = pair.apply_if(
            use_color,
            |plain: String| -> (r: String)
                requires
                    !plain@.contains(ESCAPE),
                ensures
                    may_show(r@, plain@, color)
                { paint(plain.as_str(), color) },
        );
        if i > 0 {
            push_char(&mut line, ' ');
        }
        line.append(cell.as_str());
        proof {
            let was: Seq<bool> = lit;
            let on: bool = cell@ != hex_pair(byte, uppercase);
            lit = lit.push(on);
            let seen: Seq<u8> = bytes.take(i + 1);
            assert(seen.drop_last() == bytes.take(i as int));
            assert(lit.drop_last() == was);
        }
        i = i + 1;
    }
    assert(bytes.take(i as int) == bytes);
    line
}

/// The glyph column of the first `bytes_read` bytes of a buffer: one glyph
/// per byte, coloured by the byte where colour is asked for and applied.
pub fn ascii_line(buff: &[u8], bytes_read: usize, use_color: bool) -> (line: String)
    ensures
        renders_glyphs(line@, valid_bytes(buff@, bytes_read as nat), use_color),
{
    let count: usize = if bytes_read <= buff.len() {
        bytes_read
    } else {
        buff.len()
    };
    let ghost bytes: Seq<u8> = valid_bytes(buff@, bytes_read as nat);
    let ghost mut lit: Seq<bool> = Seq::empty();
    let mut line = String::new();
    let mut i: usize = 0;
    while i < count
        invariant
            i <= count <= buff.len(),
            bytes == buff@.take(count as int),
            lit.len() == i,
            use_color || lit == unlit(i as nat),
            line@ == glyph_column(bytes.take(i as int), lit),
        decreases count - i,
    {
        let byte: u8 = buff[i];
        let color = get_color(byte);
        let glyph = get_ascii(byte);
        proof {
            lemma_glyph_char(byte);
        }
        let cell = glyph.apply_if(
            use_color,
            |plain: String| -> (r: String)
                requires
                    !plain@.contains(ESCAPE),
                ensures
                    may_show(r@, plain@, color)
                { paint(plain.as_str(), color) },
        );
        line.append(cell.as_str());
        proof {
            let was: Seq<bool> = lit;
            let on: bool = cell@ != seq![glyph_of(byte)];
            lit = lit.push(on);
            let seen: Seq<u8> = bytes.take(i + 1);
            assert(seen.drop_last() == bytes.take(i as int));
            assert(lit.drop_last() == was);
        }
        i = i + 1;
    }
    assert(bytes.take(i as int) == bytes);
    line
}

/// The separator between two columns, coloured where colour is asked for and
/// applied.
pub fn separator(use_color: bool) -> (text: String)
    ensures
        text@ == seq![SEPARATOR] || (use_color && text@ == painted(
            seq![SEPARATOR],
            Color::BrightBlack,
        )),
{
    let mut text = String::new();
    push_char(&mut text, SEPARATOR);
    text.apply_if(
        use_color,
        |plain: String| -> (r: String)
            requires
                !plain@.contains(ESCAPE),
            ensures
                may_show(r@, plain@, Color::BrightBlack)
            { paint(plain.as_str(), Color::BrightBlack) },
    )
}

/// Formats one line for a chunk of bytes that stands at `address`. The hex
/// column of a chunk shorter than a full line is filled up with spaces, so
/// that the glyph column starts where it does on a full line.
pub fn format_line(address: usize, chunk: &[u8], width: usize, config: &DumpConfig) -> (line:
    String)
    requires
        1 <= chunk.len() <= config.bytes_per_line,
    ensures
        renders_line(line@, address as nat, chunk@, width as nat, *config),
        !config.use_color ==> line@ == plain_line(
            address as nat,
            chunk@,
            width as nat,
            config.bytes_per_line as nat,
            config.uppercase,
        ),
{
    let addr = addr_line(address, width, config.uppercase, config.use_color);
    let sep = separator(config.use_color);
    let hex = hex_line(chunk, chunk.len(), config.uppercase, config.use_color);
    let ascii = ascii_line(chunk, chunk.len(), config.use_color);
    let ghost plain_addr: Seq<char> = address_text(address as nat, width as nat, config.uppercase);
    assert(valid_bytes(chunk@, chunk@.len()) == chunk@);
    let ghost hex_lit: Seq<bool> = choose|lit: Seq<bool>|
        lit.len() == chunk@.len() && (config.use_color || lit == unlit(chunk@.len())) && hex@
            == #[trigger] hex_column(chunk@, config.uppercase, lit);
    let ghost glyph_lit: Seq<bool> = choose|lit: Seq<bool>|
        lit.len() == chunk@.len() && (config.use_color || lit == unlit(chunk@.len())) && ascii@
            == #[trigger] glyph_column(chunk@, lit);
    let ghost style: Styling = Styling {
        address: addr@ != plain_addr,
        separator: sep@ != seq![SEPARATOR],
        hex: hex_lit,
        glyphs: glyph_lit,
    };
    let mut line = String::new();
    push_char(&mut line, ' ');
    line.append(addr.as_str());
    push_char(&mut line, ' ');
    line.append(sep.as_str());
    push_char(&mut line, ' ');
    line.append(hex.as_str());
    let ghost before: Seq<char> = line@;
    let missing: usize = config.bytes_per_line - chunk.len();
    let mut filled: usize = 0;
    while filled < missing
        invariant
            filled <= missing,
            line@ == before + padding(filled as nat),
        decreases missing - filled,
    {
        push_char(&mut line, ' ');
        push_char(&mut line, ' ');
        push_char(&mut line, ' ');
        filled = filled + 1;
    }
    push_char(&mut line, ' ');
    line.append(sep.as_str());
    push_char(&mut line, ' ');
    line.append(ascii.as_str());
    push_char(&mut line, '\n');
    proof {
        assert(line@ == line_text(
            address as nat,
            chunk@,
            width as nat,
            config.bytes_per_line as nat,
            config.uppercase,
            style,
        ));
    }
    line
}

/// A hex pair holds no escape character.
proof fn lemma_pair_chars(byte: u8, upper: bool)
    ensures
        !hex_pair(byte, upper).contains(ESCAPE),
{
}

/// A glyph is no escape character.
proof fn lemma_glyph_char(byte: u8)
    ensures
        !seq![glyph_of(byte)].contains(ESCAPE),
{
}

} // verus!
