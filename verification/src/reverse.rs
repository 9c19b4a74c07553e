//! From display lines back to bytes: which field of a line holds the hex
//! digits, and what they decode to.

use vstd::prelude::*;
use vstd::string::*;
use crate::error::{DumpError, DumpErrorView};
use crate::format::SEPARATOR;
use crate::hexcode::{decode_hex, hex_bytes, is_hex_text};
use crate::text::{chars_of, split, split_fields, string_of, texts, views};

verus! {

/// Whether a character is white space, as Unicode defines it.
pub open spec fn is_white_space(c: char) -> bool {
    let u: u32 = c as u32;
    (0x09 <= u <= 0x0d) || u == 0x20 || u == 0x85 || u == 0xa0 || u == 0x1680 || (0x2000 <= u
        <= 0x200a) || u == 0x2028 || u == 0x2029 || u == 0x202f || u == 0x205f || u == 0x3000
}

/// A text without the white space at its start.
pub open spec fn trim_start(s: Seq<char>) -> Seq<char>
    decreases s.len(),
{
    if s.len() > 0 && is_white_space(s[0]) {
        trim_start(s.drop_first())
    } else {
        s
    }
}

/// A text without the white space at its end.
pub open spec fn trim_end(s: Seq<char>) -> Seq<char>
    decreases s.len(),
{
    if s.len() > 0 && is_white_space(s.last()) {
        trim_end(s.drop_last())
    } else {
        s
    }
}

/// A text without the white space at either end.
pub open spec fn trim(s: Seq<char>) -> Seq<char> {
    trim_end(trim_start(s))
}

/// A text without its space characters.
pub open spec fn without_spaces(s: Seq<char>) -> Seq<char>
    decreases s.len(),
{
    if s.len() == 0 {
        s
    } else if s.last() == ' ' {
        without_spaces(s.drop_last())
    } else {
        without_spaces(s.drop_last()).push(s.last())
    }
}

/// The field of a line that holds its hex digits: the whole line where it
/// has no separator, the second field where it has two or three fields.
/// `None` where it has more. White space around the line does not count.
pub open spec fn payload(line: Seq<char>) -> Option<Seq<char>> {
    let fields: Seq<Seq<char>> = split(trim(line), SEPARATOR);
    if fields.len() == 1 {
        Some(fields[0])
    } else if fields.len() == 2 || fields.len() == 3 {
        Some(fields[1])
    } else {
        None
    }
}

/// What a line decodes to, as the line with the given number: the bytes that
/// the hex digits of its payload denote, spaces in it set aside.
pub open spec fn decoded_line(line: Seq<char>, number: nat) -> Result<Seq<u8>, DumpErrorView> {
    match payload(line) {
        None => Err(DumpErrorView::UnrecognizedLineFormat { line: number }),
        Some(field) => {
            let digits: Seq<char> = without_spaces(field);
            if is_hex_text(digits) {
                Ok(hex_bytes(digits))
            } else {
                Err(DumpErrorView::InvalidHex { text: digits, line: number })
            }
        },
    }
}

/// What a sequence of lines decodes to: the bytes of all lines, in order;
/// or the error of the first line that has one, with that line's number,
/// counted from 1.
pub open spec fn decoded(lines: Seq<Seq<char>>) -> Result<Seq<u8>, DumpErrorView>
    decreases lines.len(),
{
    if lines.len() == 0 {
        Ok(Seq::empty())
    } else {
        match decoded(lines.drop_last()) {
            Err(e) => Err(e),
            Ok(bytes) => match decoded_line(lines.last(), lines.len()) {
                Ok(more) => Ok(bytes + more),
                Err(e) => Err(e),
            },
        }
    }
}

/// Whether a character is white space, as Unicode defines it.
pub fn is_whitespace(c: char) -> (b: bool)
    ensures
        b == is_white_space(c),
{
    let u: u32 = c as u32;
    (0x09 <= u && u <= 0x0d) || u == 0x20 || u == 0x85 || u == 0xa0 || u == 0x1680 || (0x2000 <= u
        && u <= 0x200a) || u == 0x2028 || u == 0x2029 || u == 0x202f || u == 0x205f || u
        == 0x3000
}

/// Finds what is left of a text when the white space at both ends is taken
/// away: the characters from `bounds.0` up to `bounds.1`.
pub fn trim_bounds(chars: &[char]) -> (bounds: (usize, usize))
    ensures
        bounds.0 <= bounds.1 <= chars.len(),
        chars@.subrange(bounds.0 as int, bounds.1 as int) == trim(chars@),
{
    let mut lo: usize = 0;
    assert(chars@.skip(0) == chars@);
    while lo < chars.len() && is_whitespace(chars[lo])
        invariant
            lo <= chars.len(),
            trim_start(chars@) == trim_start(chars@.skip(lo as int)),
        decreases chars.len() - lo,
    {
        assert(chars@.skip(lo as int).drop_first() == chars@.skip(lo + 1));
        lo = lo + 1;
    }
    let ghost rest: Seq<char> = chars@.skip(lo as int);
    let mut hi: usize = chars.len();
    while hi > lo && is_whitespace(chars[hi - 1])
        invariant
            lo <= hi <= chars.len(),
            trim_end(rest) == trim_end(chars@.subrange(lo as int, hi as int)),
        decreases hi - lo,
    {
        assert(chars@.subrange(lo as int, hi as int).drop_last() == chars@.subrange(
            lo as int,
            hi - 1,
        ));
        hi = hi - 1;
    }
    (lo, hi)
}

/// Copies a text without its space characters.
pub fn strip_spaces(chars: &[char]) -> (kept: Vec<char>)
    ensures
        kept@ == without_spaces(chars@),
{
    let mut kept: Vec<char> = Vec::new();
    let mut i: usize = 0;
    while i < chars.len()
        invariant
            i <= chars.len(),
            kept@ == without_spaces(chars@.take(i as int)),
        decreases chars.len() - i,
    {
        assert(chars@.take(i + 1).drop_last() == chars@.take(i as int));
        if chars[i] != ' ' {
            kept.push(chars[i]);
        }
        i = i + 1;
    }
    assert(chars@.take(i as int) == chars@);
    kept
}

/// Decodes one line of a dump, or of a bare stream of hex digits. `number`
/// is the line's number, which an error reports.
pub fn decode_line(line: &str, number: usize) -> (r: Result<Vec<u8>, DumpError>)
    ensures
        match decoded_line(line@, number as nat) {
            Ok(bytes) => r matches Ok(v) && v@ == bytes,
            Err(e) => r matches Err(f) && f@ == e,
        },
{
    let chars = chars_of(line);
    let (lo, hi) = trim_bounds(chars.as_slice());
    let fields = split_fields(&chars.as_slice()[lo..hi], SEPARATOR);
    let count: usize = fields.len();
    let field: &Vec<char> = if count == 1 {
        &fields[0]
    } else if count == 2 || count == 3 {
        &fields[1]
    } else {
        return Err(DumpError::UnrecognizedLineFormat { line: number });
    };
    assert(payload(line@) == Some(field@));
    let digits = strip_spaces(field.as_slice());
    let text = string_of(digits.as_slice());
    match decode_hex(text.as_str()) {
        Ok(bytes) => Ok(bytes),
        Err(_) => Err(DumpError::InvalidHex { text, line: number }),
    }
}

/// The state of a reverse run: the bytes decoded so far, and the number of
/// lines they came from.
#[derive(Debug)]
pub struct Reverse {
    pub bytes: Vec<u8>,
    pub lines: usize,
}

impl Reverse {
    /// The state before the first line.
    pub fn new() -> (state: Reverse)
        ensures
            state.bytes@ == Seq::<u8>::empty(),
            state.lines == 0,
    {
        Reverse { bytes: Vec::new(), lines: 0 }
    }

    /// Takes the next line. Where it decodes, its bytes are added at the end
    /// and the line is counted; where it does not, the error carries its
    /// number and the state stays as it was.
    pub fn feed(&mut self, line: &str) -> (r: Result<(), DumpError>)
        requires
            old(self).lines < usize::MAX,
        ensures
            match decoded_line(line@, (old(self).lines + 1) as nat) {
                Ok(more) => r is Ok && final(self).lines == old(self).lines + 1 && final(self).bytes@
                    == old(self).bytes@ + more,
                Err(e) => r matches Err(f) && f@ == e && final(self).bytes@ == old(self).bytes@
                    && final(self).lines == old(self).lines,
            },
    {
        match decode_line(line, self.lines + 1) {
            Ok(mut more) => {
                self.bytes.append(&mut more);
                self.lines = self.lines + 1;
                Ok(())
            },
            Err(e) => Err(e),
        }
    }

    /// Ends the run and hands out the bytes.
    pub fn finish(self) -> (bytes: Vec<u8>)
        ensures
            bytes@ == self.bytes@,
    {
        self.bytes
    }
}

/// Decodes the lines of a dump, in order, into the bytes that it shows.
pub fn reverse_lines(lines: &[String]) -> (r: Result<Vec<u8>, DumpError>)
    ensures
        match decoded(texts(lines@)) {
            Ok(bytes) => r matches Ok(v) && v@ == bytes,
            Err(e) => r matches Err(f) && f@ == e,
        },
{
    let mut state = Reverse::new();
    let mut i: usize = 0;
    while i < lines.len()
        invariant
            i <= lines.len(),
            state.lines == i,
            decoded(texts(lines@).take(i as int)) == Ok::<Seq<u8>, DumpErrorView>(state.bytes@),
        decreases lines.len() - i,
    {
        let ghost seen: Seq<Seq<char>> = texts(lines@).take(i + 1);
        proof {
            assert(seen.drop_last() == texts(lines@).take(i as int));
            lemma_decoded_prefix(texts(lines@), i + 1);
        }
        match state.feed(lines[i].as_str()) {
            Ok(()) => {},
            Err(e) => {
                return Err(e);
            },
        }
        i = i + 1;
    }
    assert(texts(lines@).take(i as int) == texts(lines@));
    Ok(state.finish())
}

/// An error among the first lines is the error of the whole.
pub proof fn lemma_decoded_prefix(lines: Seq<Seq<char>>, k: int)
    requires
        0 <= k <= lines.len(),
    ensures
        decoded(lines.take(k)) matches Err(e) ==> decoded(lines) == Err::<Seq<u8>, DumpErrorView>(e),
    decreases lines.len() - k,
{
    if k == lines.len() {
        assert(lines.take(k) == lines);
    } else {
        assert(lines.drop_last().take(k) == lines.take(k));
        lemma_decoded_prefix(lines.drop_last(), k);
    }
}

} // verus!
