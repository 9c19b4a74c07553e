//! Number literals, and a combinator for conditional transformations.

use vstd::prelude::*;
use crate::error::{DumpError, DumpErrorView};
use crate::text::chars_of;

verus! {

/// The value of a character as a digit in the given radix, if it is one.
/// Digits are `0` to `9`, then the letters in either case, as far as the
/// radix reaches.
pub open spec fn digit_of(c: char, radix: nat) -> Option<nat> {
    let u: int = c as u32 as int;
    let v: int = if 0x30 <= u <= 0x39 {
        u - 0x30
    } else if 0x61 <= u <= 0x7a {
        u - 0x61 + 10
    } else if 0x41 <= u <= 0x5a {
        u - 0x41 + 10
    } else {
        36
    };
    if v < radix {
        Some(v as nat)
    } else {
        None
    }
}

/// Whether every character is a digit in the given radix.
pub open spec fn all_digits(s: Seq<char>, radix: nat) -> bool {
    forall|i: int| 0 <= i < s.len() ==> (#[trigger] digit_of(s[i], radix)) is Some
}

/// The number that a sequence of digits denotes, most significant digit first.
pub open spec fn digits_value(s: Seq<char>, radix: nat) -> nat
    decreases s.len(),
{
    if s.len() == 0 {
        0
    } else {
        let last: nat = match digit_of(s.last(), radix) {
            Some(d) => d,
            None => 0,
        };
        digits_value(s.drop_last(), radix) * radix + last
    }
}

/// The value of an unsigned literal: an optional `+`, then at least one digit
/// and nothing but digits. `None` where the text is no such literal.
pub open spec fn unsigned_literal(s: Seq<char>, radix: nat) -> Option<nat> {
    let body: Seq<char> = if s.len() > 0 && s[0] == '+' {
        s.skip(1)
    } else {
        s
    };
    if body.len() > 0 && all_digits(body, radix) {
        Some(digits_value(body, radix))
    } else {
        None
    }
}

/// Whether the text starts with the hexadecimal prefix `0x`.
pub open spec fn has_hex_prefix(s: Seq<char>) -> bool {
    s.len() >= 2 && s[0] == '0' && s[1] == 'x'
}

/// The value of a number literal: hexadecimal after a `0x` prefix, decimal
/// otherwise.
pub open spec fn number_of(s: Seq<char>) -> Option<nat> {
    if has_hex_prefix(s) {
        unsigned_literal(s.skip(2), 16)
    } else {
        unsigned_literal(s, 10)
    }
}

/// What parsing a number literal gives: its value where it has one that fits
/// the machine, `InvalidNumber` otherwise.
pub open spec fn parsed_number(s: Seq<char>) -> Result<usize, DumpErrorView> {
    match number_of(s) {
        Some(n) => if n <= usize::MAX {
            Ok(n as usize)
        } else {
            Err(DumpErrorView::InvalidNumber)
        },
        None => Err(DumpErrorView::InvalidNumber),
    }
}

/// A longer digit sequence denotes no smaller a number than its prefixes.
proof fn lemma_digits_value_grows(s: Seq<char>, k: int, radix: nat)
    requires
        0 <= k <= s.len(),
        radix >= 1,
    ensures
        digits_value(s.take(k), radix) <= digits_value(s, radix),
    decreases s.len() - k,
{
    if k == s.len() {
        assert(s.take(k) == s);
    } else {
        lemma_digits_value_grows(s.drop_last(), k, radix);
        assert(s.drop_last().take(k) == s.take(k));
        let rest: nat = digits_value(s.drop_last(), radix);
        assert(rest * radix >= rest) by (nonlinear_arith)
            requires
                radix >= 1,
        ;
    }
}

fn digit(c: char, radix: u32) -> (d: Option<u32>)
    requires
        2 <= radix <= 36,
    ensures
        match digit_of(c, radix as nat) {
            Some(v) => d == Some(v as u32),
            None => d is None,
        },
{
    let u: u32 = c as u32;
    let v: u32 = if 0x30 <= u && u <= 0x39 {
        u - 0x30
    } else if 0x61 <= u && u <= 0x7a {
        u - 0x61 + 10
    } else if 0x41 <= u && u <= 0x5a {
        u - 0x41 + 10
    } else {
        36
    };
    if v < radix {
        Some(v)
    } else {
        None
    }
}

/// Reads an unsigned literal in the given radix from `chars`, starting at
/// index `from`.
pub fn parse_radix(chars: &[char], from: usize, radix: u32) -> (r: Option<usize>)
    requires
        from <= chars.len(),
        2 <= radix <= 36,
    ensures
        match unsigned_literal(chars@.skip(from as int), radix as nat) {
            Some(n) => if n <= usize::MAX {
                r == Some(n as usize)
            } else {
                r is None
            },
            None => r is None,
        },
{
    let ghost text: Seq<char> = chars@.skip(from as int);
    let start: usize = if from < chars.len() && chars[from] == '+' {
        from + 1
    } else {
        from
    };
    let ghost body: Seq<char> = chars@.skip(start as int);
    assert(body == if text.len() > 0 && text[0] == '+' {
        text.skip(1)
    } else {
        text
    });
    if start == chars.len() {
        return None;
    }
    let mut value: usize = 0;
    let mut i: usize = start;
    while i < chars.len()
        invariant
            start <= i <= chars.len(),
            2 <= radix <= 36,
            body == chars@.skip(start as int),
            text == chars@.skip(from as int),
            body == if text.len() > 0 && text[0] == '+' {
                text.skip(1)
            } else {
                text
            },
            all_digits(body.take(i - start), radix as nat),
            value == digits_value(body.take(i - start), radix as nat),
        decreases chars.len() - i,
    {
        let ghost seen: Seq<char> = body.take(i - start);
        let ghost next: Seq<char> = body.take(i - start + 1);
        proof {
            assert(next.drop_last() == seen);
            lemma_digits_value_grows(body, i - start + 1, radix as nat);
            assert(digits_value(next, radix as nat) == value * radix + match digit_of(
                next.last(),
                radix as nat,
            ) {
                Some(d) => d,
                None => 0,
            });
        }
        match digit(chars[i], radix) {
            None => {
                return None;
            },
            Some(d) => {
                let scaled: usize = match value.checked_mul(radix as usize) {
                    Some(m) => m,
                    None => {
                        return None;
                    },
                };
                value = match scaled.checked_add(d as usize) {
                    Some(a) => a,
                    None => {
                        return None;
                    },
                };
                assert forall|j: int| 0 <= j < next.len() implies (#[trigger] digit_of(
                    next[j],
                    radix as nat,
                )) is Some by {
                    assert(j < seen.len() ==> next[j] == seen[j]);
                }
            },
        }
        i = i + 1;
    }
    assert(body.take(i - start) == body);
    Some(value)
}

/// Parses a number literal: hexadecimal after a `0x` prefix, decimal otherwise.
pub fn parse_num(input: &str) -> (r: Result<usize, DumpError>)
    ensures
        match parsed_number(input@) {
            Ok(n) => r == Ok::<usize, DumpError>(n),
            Err(e) => r matches Err(f) && f@ == e,
        },
{
    let chars = chars_of(input);
    parse_num_chars(chars.as_slice())
}

/// Parses a number literal given as characters.
pub fn parse_num_chars(chars: &[char]) -> (r: Result<usize, DumpError>)
    ensures
        match parsed_number(chars@) {
            Ok(n) => r == Ok::<usize, DumpError>(n),
            Err(e) => r matches Err(f) && f@ == e,
        },
{
    let parsed = if chars.len() >= 2 && chars[0] == '0' && chars[1] == 'x' {
        parse_radix(chars, 2, 16)
    } else {
        assert(chars@.skip(0) == chars@);
        parse_radix(chars, 0, 10)
    };
    match parsed {
        Some(n) => Ok(n),
        None => Err(DumpError::InvalidNumber),
    }
}

/// Applies a transformation to a value only where a condition holds.
pub trait ApplyIf: Sized {
    /// `f(self)` where `condition` holds, `self` unchanged where it does not.
    fn apply_if<F>(self, condition: bool, f: F) -> (r: Self) where F: FnOnce(Self) -> Self
        requires
            condition ==> f.requires((self,)),
        ensures
            condition ==> f.ensures((self,), r),
            !condition ==> r == self,
    ;
}

impl<T> ApplyIf for T {
    fn apply_if<F>(self, condition: bool, f: F) -> (r: Self) where F: FnOnce(Self) -> Self {
        if condition {
            f(self)
        } else {
            self
        }
    }
}

} // verus!
