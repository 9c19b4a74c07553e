//! A range of byte offsets, written `start-end`.

use vstd::prelude::*;
use crate::error::{DumpError, DumpErrorView};
use crate::text::{chars_of, split, split_fields, views};
use crate::util::{parse_num_chars, parsed_number};

verus! {

/// The offsets from `start` up to, not including, `end`.
#[derive(Debug, Clone, Copy, PartialEq, Eq, Structural)]
pub struct ByteRange {
    pub start: usize,
    pub end: usize,
}

/// What a range text denotes. The text must have exactly two fields around
/// one `-`; each is a number literal; the end may not lie before the start.
pub open spec fn parsed_range(s: Seq<char>) -> Result<ByteRange, DumpErrorView> {
    let parts: Seq<Seq<char>> = split(s, '-');
    if parts.len() != 2 {
        Err(DumpErrorView::InvalidRange)
    } else {
        match (parsed_number(parts[0]), parsed_number(parts[1])) {
            (Ok(start), Ok(end)) => if start <= end {
                Ok(ByteRange { start, end })
            } else {
                Err(DumpErrorView::InvalidRange)
            },
            _ => Err(DumpErrorView::InvalidNumber),
        }
    }
}

impl ByteRange {
    /// Whether the end lies at or after the start.
    pub open spec fn well_formed(&self) -> bool {
        self.start <= self.end
    }

    /// The number of offsets in the range.
    pub open spec fn count(&self) -> nat {
        (self.end - self.start) as nat
    }

    /// Parses a range written as `start-end`, each side a `0x`-prefixed
    /// hexadecimal number or a decimal number.
    pub fn from_str(s: &str) -> (r: Result<ByteRange, DumpError>)
        ensures
            match parsed_range(s@) {
                Ok(range) => r == Ok::<ByteRange, DumpError>(range) && range.well_formed(),
                Err(e) => r matches Err(f) && f@ == e,
            },
    {
        let chars = chars_of(s);
        let parts = split_fields(chars.as_slice(), '-');
        if parts.len() != 2 {
            return Err(DumpError::InvalidRange);
        }
        let start = parse_num_chars(parts[0].as_slice());
        let end = parse_num_chars(parts[1].as_slice());
        match (start, end) {
            (Ok(start), Ok(end)) => {
                if start <= end {
                    Ok(ByteRange { start, end })
                } else {
                    Err(DumpError::InvalidRange)
                }
            },
            _ => Err(DumpError::InvalidNumber),
        }
    }
}

impl Default for ByteRange {
    /// The empty range at offset 0.
    fn default() -> (range: ByteRange)
        ensures
            range == (ByteRange { start: 0, end: 0 }),
    {
        ByteRange { start: 0, end: 0 }
    }
}

impl std::str::FromStr for ByteRange {
    type Err = DumpError;

    fn from_str(s: &str) -> (r: Result<ByteRange, DumpError>)
        ensures
            match parsed_range(s@) {
                Ok(range) => r == Ok::<ByteRange, DumpError>(range),
                Err(e) => r matches Err(f) && f@ == e,
            },
    {
        ByteRange::from_str(s)
    }
}

} // verus!
