//! The ways in which input to this library can be wrong.

use vstd::prelude::*;

verus! {

/// Why a range, a number or a dump line was rejected.
#[derive(Debug, PartialEq, Eq)]
pub enum DumpError {
    /// A range that is not of the form `start-end`, or whose end lies before
    /// its start.
    InvalidRange,
    /// Text that is neither a `0x`-prefixed hexadecimal number nor a decimal
    /// number, or a number too large for the machine.
    InvalidNumber,
    /// A dump line with more than three fields; `line` counts from 1.
    UnrecognizedLineFormat { line: usize },
    /// A hex field that is not a sequence of hex digit pairs; `text` is the
    /// field without its spaces, `line` counts from 1.
    InvalidHex { text: String, line: usize },
}

/// A `DumpError` as contracts see it.
pub enum DumpErrorView {
    InvalidRange,
    InvalidNumber,
    UnrecognizedLineFormat { line: nat },
    InvalidHex { text: Seq<char>, line: nat },
}

impl View for DumpError {
    type V = DumpErrorView;

    open spec fn view(&self) -> DumpErrorView {
        match self {
            DumpError::InvalidRange => DumpErrorView::InvalidRange,
            DumpError::InvalidNumber => DumpErrorView::InvalidNumber,
            DumpError::UnrecognizedLineFormat { line } => DumpErrorView::UnrecognizedLineFormat {
                line: *line as nat,
            },
            DumpError::InvalidHex { text, line } => DumpErrorView::InvalidHex {
                text: text@,
                line: *line as nat,
            },
        }
    }
}

} // verus!
