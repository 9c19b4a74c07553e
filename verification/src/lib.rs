//! Hex/ASCII dumps of binary data, and the way back from a dump to its bytes.
//!
//! The forward direction renders bytes as display lines of three aligned
//! columns (address, hex, glyphs); the reverse direction reads such lines, or a
//! bare stream of hex digits, and recovers the bytes.

pub mod byte_range;
pub mod classify;
pub mod error;
pub mod format;
pub mod forward;
pub mod hexcode;
pub mod laws;
pub mod paint;
pub mod reverse;
pub mod text;
pub mod util;

pub use byte_range::ByteRange;
pub use classify::{classify, get_ascii, get_color, glyph, Classification, Color};
pub use error::DumpError;
pub use format::{
    addr_line, address_width, ascii_line, format_line, hex_line, separator, DumpConfig, SEPARATOR,
};
pub use forward::{dump, resolve_range, Forward, Window};
pub use reverse::{decode_line, is_whitespace, reverse_lines, strip_spaces, trim_bounds, Reverse};
pub use text::{chars_of, split_fields, string_of};
pub use util::{parse_num, parse_num_chars, parse_radix, ApplyIf};
