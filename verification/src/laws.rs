//! What holds of the two directions together: a plain dump decodes to the
//! bytes it was made from, and its columns stand where they stand on a full
//! line.

use vstd::prelude::*;
use crate::classify::glyph_of;
use crate::error::DumpErrorView;
use crate::format::{
    address_text, glyph_column, hex_column, hex_digits, is_word_char, lemma_address_is_words,
    padding, plain_line, pow16, unlit, SEPARATOR,
};
use crate::forward::{chunk_at, dump_lines, lemma_line_count_bounds, line_count, windowed, Window};
use crate::hexcode::{hex_pair, hex_text, lemma_hex_text_denotes};
use crate::reverse::{
    decoded, decoded_line, is_white_space, lemma_decoded_prefix, payload, trim, trim_end,
    trim_start, without_spaces,
};
use crate::text::{lemma_split_last_field, lemma_split_without_separator, split};

verus! {

/// Taking the spaces out of a text takes them out of its parts.
pub proof fn lemma_without_spaces_add(a: Seq<char>, b: Seq<char>)
    ensures
        without_spaces(a + b) == without_spaces(a) + without_spaces(b),
    decreases b.len(),
{
    if b.len() == 0 {
    } else {
        lemma_without_spaces_add(a, b.drop_last());
        assert((a + b).drop_last() == a + b.drop_last());
        if b.last() != ' ' {
            assert((without_spaces(a) + without_spaces(b.drop_last())).push(b.last())
                == without_spaces(a) + without_spaces(b.drop_last()).push(b.last()));
        }
    }
}

/// Nothing is left of a text of spaces.
pub proof fn lemma_without_spaces_of_spaces(s: Seq<char>)
    requires
        forall|i: int| 0 <= i < s.len() ==> s[i] == ' ',
    ensures
        without_spaces(s) == Seq::<char>::empty(),
    decreases s.len(),
{
    if s.len() > 0 {
        lemma_without_spaces_of_spaces(s.drop_last());
    }
}

/// A text without spaces stays as it is.
pub proof fn lemma_without_spaces_of_words(s: Seq<char>)
    requires
        forall|i: int| 0 <= i < s.len() ==> s[i] != ' ',
    ensures
        without_spaces(s) == s,
    decreases s.len(),
{
    if s.len() > 0 {
        lemma_without_spaces_of_words(s.drop_last());
    }
}

/// The plain hex column of `n` bytes: `3n - 1` characters, each a hex digit
/// or a space, which without the spaces are the hex digits of the bytes.
pub proof fn lemma_plain_hex_column(bytes: Seq<u8>, upper: bool)
    ensures
        hex_column(bytes, upper, unlit(bytes.len())).len() == if bytes.len() == 0 {
            0
        } else {
            3 * bytes.len() - 1
        },
        forall|i: int|
            0 <= i < hex_column(bytes, upper, unlit(bytes.len())).len() ==> {
                let c: char = #[trigger] hex_column(bytes, upper, unlit(bytes.len()))[i];
                c == ' ' || is_word_char(c)
            },
        without_spaces(hex_column(bytes, upper, unlit(bytes.len()))) == hex_text(bytes, upper),
    decreases bytes.len(),
{
    let n: nat = bytes.len();
    let column: Seq<char> = hex_column(bytes, upper, unlit(n));
    if n == 0 {
    } else {
        let front: Seq<u8> = bytes.drop_last();
        let pair: Seq<char> = hex_pair(bytes.last(), upper);
        assert(unlit(n).drop_last() == unlit(front.len()));
        lemma_plain_hex_column(front, upper);
        let before: Seq<char> = hex_column(front, upper, unlit(front.len()));
        lemma_without_spaces_of_words(pair);
        if n == 1 {
        } else {
            lemma_without_spaces_add(before + seq![' '], pair);
            lemma_without_spaces_add(before, seq![' ']);
            lemma_without_spaces_of_spaces(seq![' ']);
        }
    }
}

/// The plain glyph column holds the glyph of each byte, and nothing else.
pub proof fn lemma_plain_glyph_column(bytes: Seq<u8>)
    ensures
        glyph_column(bytes, unlit(bytes.len())) == Seq::new(
            bytes.len(),
            |i: int| glyph_of(bytes[i]),
        ),
    decreases bytes.len(),
{
    let n: nat = bytes.len();
    if n > 0 {
        let front: Seq<u8> = bytes.drop_last();
        assert(unlit(n).drop_last() == unlit(front.len()));
        lemma_plain_glyph_column(front);
        assert(glyph_column(bytes, unlit(n)) == Seq::new(front.len(), |i: int| glyph_of(front[i]))
            + seq![glyph_of(bytes.last())]);
    }
}

/// The hex field of a plain line: the hex column, filled up to the width of
/// a full line, with a space on either side.
pub open spec fn hex_field(chunk: Seq<u8>, bytes_per_line: nat, upper: bool) -> Seq<char> {
    seq![' '] + hex_column(chunk, upper, unlit(chunk.len())) + padding(
        (bytes_per_line - chunk.len()) as nat,
    ) + seq![' ']
}

/// A plain line without the space before it and the line feed after it: the
/// address, the hex field and the glyphs, with a separator before and after
/// the hex field.
pub open spec fn line_body(
    address: nat,
    chunk: Seq<u8>,
    width: nat,
    bytes_per_line: nat,
    upper: bool,
) -> Seq<char> {
    (address_text(address, width, upper) + seq![' ']) + seq![SEPARATOR] + hex_field(
        chunk,
        bytes_per_line,
        upper,
    ) + seq![SEPARATOR] + (seq![' '] + glyph_column(chunk, unlit(chunk.len())))
}

/// A plain line is a space, its body and a line feed.
pub proof fn lemma_plain_line_parts(
    address: nat,
    chunk: Seq<u8>,
    width: nat,
    bytes_per_line: nat,
    upper: bool,
)
    ensures
        plain_line(address, chunk, width, bytes_per_line, upper) == seq![' '] + line_body(
            address,
            chunk,
            width,
            bytes_per_line,
            upper,
        ) + seq!['\n'],
{
    assert(plain_line(address, chunk, width, bytes_per_line, upper) =~= seq![' '] + line_body(
        address,
        chunk,
        width,
        bytes_per_line,
        upper,
    ) + seq!['\n']);
}

/// The hex field of a chunk holds no separator, and without its spaces it is
/// the hex text of the chunk.
pub proof fn lemma_hex_field(chunk: Seq<u8>, bytes_per_line: nat, upper: bool)
    ensures
        !hex_field(chunk, bytes_per_line, upper).contains(SEPARATOR),
        without_spaces(hex_field(chunk, bytes_per_line, upper)) == hex_text(chunk, upper),
        hex_field(chunk, bytes_per_line, upper).len() == 2 + (if chunk.len() == 0 {
            0
        } else {
            3 * chunk.len() - 1
        }) + 3 * ((bytes_per_line - chunk.len()) as nat),
{
    let column: Seq<char> = hex_column(chunk, upper, unlit(chunk.len()));
    let fill: Seq<char> = padding((bytes_per_line - chunk.len()) as nat);
    let field: Seq<char> = hex_field(chunk, bytes_per_line, upper);
    lemma_plain_hex_column(chunk, upper);
    assert forall|i: int| 0 <= i < field.len() implies field[i] != SEPARATOR by {
        assert(1 <= i < 1 + column.len() ==> field[i] == column[i - 1]);
    }
    lemma_without_spaces_add(seq![' '] + column + fill, seq![' ']);
    lemma_without_spaces_add(seq![' '] + column, fill);
    lemma_without_spaces_add(seq![' '], column);
    lemma_without_spaces_of_spaces(seq![' ']);
    lemma_without_spaces_of_spaces(fill);
    assert(Seq::<char>::empty() + hex_text(chunk, upper) + Seq::<char>::empty() + Seq::<
        char,
    >::empty() == hex_text(chunk, upper));
}

/// The fields of the body of a plain line: the address, the hex field and
/// the glyphs.
pub proof fn lemma_line_body_fields(
    address: nat,
    chunk: Seq<u8>,
    width: nat,
    bytes_per_line: nat,
    upper: bool,
)
    ensures
        split(line_body(address, chunk, width, bytes_per_line, upper), SEPARATOR) == seq![
            address_text(address, width, upper) + seq![' '],
            hex_field(chunk, bytes_per_line, upper),
            seq![' '] + glyph_column(chunk, unlit(chunk.len())),
        ],
{
    let first: Seq<char> = address_text(address, width, upper) + seq![' '];
    let second: Seq<char> = hex_field(chunk, bytes_per_line, upper);
    let third: Seq<char> = seq![' '] + glyph_column(chunk, unlit(chunk.len()));
    lemma_address_is_words(address, width, upper);
    lemma_hex_field(chunk, bytes_per_line, upper);
    lemma_plain_glyph_column(chunk);
    assert(!first.contains(SEPARATOR)) by {
        assert forall|i: int| 0 <= i < first.len() implies first[i] != SEPARATOR by {
            assert(i < first.len() - 1 ==> first[i] == address_text(address, width, upper)[i]);
        }
    }
    assert(!third.contains(SEPARATOR)) by {
        assert forall|i: int| 0 <= i < third.len() implies third[i] != SEPARATOR by {
            assert(i >= 1 ==> third[i] == glyph_of(chunk[i - 1]));
        }
    }
    lemma_split_without_separator(first, SEPARATOR);
    lemma_split_last_field(first, SEPARATOR, second);
    lemma_split_last_field(first + seq![SEPARATOR] + second, SEPARATOR, third);
}

/// A text that starts with no white space has none to lose at its start.
pub proof fn lemma_trim_start_keeps(s: Seq<char>)
    requires
        s.len() == 0 || !is_white_space(s[0]),
    ensures
        trim_start(s) == s,
{
}

/// A text that ends with no white space has none to lose at its end.
pub proof fn lemma_trim_end_keeps(s: Seq<char>)
    requires
        s.len() == 0 || !is_white_space(s.last()),
    ensures
        trim_end(s) == s,
{
}

/// The body of a plain line starts and ends with a character that is no
/// white space.
pub proof fn lemma_line_body_ends(
    address: nat,
    chunk: Seq<u8>,
    width: nat,
    bytes_per_line: nat,
    upper: bool,
)
    requires
        chunk.len() >= 1,
    ensures
        line_body(address, chunk, width, bytes_per_line, upper).len() >= 1,
        !is_white_space(line_body(address, chunk, width, bytes_per_line, upper)[0]),
        !is_white_space(line_body(address, chunk, width, bytes_per_line, upper).last()),
{
    lemma_address_is_words(address, width, upper);
    lemma_plain_glyph_column(chunk);
}

/// White space around the body of a plain line is all that trimming takes
/// from the line, with or without its line feed.
pub proof fn lemma_trimmed_line(
    address: nat,
    chunk: Seq<u8>,
    width: nat,
    bytes_per_line: nat,
    upper: bool,
)
    requires
        chunk.len() >= 1,
    ensures
        trim(plain_line(address, chunk, width, bytes_per_line, upper)) == line_body(
            address,
            chunk,
            width,
            bytes_per_line,
            upper,
        ),
        trim(plain_line(address, chunk, width, bytes_per_line, upper).drop_last()) == line_body(
            address,
            chunk,
            width,
            bytes_per_line,
            upper,
        ),
{
    let line: Seq<char> = plain_line(address, chunk, width, bytes_per_line, upper);
    let body: Seq<char> = line_body(address, chunk, width, bytes_per_line, upper);
    lemma_plain_line_parts(address, chunk, width, bytes_per_line, upper);
    lemma_line_body_ends(address, chunk, width, bytes_per_line, upper);
    lemma_trim_around(body);
}

/// A space before and a line feed after a text that neither starts nor ends
/// with white space are all that trimming takes; so is the space alone.
pub proof fn lemma_trim_around(body: Seq<char>)
    requires
        body.len() >= 1,
        !is_white_space(body[0]),
        !is_white_space(body.last()),
    ensures
        trim(seq![' '] + body + seq!['\n']) == body,
        trim((seq![' '] + body + seq!['\n']).drop_last()) == body,
{
    let line: Seq<char> = seq![' '] + body + seq!['\n'];
    let tail: Seq<char> = body + seq!['\n'];
    assert(line.drop_first() == tail);
    lemma_trim_start_keeps(tail);
    assert(tail.drop_last() == body);
    lemma_trim_end_keeps(body);
    let bare: Seq<char> = line.drop_last();
    assert(bare.drop_first() == body);
    lemma_trim_start_keeps(body);
}

/// A line whose payload is the hex text of some bytes, spaces set aside,
/// decodes to those bytes.
pub proof fn lemma_decoded_payload(
    line: Seq<char>,
    field: Seq<char>,
    bytes: Seq<u8>,
    upper: bool,
    number: nat,
)
    requires
        payload(line) == Some(field),
        without_spaces(field) == hex_text(bytes, upper),
    ensures
        decoded_line(line, number) == Ok::<Seq<u8>, DumpErrorView>(bytes),
{
    lemma_hex_text_denotes(bytes, upper);
}

/// A line with three fields has the second as its payload.
pub proof fn lemma_payload_of_three(
    line: Seq<char>,
    first: Seq<char>,
    second: Seq<char>,
    third: Seq<char>,
)
    requires
        split(trim(line), SEPARATOR) == seq![first, second, third],
    ensures
        payload(line) == Some(second),
{
}

/// A plain line decodes to the bytes of its chunk, whatever its number, its
/// address and the case of its digits, with or without its line feed.
pub proof fn lemma_line_round_trip(
    address: nat,
    chunk: Seq<u8>,
    width: nat,
    bytes_per_line: nat,
    upper: bool,
    number: nat,
)
    requires
        1 <= chunk.len() <= bytes_per_line,
    ensures
        decoded_line(plain_line(address, chunk, width, bytes_per_line, upper), number) == Ok::<
            Seq<u8>,
            DumpErrorView,
        >(chunk),
        decoded_line(
            plain_line(address, chunk, width, bytes_per_line, upper).drop_last(),
            number,
        ) == Ok::<Seq<u8>, DumpErrorView>(chunk),
{
    let line: Seq<char> = plain_line(address, chunk, width, bytes_per_line, upper);
    let field: Seq<char> = hex_field(chunk, bytes_per_line, upper);
    let first: Seq<char> = address_text(address, width, upper) + seq![' '];
    let third: Seq<char> = seq![' '] + glyph_column(chunk, unlit(chunk.len()));
    lemma_trimmed_line(address, chunk, width, bytes_per_line, upper);
    lemma_line_body_fields(address, chunk, width, bytes_per_line, upper);
    lemma_hex_field(chunk, bytes_per_line, upper);
    lemma_payload_of_three(line, first, field, third);
    lemma_payload_of_three(line.drop_last(), first, field, third);
    lemma_decoded_payload(line, field, chunk, upper, number);
    lemma_decoded_payload(line.drop_last(), field, chunk, upper, number);
}

/// The lines of a plain dump as a line reader hands them back: each without
/// its line feed.
pub open spec fn as_read(lines: Seq<Seq<char>>) -> Seq<Seq<char>> {
    lines.map_values(|line: Seq<char>| line.drop_last())
}

/// Lines that decode, each to its chunk of the data, decode together to the
/// data up to the end of the last of them.
proof fn lemma_chunks_join(lines: Seq<Seq<char>>, data: Seq<u8>, bytes_per_line: nat, m: nat)
    requires
        bytes_per_line >= 1,
        lines.len() == line_count(data.len(), bytes_per_line),
        m <= lines.len(),
        forall|j: int|
            0 <= j < lines.len() ==> decoded_line(#[trigger] lines[j], (j + 1) as nat) == Ok::<
                Seq<u8>,
                DumpErrorView,
            >(chunk_at(data, j, bytes_per_line)),
    ensures
        decoded(lines.take(m as int)) == Ok::<Seq<u8>, DumpErrorView>(
            data.take(
                if m * bytes_per_line <= data.len() {
                    (m * bytes_per_line) as int
                } else {
                    data.len() as int
                },
            ),
        ),
    decreases m,
{
    if m == 0 {
        assert(0 * bytes_per_line == 0) by (nonlinear_arith);
        assert(data.take(0) == Seq::<u8>::empty());
    } else {
        let j: int = m - 1;
        lemma_chunks_join(lines, data, bytes_per_line, j as nat);
        lemma_line_count_bounds(data.len(), bytes_per_line, j);
        assert(m * bytes_per_line == j * bytes_per_line + bytes_per_line) by (nonlinear_arith)
            requires
                j == m - 1,
        ;
        let now: Seq<Seq<char>> = lines.take(m as int);
        assert(now.drop_last() == lines.take(j));
        let from: int = j * bytes_per_line;
        let to: int = if from + bytes_per_line <= data.len() {
            from + bytes_per_line
        } else {
            data.len() as int
        };
        assert(data.take(from) + data.subrange(from, to) == data.take(to));
    }
}

/// A plain dump decodes to the bytes it was made from: whatever the bytes,
/// the number of bytes to a line (at least one), the address of the first
/// byte, the width of the address column and the case of the hex digits;
/// and whether the lines still end in their line feeds or were read back
/// without them.
pub proof fn lemma_round_trip(
    data: Seq<u8>,
    start: nat,
    width: nat,
    bytes_per_line: nat,
    upper: bool,
)
    requires
        bytes_per_line >= 1,
    ensures
        decoded(dump_lines(data, start, width, bytes_per_line, upper)) == Ok::<
            Seq<u8>,
            DumpErrorView,
        >(data),
        decoded(as_read(dump_lines(data, start, width, bytes_per_line, upper))) == Ok::<
            Seq<u8>,
            DumpErrorView,
        >(data),
{
    let lines: Seq<Seq<char>> = dump_lines(data, start, width, bytes_per_line, upper);
    let bare: Seq<Seq<char>> = as_read(lines);
    let count: nat = line_count(data.len(), bytes_per_line);
    assert forall|j: int| 0 <= j < count implies decoded_line(
        #[trigger] lines[j],
        (j + 1) as nat,
    ) == Ok::<Seq<u8>, DumpErrorView>(chunk_at(data, j, bytes_per_line)) by {
        lemma_line_count_bounds(data.len(), bytes_per_line, j);
        lemma_line_round_trip(
            (start + j * bytes_per_line) as nat,
            chunk_at(data, j, bytes_per_line),
            width,
            bytes_per_line,
            upper,
            (j + 1) as nat,
        );
    }
    assert forall|j: int| 0 <= j < count implies decoded_line(
        #[trigger] bare[j],
        (j + 1) as nat,
    ) == Ok::<Seq<u8>, DumpErrorView>(chunk_at(data, j, bytes_per_line)) by {
        lemma_line_count_bounds(data.len(), bytes_per_line, j);
        lemma_line_round_trip(
            (start + j * bytes_per_line) as nat,
            chunk_at(data, j, bytes_per_line),
            width,
            bytes_per_line,
            upper,
            (j + 1) as nat,
        );
    }
    lemma_chunks_join(lines, data, bytes_per_line, count);
    lemma_chunks_join(bare, data, bytes_per_line, count);
    assert(lines.take(count as int) == lines);
    assert(bare.take(count as int) == bare);
    if count > 0 {
        lemma_line_count_bounds(data.len(), bytes_per_line, 0);
    } else {
        assert(0 * bytes_per_line == 0) by (nonlinear_arith);
        assert(data.len() == 0) by {
            if data.len() > 0 {
                assert((data.len() + bytes_per_line - 1) / (bytes_per_line as int) >= 1)
                    by (nonlinear_arith)
                    requires
                        data.len() >= 1,
                        bytes_per_line >= 1,
                ;
            }
        }
    }
    assert(data.take(data.len() as int) == data);
}

/// The window that no option narrows selects the whole input.
pub proof fn lemma_whole_window(data: Seq<u8>)
    ensures
        windowed(data, Window { start: 0, max_count: None }) == data,
{
}

/// Where the columns of a plain line stand: the first separator two places
/// after the address, the second after a hex field as wide as that of a full
/// line, the glyphs two places further on, and the line feed after the
/// glyphs. None of it depends on how many bytes the chunk holds.
pub proof fn lemma_line_layout(
    address: nat,
    chunk: Seq<u8>,
    width: nat,
    bytes_per_line: nat,
    upper: bool,
)
    requires
        1 <= chunk.len() <= bytes_per_line,
    ensures
        ({
            let line: Seq<char> = plain_line(address, chunk, width, bytes_per_line, upper);
            let a: int = address_text(address, width, upper).len() as int;
            &&& line.len() == a + 3 * bytes_per_line + 7 + chunk.len()
            &&& line[a + 2] == SEPARATOR
            &&& line[a + 3 * bytes_per_line + 4] == SEPARATOR
            &&& line.subrange(a + 3 * bytes_per_line + 6, line.len() - 1) == glyph_column(
                chunk,
                unlit(chunk.len()),
            )
            &&& line.last() == '\n'
        }),
{
    let line: Seq<char> = plain_line(address, chunk, width, bytes_per_line, upper);
    let a: int = address_text(address, width, upper).len() as int;
    lemma_plain_hex_column(chunk, upper);
    lemma_plain_glyph_column(chunk);
    assert(line.subrange(a + 3 * bytes_per_line + 6, line.len() - 1) =~= glyph_column(
        chunk,
        unlit(chunk.len()),
    ));
}

/// The line of a short chunk is laid out as the line of a full chunk at the
/// same address: up to the glyphs it is as long, and its separators stand at
/// the same places.
pub proof fn lemma_short_line_aligns(
    address: nat,
    short: Seq<u8>,
    full: Seq<u8>,
    width: nat,
    bytes_per_line: nat,
    upper: bool,
)
    requires
        1 <= short.len() <= bytes_per_line,
        full.len() == bytes_per_line,
    ensures
        ({
            let s: Seq<char> = plain_line(address, short, width, bytes_per_line, upper);
            let f: Seq<char> = plain_line(address, full, width, bytes_per_line, upper);
            let a: int = address_text(address, width, upper).len() as int;
            &&& s.len() - short.len() == f.len() - full.len()
            &&& s[a + 2] == SEPARATOR && f[a + 2] == SEPARATOR
            &&& s[a + 3 * bytes_per_line + 4] == SEPARATOR
            &&& f[a + 3 * bytes_per_line + 4] == SEPARATOR
        }),
{
    lemma_line_layout(address, short, width, bytes_per_line, upper);
    lemma_line_layout(address, full, width, bytes_per_line, upper);
}

/// A number below `16^width` has at most `width` hex digits.
pub proof fn lemma_hex_digits_fit(n: nat, width: nat, upper: bool)
    requires
        width >= 1,
        n < pow16(width),
    ensures
        hex_digits(n, upper).len() <= width,
    decreases n,
{
    if n >= 16 {
        assert(pow16(1) == 16) by {
            reveal_with_fuel(pow16, 2);
        }
        lemma_hex_digits_fit(n / 16, (width - 1) as nat, upper);
    }
}

/// The address column is as wide on every line of a run: an address below
/// `16^width` is written with exactly `width` digits after `0x`.
pub proof fn lemma_address_column_width(address: nat, width: nat, upper: bool)
    requires
        width >= 1,
        address < pow16(width),
    ensures
        address_text(address, width, upper).len() == 2 + width,
{
    lemma_hex_digits_fit(address, width, upper);
}

/// Every line of a plain dump is laid out alike, where the addresses fit
/// the address column: the separators stand at the same two places on every
/// line, and a line is as long as that asks for plus one glyph for each of
/// its bytes.
pub proof fn lemma_dump_columns_align(
    data: Seq<u8>,
    start: nat,
    width: nat,
    bytes_per_line: nat,
    upper: bool,
    j: int,
)
    requires
        bytes_per_line >= 1,
        width >= 1,
        start + data.len() <= pow16(width),
        0 <= j < line_count(data.len(), bytes_per_line),
    ensures
        ({
            let line: Seq<char> = dump_lines(data, start, width, bytes_per_line, upper)[j];
            let shown: nat = chunk_at(data, j, bytes_per_line).len();
            &&& 1 <= shown <= bytes_per_line
            &&& line.len() == width + 3 * bytes_per_line + 9 + shown
            &&& line[width as int + 4] == SEPARATOR
            &&& line[width as int + 3 * bytes_per_line + 6] == SEPARATOR
        }),
{
    let address: nat = (start + j * bytes_per_line) as nat;
    let chunk: Seq<u8> = chunk_at(data, j, bytes_per_line);
    lemma_line_count_bounds(data.len(), bytes_per_line, j);
    lemma_address_column_width(address, width, upper);
    lemma_line_layout(address, chunk, width, bytes_per_line, upper);
}

/// A line with more than three fields ends the run with an error that
/// carries its number, counted from 1, whatever follows it.
pub proof fn lemma_format_error_reported(lines: Seq<Seq<char>>, k: int)
    requires
        0 <= k < lines.len(),
        decoded(lines.take(k)) is Ok,
        split(trim(lines[k]), SEPARATOR).len() > 3,
    ensures
        decoded(lines) == Err::<Seq<u8>, DumpErrorView>(
            DumpErrorView::UnrecognizedLineFormat { line: (k + 1) as nat },
        ),
{
    let upto: Seq<Seq<char>> = lines.take(k + 1);
    assert(upto.drop_last() == lines.take(k));
    lemma_decoded_prefix(lines, k + 1);
}

} // verus!
