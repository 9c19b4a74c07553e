//! From bytes to display lines: which part of the input is shown, and the
//! steps that turn it into lines, chunk by chunk.

use vstd::prelude::*;
use vstd::arithmetic::div_mod::{
    lemma_fundamental_div_mod, lemma_fundamental_div_mod_converse, lemma_mod_pos_bound,
};
use vstd::arithmetic::mul::lemma_mul_inequality;
use crate::byte_range::ByteRange;
use crate::error::{DumpError, DumpErrorView};
use crate::text::texts;
use crate::format::{
    address_digits, address_width, format_line, plain_line, renders_line, DumpConfig,
};

verus! {

/// The part of the input that is shown: from offset `start`, at most
/// `max_count` bytes, or as far as the input goes where no count is set.
#[derive(Debug, Clone, Copy, PartialEq, Eq)]
pub struct Window {
    pub start: usize,
    pub max_count: Option<usize>,
}

/// The window that the options select. An explicit range decides alone; else
/// `skip` and `length` do, each as far as it is given; else the whole input
/// is shown. A range whose end lies before its start is refused.
pub open spec fn resolved(range: Option<ByteRange>, skip: Option<usize>, length: Option<usize>)
    -> Result<Window, DumpErrorView> {
    match range {
        Some(r) => if r.well_formed() {
            Ok(Window { start: r.start, max_count: Some(r.count() as usize) })
        } else {
            Err(DumpErrorView::InvalidRange)
        },
        None => Ok(
            Window {
                start: match skip {
                    Some(n) => n,
                    None => 0,
                },
                max_count: length,
            },
        ),
    }
}

/// Works out the window from the options.
pub fn resolve_range(range: Option<ByteRange>, skip: Option<usize>, length: Option<usize>) -> (r:
    Result<Window, DumpError>)
    ensures
        match resolved(range, skip, length) {
            Ok(window) => r == Ok::<Window, DumpError>(window),
            Err(e) => r matches Err(f) && f@ == e,
        },
{
    match range {
        Some(r) => {
            if r.end < r.start {
                Err(DumpError::InvalidRange)
            } else {
                Ok(Window { start: r.start, max_count: Some(r.end - r.start) })
            }
        },
        None => Ok(
            Window {
                start: match skip {
                    Some(n) => n,
                    None => 0,
                },
                max_count: length,
            },
        ),
    }
}

/// The state of a forward run: where the next chunk stands, how many bytes
/// have been shown, and whether the run is over.
#[derive(Debug, Clone, Copy, PartialEq, Eq)]
pub struct Forward {
    /// How lines are rendered.
    pub config: DumpConfig,
    /// The number of digits in the address column, the same on every line.
    pub width: usize,
    /// The offset at which the run started.
    pub start: usize,
    /// The limit on the number of bytes shown, if there is one.
    pub max_count: Option<usize>,
    /// The address of the next chunk.
    pub address: usize,
    /// The number of bytes shown so far.
    pub total: usize,
    /// Whether the run has ended.
    pub done: bool,
}

impl Forward {
    /// Whether the counters agree: the next address is the start plus what
    /// has been shown.
    pub open spec fn well_formed(&self) -> bool {
        self.address == self.start + self.total
    }

    /// The number of bytes of a chunk of length `len` that the next step
    /// shows: none once the run is over, at the end of the input, or when
    /// the limit has been reached; else the whole chunk, or as much of it as
    /// reaches the limit exactly.
    pub open spec fn shows(&self, len: nat) -> nat {
        if self.done || len == 0 {
            0
        } else {
            match self.max_count {
                Some(max) => if self.total >= max {
                    0
                } else if self.total + len >= max {
                    (max - self.total) as nat
                } else {
                    len
                },
                None => len,
            }
        }
    }

    /// The state before the first chunk: positioned at the start of the
    /// window, with the address width that the size of the whole input
    /// calls for.
    pub fn new(config: DumpConfig, file_size: u64, window: Window) -> (state: Forward)
        ensures
            state.well_formed(),
            state.config == config,
            state.start == window.start,
            state.max_count == window.max_count,
            state.address == window.start,
            state.total == 0,
            !state.done,
            state.width == address_digits(file_size as nat),
    {
        Forward {
            config,
            width: address_width(file_size),
            start: window.start,
            max_count: window.max_count,
            address: window.start,
            total: 0,
            done: false,
        }
    }

    /// Takes the chunk that was read next. Gives the line for the bytes of
    /// it that are shown, and moves the address on by their number; or gives
    /// nothing and ends the run, where none of it is shown.
    pub fn step(&mut self, chunk: &[u8]) -> (line: Option<String>)
        requires
            old(self).well_formed(),
            chunk.len() <= old(self).config.bytes_per_line,
            old(self).address + chunk.len() <= usize::MAX,
        ensures
            final(self).well_formed(),
            final(self).config == old(self).config,
            final(self).width == old(self).width,
            final(self).start == old(self).start,
            final(self).max_count == old(self).max_count,
            final(self).address == old(self).address + old(self).shows(chunk@.len()),
            final(self).total == old(self).total + old(self).shows(chunk@.len()),
            final(self).done == (old(self).shows(chunk@.len()) == 0),
            line is Some == (old(self).shows(chunk@.len()) > 0),
            line matches Some(text) ==> renders_line(
                text@,
                old(self).address as nat,
                chunk@.take(old(self).shows(chunk@.len()) as int),
                old(self).width as nat,
                old(self).config,
            ),
            line matches Some(text) ==> !old(self).config.use_color ==> text@ == plain_line(
                old(self).address as nat,
                chunk@.take(old(self).shows(chunk@.len()) as int),
                old(self).width as nat,
                old(self).config.bytes_per_line as nat,
                old(self).config.uppercase,
            ),
    {
        if self.done || chunk.len() == 0 {
            self.done = true;
            return None;
        }
        let count: usize = match self.max_count {
            Some(max) => {
                if self.total >= max {
                    self.done = true;
                    return None;
                }
                if chunk.len() >= max - self.total {
                    max - self.total
                } else {
                    chunk.len()
                }
            },
            None => chunk.len(),
        };
        let shown = &chunk[0..count];
        let line = format_line(self.address, shown, self.width, &self.config);
        self.address = self.address + count;
        self.total = self.total + count;
        Some(line)
    }
}

/// The number of lines that show `len` bytes, `bytes_per_line` to a line:
/// the quotient, rounded up. No line at all where a line holds no byte.
pub open spec fn line_count(len: nat, bytes_per_line: nat) -> nat {
    if bytes_per_line == 0 {
        0
    } else {
        ((len + bytes_per_line - 1) / (bytes_per_line as int)) as nat
    }
}

/// The bytes that line `j` shows, counting from 0: `bytes_per_line` of them
/// from offset `j * bytes_per_line`, or what is left of the data.
pub open spec fn chunk_at(data: Seq<u8>, j: int, bytes_per_line: nat) -> Seq<u8> {
    let from: int = j * bytes_per_line;
    let to: int = if from + bytes_per_line <= data.len() {
        from + bytes_per_line
    } else {
        data.len() as int
    };
    data.subrange(from, to)
}

/// The lines of a plain dump of `data`, whose first byte stands at address
/// `start`.
pub open spec fn dump_lines(
    data: Seq<u8>,
    start: nat,
    width: nat,
    bytes_per_line: nat,
    upper: bool,
) -> Seq<Seq<char>> {
    Seq::new(
        line_count(data.len(), bytes_per_line),
        |j: int|
            plain_line(
                (start + j * bytes_per_line) as nat,
                chunk_at(data, j, bytes_per_line),
                width,
                bytes_per_line,
                upper,
            ),
    )
}

/// The bytes of an input that a window selects.
pub open spec fn windowed(data: Seq<u8>, window: Window) -> Seq<u8> {
    let from: int = if window.start <= data.len() {
        window.start as int
    } else {
        data.len() as int
    };
    let to: int = match window.max_count {
        Some(max) => if from + max <= data.len() {
            from + max
        } else {
            data.len() as int
        },
        None => data.len() as int,
    };
    data.subrange(from, to)
}

/// Full lines and one last line that is full, short or absent: their number.
pub proof fn lemma_line_count(full: nat, extra: nat, bytes_per_line: nat)
    requires
        bytes_per_line >= 1,
        extra <= bytes_per_line,
    ensures
        line_count(full * bytes_per_line + extra, bytes_per_line) == if extra == 0 {
            full
        } else {
            full + 1
        },
{
    let d: int = bytes_per_line as int;
    let x: int = full * bytes_per_line + extra + bytes_per_line - 1;
    if extra == 0 {
        lemma_fundamental_div_mod_converse(x, d, full as int, d - 1);
    } else {
        assert((full + 1) * d == full * d + d) by (nonlinear_arith);
        lemma_fundamental_div_mod_converse(x, d, full as int + 1, extra - 1);
    }
}

/// Every line but the last is full, and the lines hold all the bytes: line
/// `j` starts inside the data, and the last line ends at or after its end.
pub proof fn lemma_line_count_bounds(len: nat, bytes_per_line: nat, j: int)
    requires
        bytes_per_line >= 1,
        0 <= j < line_count(len, bytes_per_line),
    ensures
        j * bytes_per_line < len,
        line_count(len, bytes_per_line) * bytes_per_line >= len,
{
    let d: int = bytes_per_line as int;
    let x: int = len + bytes_per_line - 1;
    let count: int = line_count(len, bytes_per_line) as int;
    lemma_fundamental_div_mod(x, d);
    lemma_mod_pos_bound(x, d);
    assert(d * count == count * d) by (nonlinear_arith);
    assert((count - 1) * d == count * d - d) by (nonlinear_arith);
    lemma_mul_inequality(j, count - 1, d);
}

/// Dumps an input that is held in memory: the lines for the bytes that the
/// window selects, in order. Each chunk of up to `bytes_per_line` bytes goes
/// through one step of a forward run, until the run ends.
pub fn dump(data: &[u8], window: Window, config: DumpConfig) -> (lines: Vec<String>)
    ensures
        lines.len() == line_count(
            windowed(data@, window).len(),
            config.bytes_per_line as nat,
        ),
        forall|j: int|
            0 <= j < lines.len() ==> renders_line(
                (#[trigger] lines[j])@,
                (window.start + j * config.bytes_per_line) as nat,
                chunk_at(windowed(data@, window), j, config.bytes_per_line as nat),
                address_digits(data@.len()),
                config,
            ),
        !config.use_color ==> texts(lines@) == dump_lines(
            windowed(data@, window),
            window.start as nat,
            address_digits(data@.len()),
            config.bytes_per_line as nat,
            config.uppercase,
        ),
{
    let from: usize = if window.start <= data.len() {
        window.start
    } else {
        data.len()
    };
    let mut state = Forward::new(config, data.len() as u64, window);
    let mut lines: Vec<String> = Vec::new();
    let mut pos: usize = from;
    let ghost shown: Seq<u8> = windowed(data@, window);
    let ghost bpl: nat = config.bytes_per_line as nat;
    let ghost width: nat = address_digits(data@.len());
    proof {
        if bpl >= 1 {
            lemma_line_count(0, 0, bpl);
        }
    }
    while !state.done
        invariant
            state.well_formed(),
            state.config == config,
            state.start == window.start,
            state.max_count == window.max_count,
            state.width == width,
            bpl == config.bytes_per_line,
            from <= pos <= data.len(),
            from == if window.start <= data.len() {
                window.start
            } else {
                data.len()
            },
            state.total == pos - from,
            shown == windowed(data@, window),
            state.total <= shown.len(),
            lines.len() == line_count(state.total as nat, bpl),
            state.total < shown.len() ==> state.total == lines.len() * bpl,
            state.done ==> state.total == shown.len() || bpl == 0,
            forall|j: int|
                0 <= j < lines.len() ==> renders_line(
                    (#[trigger] lines[j])@,
                    (window.start + j * bpl) as nat,
                    chunk_at(shown, j, bpl),
                    width,
                    config,
                ),
            !config.use_color ==> forall|j: int|
                0 <= j < lines.len() ==> (#[trigger] lines[j])@ == plain_line(
                    (window.start + j * bpl) as nat,
                    chunk_at(shown, j, bpl),
                    width,
                    bpl,
                    config.uppercase,
                ),
        decreases
                (data.len() - pos) + (if state.done {
                    0int
                } else {
                    1int
                }),
    {
        let room: usize = data.len() - pos;
        let len: usize = if room > config.bytes_per_line {
            config.bytes_per_line
        } else {
            room
        };
        let chunk = &data[pos..pos + len];
        let before: usize = state.total;
        let ghost count: nat = state.shows(len as nat);
        let ghost index: int = lines.len() as int;
        let ghost earlier: Seq<String> = lines@;
        match state.step(chunk) {
            Some(line) => {
                proof {
                    assert(chunk@.take(count as int) == chunk_at(shown, index, bpl));
                    lemma_line_count(index as nat, count, bpl);
                    assert((index + 1) * bpl == index * bpl + bpl) by (nonlinear_arith);
                }
                lines.push(line);
                pos = pos + (state.total - before);
                proof {
                    assert forall|j: int| 0 <= j < lines.len() implies renders_line(
                        (#[trigger] lines[j])@,
                        (window.start + j * bpl) as nat,
                        chunk_at(shown, j, bpl),
                        width,
                        config,
                    ) by {
                        assert(j < index ==> lines[j] == earlier[j]);
                    }
                    if !config.use_color {
                        assert forall|j: int| 0 <= j < lines.len() implies (#[trigger] lines[j])@
                            == plain_line(
                            (window.start + j * bpl) as nat,
                            chunk_at(shown, j, bpl),
                            width,
                            bpl,
                            config.uppercase,
                        ) by {
                            assert(j < index ==> lines[j] == earlier[j]);
                        }
                    }
                }
            },
            None => {},
        }
    }
    proof {
        if !config.use_color {
            assert(texts(lines@) =~= dump_lines(
                shown,
                window.start as nat,
                width,
                bpl,
                config.uppercase,
            ));
        }
    }
    lines
}

} // verus!
