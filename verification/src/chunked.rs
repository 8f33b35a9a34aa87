//! The chunked transfer-encoding codec.
//!
//! A chunked body is a run of frames, each `<hex-size>[;ext]\r\n<payload>\r\n`,
//! closed by a frame of size zero. [`dechunk`] says what a run of bytes decodes
//! to; [`ChunkedReader`] decodes step by step and [`ChunkedWriter`] frames what
//! is written to it. [`lemma_round_trip`] states that decoding what the writer
//! produced gives the payload back.

use vstd::prelude::*;
use crate::error::{Error, IoKind};
use crate::numeral::{parse_unsigned, read_unsigned};
use crate::stream::{
    frame, is_io, line_end, next_line, scan_line, write_to_payload, LineEnd, NextLine, Stream,
};
use crate::text::{copy_bytes, find, find_byte, lemma_find_from};

verus! {

/// The most payload bytes that the reader buffers at a time.
pub const PIECE: usize = 65536;

/// The most bytes that a chunk-size line may take up, line end included.
pub const SIZE_LINE_MAX: usize = 128;

/// How many bytes the reader takes at a time when it reads a body to its end.
pub const READ_STEP: usize = 1024;

/// What stands where a chunk-size line is expected.
pub enum SizeLine {
    /// A size, and how many bytes of input the line takes up.
    Size { size: nat, used: int },
    /// A line that is not a hexadecimal size that fits the machine.
    Malformed,
    /// An empty line, or one that is too long.
    Cut,
    /// Less input than a line.
    Short,
}

/// The chunk-size line at the start of `input`. Extension text after `;` is
/// ignored.
pub open spec fn size_line(input: Seq<u8>) -> SizeLine {
    match next_line(input, SIZE_LINE_MAX as int) {
        NextLine::Short => SizeLine::Short,
        NextLine::TooLong => SizeLine::Cut,
        NextLine::Line { line, used } => {
            if line.len() == 0 {
                SizeLine::Cut
            } else {
                match parse_unsigned(line.take(find(line, 0x3bu8)), 16, usize::MAX as nat) {
                    Some(size) => SizeLine::Size { size, used },
                    None => SizeLine::Malformed,
                }
            }
        },
    }
}

/// How decoding ends.
#[derive(Debug, Clone, Copy, PartialEq, Eq, Structural)]
pub enum End {
    /// The closing frame was read.
    Done,
    /// The size of a frame is no number.
    Malformed,
    /// No line end follows the payload of a frame: the declared size does not
    /// match the bytes that came. Decoding is over for good.
    Broken,
    /// A chunk-size line is empty or too long.
    Cut,
    /// The input ends in the middle of a frame.
    Short,
}

/// What a run of bytes decodes to: the payload bytes that come out before
/// decoding ends, how it ends, and the input that is left over after the
/// closing frame.
pub struct Decoded {
    pub bytes: Seq<u8>,
    pub end: End,
    pub rest: Seq<u8>,
}

/// Decoding that fails at once.
pub open spec fn halted(end: End) -> Decoded {
    Decoded { bytes: Seq::empty(), end, rest: Seq::empty() }
}

/// Decoding that is complete, with `rest` left over.
pub open spec fn done(rest: Seq<u8>) -> Decoded {
    Decoded { bytes: Seq::empty(), end: End::Done, rest }
}

/// `d` with `bytes` coming out first.
pub open spec fn prepend(bytes: Seq<u8>, d: Decoded) -> Decoded {
    Decoded { bytes: bytes + d.bytes, end: d.end, rest: d.rest }
}

/// One step of decoding: what the reader does when it has nothing buffered.
pub enum Step {
    /// Decoding fails. `used` bytes of input are consumed all the same: none,
    /// unless the fault is a payload without its line end, which is read
    /// past.
    Fault { end: End, used: int },
    /// A piece of payload comes out. `used` bytes of input are consumed,
    /// `remaining` bytes of the current chunk are still to come, and `eof`
    /// says whether the frame just read was the closing one.
    Piece { piece: Seq<u8>, used: int, remaining: nat, eof: bool },
}

/// How many bytes are looked at where a line end is expected and none
/// stands: one, or two where the first is a carriage return.
pub open spec fn examined(input: Seq<u8>) -> int {
    if input.len() > 0 && input[0] == 0x0d {
        2
    } else {
        1
    }
}

/// The step that reads payload: at most [`PIECE`] bytes of the `remaining`
/// ones, and the line end after them when they complete the chunk. The last
/// piece of a chunk comes out only if the line end follows it; where it does
/// not, the payload and the bytes looked at in its place are consumed.
pub open spec fn data_step(input: Seq<u8>, remaining: nat, eof: bool) -> Step {
    let m = if remaining <= PIECE {
        remaining as int
    } else {
        PIECE as int
    };
    if input.len() < m {
        Step::Fault { end: End::Short, used: 0 }
    } else if m < remaining {
        Step::Piece { piece: input.take(m), used: m, remaining: (remaining - m) as nat, eof }
    } else {
        match line_end(input.skip(m)) {
            LineEnd::Present => Step::Piece { piece: input.take(m), used: m + 2, remaining: 0,
                eof },
            LineEnd::Absent => Step::Fault {
                end: End::Broken,
                used: m + examined(input.skip(m)),
            },
            LineEnd::Short => Step::Fault { end: End::Short, used: 0 },
        }
    }
}

/// The next step over `input`, with `remaining` bytes of the current chunk to
/// come: inside a chunk, its payload; between chunks, the chunk-size line and
/// then the payload. A size of zero makes the frame the closing one.
pub open spec fn next_step(input: Seq<u8>, remaining: nat) -> Step {
    if remaining > 0 {
        data_step(input, remaining, false)
    } else {
        match size_line(input) {
            SizeLine::Short => Step::Fault { end: End::Short, used: 0 },
            SizeLine::Cut => Step::Fault { end: End::Cut, used: 0 },
            SizeLine::Malformed => Step::Fault { end: End::Malformed, used: 0 },
            SizeLine::Size { size, used } => match data_step(input.skip(used), size, size == 0) {
                Step::Fault { end, used: more } => Step::Fault {
                    end,
                    used: if end == End::Broken {
                        used + more
                    } else {
                        0
                    },
                },
                Step::Piece { piece, used: more, remaining, eof } => Step::Piece {
                    piece,
                    used: used + more,
                    remaining,
                    eof,
                },
            },
        }
    }
}

/// A chunk-size line takes up input, and no more than there is.
pub proof fn lemma_size_line_bounds(input: Seq<u8>)
    ensures
        size_line(input) matches SizeLine::Size { size, used } ==> 0 < used <= input.len(),
{
    let window = if input.len() <= SIZE_LINE_MAX as int {
        input
    } else {
        input.take(SIZE_LINE_MAX as int)
    };
    lemma_find_from(window, 0x0au8, 0);
}

/// A step that succeeds consumes input, and no more than there is. A step
/// that fails consumes none, unless it read past a payload without line end.
pub proof fn lemma_step_bounds(input: Seq<u8>, remaining: nat)
    ensures
        next_step(input, remaining) matches Step::Piece { piece, used, remaining: left, eof }
            ==> {
            &&& 0 < used <= input.len()
            &&& piece.len() <= PIECE
            &&& eof ==> piece.len() == 0 && left == 0
            &&& !eof ==> piece.len() > 0
        },
        next_step(input, remaining) matches Step::Fault { end, used } ==> {
            &&& end != End::Done
            &&& 0 <= used <= input.len()
            &&& end == End::Broken <==> used > 0
        },
{
    lemma_size_line_bounds(input);
}

/// What `input` decodes to when `remaining` bytes of the current chunk are
/// still to come: step after step, until the closing frame or a fault.
pub open spec fn chunk_data(input: Seq<u8>, remaining: nat) -> Decoded
    decreases input.len(),
    via chunk_data_decreases
{
    match next_step(input, remaining) {
        Step::Fault { end, .. } => halted(end),
        Step::Piece { piece, used, remaining, eof } => {
            if eof {
                prepend(piece, done(input.skip(used)))
            } else {
                prepend(piece, chunk_data(input.skip(used), remaining))
            }
        },
    }
}

#[via_fn]
proof fn chunk_data_decreases(input: Seq<u8>, remaining: nat) {
    lemma_step_bounds(input, remaining);
}

/// What `input` decodes to, from the start of a frame.
pub open spec fn dechunk(input: Seq<u8>) -> Decoded {
    chunk_data(input, 0)
}

/// Whether the error `e` reports the way decoding ended.
pub open spec fn reports(e: Error, end: End, shortage: IoKind) -> bool {
    match end {
        End::Done => false,
        End::Malformed => e is ChunkError,
        End::Broken => e is ChunkError,
        End::Cut => is_io(e, IoKind::UnexpectedEof),
        End::Short => is_io(e, shortage),
    }
}

/// The error that reports a failed end of decoding on `stream`.
pub fn fault(end: End, stream: &Stream) -> (e: Error)
    requires
        end != End::Done,
    ensures
        reports(e, end, stream.shortage()),
{
    match end {
        End::Malformed => Error::ChunkError,
        End::Broken => Error::ChunkError,
        End::Cut => Error::io(IoKind::UnexpectedEof, ""),
        _ => stream.starved(),
    }
}

/// Reads the chunk-size line that starts at `input[from..]`, without
/// consuming it: the size, and the index one past the line.
pub fn scan_chunk_size(input: &[u8], from: usize) -> (r: Result<(usize, usize), End>)
    requires
        from <= input.len(),
    ensures
        match size_line(input@.skip(from as int)) {
            SizeLine::Size { size, used } => r matches Ok((n, next)) && n == size && next == from
                + used && from < next <= input.len(),
            SizeLine::Malformed => r == Err::<(usize, usize), End>(End::Malformed),
            SizeLine::Cut => r == Err::<(usize, usize), End>(End::Cut),
            SizeLine::Short => r == Err::<(usize, usize), End>(End::Short),
        },
        r matches Err(end) ==> end != End::Done,
{
    match scan_line(input, from, SIZE_LINE_MAX) {
        Err(IoKind::UnexpectedEof) => Err(End::Cut),
        Err(_) => Err(End::Short),
        Ok((end, next)) => {
            if end == from {
                return Err(End::Cut);
            }
            let line = vstd::slice::slice_subrange(input, from, end);
            let semi = find_byte(line, 0x3b, 0);
            let digits = vstd::slice::slice_subrange(line, 0, semi);
            assert(digits@ =~= line@.take(semi as int));
            match read_unsigned(digits, 16) {
                Some(n) => Ok((n, next)),
                None => Err(End::Malformed),
            }
        },
    }
}

/// Performs the payload step of [`data_step`] on `input[from..]`, without
/// consuming anything: the piece, and the index one past what the step uses;
/// for a step that fails, how it fails and how many bytes it uses.
fn scan_data(input: &[u8], from: usize, remaining: usize) -> (r: Result<(Vec<u8>, usize), (
    End,
    usize,
)>)
    requires
        from <= input.len(),
    ensures
        match data_step(input@.skip(from as int), remaining as nat, false) {
            Step::Fault { end, used } => r == Err::<(Vec<u8>, usize), (End, usize)>(
                (end, used as usize),
            ) && end != End::Done && 0 <= used && from + used <= input.len(),
            Step::Piece { piece, used, remaining: left, eof } => r matches Ok((p, next)) && p@
                == piece && next == from + used && next <= input.len(),
        },
{
    let ghost data = input@.skip(from as int);
    let m: usize = if remaining <= PIECE {
        remaining
    } else {
        PIECE
    };
    if input.len() - from < m {
        return Err((End::Short, 0));
    }
    let a: usize = from + m;
    assert(data.skip(m as int) =~= input@.skip(a as int));
    if m == remaining {
        if input.len() - a < 1 {
            return Err((End::Short, 0));
        } else if input[a] != 0x0d {
            return Err((End::Broken, m + 1));
        } else if input.len() - a < 2 {
            return Err((End::Short, 0));
        } else if input[a + 1] != 0x0a {
            return Err((End::Broken, m + 2));
        }
    }
    let piece = copy_bytes(input, from, a);
    assert(piece@ =~= data.take(m as int));
    if m == remaining {
        Ok((piece, a + 2))
    } else {
        Ok((piece, a))
    }
}

/// Performs the step of [`next_step`] on `input`, without consuming
/// anything: the piece, how many bytes of input the step uses, how many bytes
/// of the chunk are still to come, and whether the frame was the closing one;
/// for a step that fails, how it fails and how many bytes it uses.
pub fn scan_step(input: &[u8], remaining: usize) -> (r: Result<(Vec<u8>, usize, usize, bool), (
    End,
    usize,
)>)
    ensures
        match next_step(input@, remaining as nat) {
            Step::Fault { end, used } => r == Err::<(Vec<u8>, usize, usize, bool), (End, usize)>(
                (end, used as usize),
            ) && end != End::Done && 0 <= used <= input.len(),
            Step::Piece { piece, used, remaining: left, eof } => r matches Ok((p, u, l, e)) && p@
                == piece && u == used && l == left && e == eof,
        },
{
    proof {
        assert(input@.skip(0) =~= input@);
        lemma_step_bounds(input@, remaining as nat);
    }
    let m: usize = if remaining <= PIECE {
        remaining
    } else {
        PIECE
    };
    if remaining > 0 {
        match scan_data(input, 0, remaining) {
            Err(fault) => Err(fault),
            Ok((piece, next)) => Ok((piece, next, remaining - m, false)),
        }
    } else {
        match scan_chunk_size(input, 0) {
            Err(end) => Err((end, 0)),
            Ok((size, at)) => {
                let k: usize = if size <= PIECE {
                    size
                } else {
                    PIECE
                };
                match scan_data(input, at, size) {
                    Err((end, used)) => match end {
                        End::Broken => Err((end, at + used)),
                        _ => Err((end, 0)),
                    },
                    Ok((piece, next)) => Ok((piece, next, size - k, size == 0)),
                }
            },
        }
    }
}

/// The reading half of the codec: the decoded bytes that are buffered, how
/// many of them were handed out, how many bytes of the current chunk are still
/// to come, and whether the closing frame was read.
pub struct ChunkedReader {
    buffer: Vec<u8>,
    consumed: usize,
    remaining: usize,
    eof: bool,
}

impl ChunkedReader {
    /// The decoded bytes that are buffered and not yet handed out.
    pub closed spec fn pending(&self) -> Seq<u8> {
        if self.consumed <= self.buffer.len() {
            self.buffer@.skip(self.consumed as int)
        } else {
            Seq::empty()
        }
    }

    /// How many bytes of the current chunk are still to come.
    pub closed spec fn left(&self) -> nat {
        self.remaining as nat
    }

    /// Whether decoding is over: the closing frame was read, or a payload
    /// came without its line end.
    pub closed spec fn at_end(&self) -> bool {
        self.eof
    }

    /// Decoding is over and every decoded byte was handed out.
    pub open spec fn finished(&self) -> bool {
        self.at_end() && self.pending().len() == 0
    }

    /// Whether filling the buffer takes no step: bytes are pending, or
    /// decoding is over.
    pub open spec fn idle(&self) -> bool {
        self.pending().len() > 0 || self.at_end()
    }

    /// The decoded bytes that stand ready once the buffer was filled over the
    /// unread input `input`: what is pending or, where nothing is and the body
    /// goes on, the piece that the next step gives.
    pub open spec fn ready(&self, input: Seq<u8>) -> Seq<u8> {
        if self.idle() {
            self.pending()
        } else {
            match next_step(input, self.left()) {
                Step::Piece { piece, .. } => piece,
                Step::Fault { .. } => Seq::empty(),
            }
        }
    }

    /// How many bytes of the unread input `input` filling the buffer
    /// consumes: none where it takes no step, and what the step uses where
    /// it takes one.
    pub open spec fn uses(&self, input: Seq<u8>) -> int {
        if self.idle() {
            0
        } else {
            match next_step(input, self.left()) {
                Step::Piece { used, .. } => used,
                Step::Fault { used, .. } => used,
            }
        }
    }

    /// What this reader will hand out when it is read to the end over the
    /// unread input `input`.
    pub open spec fn drain(&self, input: Seq<u8>) -> Decoded {
        prepend(
            self.pending(),
            if self.at_end() {
                done(input)
            } else {
                chunk_data(input, self.left())
            },
        )
    }

    /// A reader that stands at the start of a frame.
    pub fn new() -> (r: ChunkedReader)
        ensures
            forall|input: Seq<u8>| #[trigger] r.drain(input) == dechunk(input),
            !r.finished(),
            r.pending().len() == 0,
            r.left() == 0,
            !r.at_end(),
    {
        let r = ChunkedReader { buffer: Vec::new(), consumed: 0, remaining: 0, eof: false };
        assert forall|input: Seq<u8>| #[trigger] r.drain(input) == dechunk(input) by {
            assert(r.pending() + dechunk(input).bytes =~= dechunk(input).bytes);
        }
        r
    }

    /// A finished reader hands out nothing more and leaves the input alone.
    pub proof fn lemma_finished(&self, input: Seq<u8>)
        requires
            self.finished(),
        ensures
            self.drain(input) == done(input),
            self.ready(input) == Seq::<u8>::empty(),
            self.uses(input) == 0,
    {
        assert(self.pending() =~= Seq::<u8>::empty());
        assert(self.pending() + Seq::<u8>::empty() =~= Seq::<u8>::empty());
    }

    /// Makes sure that decoded bytes are buffered, unless decoding is over:
    /// when nothing is pending, reads the next chunk-size line if a new
    /// frame begins, then up to [`PIECE`] bytes of payload, then the line end
    /// if the payload is complete.
    ///
    /// A payload that comes without its line end fails as a chunk error and
    /// ends decoding for good: what was read is dropped, and later calls read
    /// nothing and return no bytes. Any other step that fails changes
    /// nothing.
    pub fn fill_buf(&mut self, stream: &mut Stream) -> (r: Result<(), Error>)
        ensures
            final(stream).peer_closed() == old(stream).peer_closed(),
            final(stream).written() == old(stream).written(),
            final(stream).failed() == old(stream).failed(),
            final(stream).unread() == old(stream).unread().skip(
                old(self).uses(old(stream).unread()),
            ),
            r is Ok ==> final(self).drain(final(stream).unread()) == old(self).drain(
                old(stream).unread(),
            ) && (final(self).pending().len() > 0 || final(self).finished())
                && final(self).pending() == old(self).ready(old(stream).unread()),
            r is Err <==> old(self).drain(old(stream).unread()).bytes.len() == 0
                && old(self).drain(old(stream).unread()).end != End::Done,
            r matches Err(e) ==> reports(
                e,
                old(self).drain(old(stream).unread()).end,
                old(stream).shortage(),
            ) && if old(self).drain(old(stream).unread()).end == End::Broken {
                final(self).finished()
            } else {
                *final(self) == *old(self)
            },
    {
        if self.consumed < self.buffer.len() || self.eof {
            proof {
                assert(stream.unread().skip(0) =~= stream.unread());
            }
            return Ok(());
        }
        let ghost input = stream.unread();
        proof {
            lemma_step_bounds(input, self.remaining as nat);
            assert(self.pending() =~= Seq::<u8>::empty());
            assert(self.drain(input).bytes =~= chunk_data(input, self.remaining as nat).bytes);
            assert(input.skip(0) =~= input);
        }
        match scan_step(stream.peek(), self.remaining) {
            Err((end, used)) => {
                let e = fault(end, stream);
                match end {
                    End::Broken => {
                        self.buffer = Vec::new();
                        self.consumed = 0;
                        self.remaining = 0;
                        self.eof = true;
                        stream.consume(used);
                        assert(self.pending() =~= Seq::<u8>::empty());
                    },
                    _ => {},
                }
                Err(e)
            },
            Ok((piece, used, remaining, eof)) => {
                let ghost after = if eof {
                    done(input.skip(used as int))
                } else {
                    chunk_data(input.skip(used as int), remaining as nat)
                };
                self.buffer = piece;
                self.consumed = 0;
                self.remaining = remaining;
                self.eof = eof;
                stream.consume(used);
                proof {
                    assert(self.pending() =~= piece@);
                    assert(Seq::<u8>::empty() + (piece@ + after.bytes) =~= piece@ + after.bytes);
                }
                Ok(())
            },
        }
    }

    /// Marks `amt` of the buffered bytes as handed out; no more than are
    /// pending.
    pub fn consume(&mut self, amt: usize)
        ensures
            final(self).left() == old(self).left(),
            final(self).at_end() == old(self).at_end(),
            final(self).pending() == old(self).pending().skip(
                if amt <= old(self).pending().len() {
                    amt as int
                } else {
                    old(self).pending().len() as int
                },
            ),
            forall|input: Seq<u8>| #[trigger]
                old(self).drain(input) == prepend(
                    old(self).pending().take(
                        if amt <= old(self).pending().len() {
                            amt as int
                        } else {
                            old(self).pending().len() as int
                        },
                    ),
                    final(self).drain(input),
                ),
    {
        let left: usize = if self.consumed <= self.buffer.len() {
            self.buffer.len() - self.consumed
        } else {
            0
        };
        let n: usize = if amt <= left {
            amt
        } else {
            left
        };
        let ghost was = self.pending();
        if n > 0 {
            self.consumed = self.consumed + n;
        }
        assert(self.pending() =~= was.skip(n as int));
        assert forall|input: Seq<u8>| #[trigger]
            old(self).drain(input) == prepend(was.take(n as int), self.drain(input)) by {
            let tail = if self.eof {
                done(input)
            } else {
                chunk_data(input, self.remaining as nat)
            };
            assert(was + tail.bytes =~= was.take(n as int) + (was.skip(n as int) + tail.bytes));
        }
    }

    /// Reads up to `max` decoded bytes. Returns none only once decoding is
    /// over or when `max` is zero. A read fails as filling the buffer does.
    pub fn read(&mut self, stream: &mut Stream, max: usize) -> (r: Result<Vec<u8>, Error>)
        ensures
            final(stream).peer_closed() == old(stream).peer_closed(),
            final(stream).written() == old(stream).written(),
            final(stream).failed() == old(stream).failed(),
            final(stream).unread() == old(stream).unread().skip(
                old(self).uses(old(stream).unread()),
            ),
            r matches Ok(b) ==> old(self).drain(old(stream).unread()) == prepend(
                b@,
                final(self).drain(final(stream).unread()),
            ) && b@ == old(self).ready(old(stream).unread()).take(
                if max <= old(self).ready(old(stream).unread()).len() {
                    max as int
                } else {
                    old(self).ready(old(stream).unread()).len() as int
                },
            ) && (b@.len() == 0 ==> max == 0 || final(self).finished()),
            r is Err <==> old(self).drain(old(stream).unread()).bytes.len() == 0
                && old(self).drain(old(stream).unread()).end != End::Done,
            r matches Err(e) ==> reports(
                e,
                old(self).drain(old(stream).unread()).end,
                old(stream).shortage(),
            ) && if old(self).drain(old(stream).unread()).end == End::Broken {
                final(self).finished()
            } else {
                *final(self) == *old(self)
            },
    {
        match self.fill_buf(stream) {
            Err(e) => Err(e),
            Ok(()) => {
                let left: usize = if self.consumed <= self.buffer.len() {
                    self.buffer.len() - self.consumed
                } else {
                    0
                };
                let n: usize = if max <= left {
                    max
                } else {
                    left
                };
                let from: usize = self.buffer.len() - left;
                let b = copy_bytes(self.buffer.as_slice(), from, from + n);
                assert(b@ =~= self.pending().take(n as int));
                let ghost filled = *self;
                self.consume(n);
                assert(filled.drain(stream.unread()) == prepend(b@, self.drain(stream.unread())));
                Ok(b)
            },
        }
    }
}

/// The frames that a writer with the given chunk size emits for `data` as soon
/// as it can: one frame for each full chunk.
pub open spec fn full_frames(data: Seq<u8>, size: nat) -> Seq<u8>
    decreases data.len(),
{
    if size == 0 || data.len() < size {
        Seq::empty()
    } else {
        frame(data.take(size as int)) + full_frames(data.skip(size as int), size)
    }
}

/// What stays buffered in the writer once every full chunk of `data` was
/// emitted.
pub open spec fn leftover(data: Seq<u8>, size: nat) -> Seq<u8>
    decreases data.len(),
{
    if size == 0 || data.len() < size {
        data
    } else {
        leftover(data.skip(size as int), size)
    }
}

/// The frame that a flush emits for what is buffered: none when nothing is.
pub open spec fn last_frame(data: Seq<u8>) -> Seq<u8> {
    if data.len() == 0 {
        Seq::empty()
    } else {
        frame(data)
    }
}

/// The closing frame: size zero, and the line end after its empty payload.
pub open spec fn terminator() -> Seq<u8> {
    seq![0x30u8, 0x0du8, 0x0au8, 0x0du8, 0x0au8]
}

/// A whole body in chunked form: the full chunks, the undersized last one if
/// there is a remainder, and the closing frame.
pub open spec fn chunked(payload: Seq<u8>, size: nat) -> Seq<u8> {
    full_frames(payload, size) + last_frame(leftover(payload, size)) + terminator()
}

/// The writing half of the codec: the configured chunk size and the bytes that
/// were written and do not fill a chunk yet.
pub struct ChunkedWriter {
    chunk_size: usize,
    buffer: Vec<u8>,
}

impl ChunkedWriter {
    /// The configured chunk size.
    pub closed spec fn size(&self) -> nat {
        self.chunk_size as nat
    }

    /// The bytes that were written and not yet emitted.
    pub closed spec fn buffered(&self) -> Seq<u8> {
        self.buffer@
    }

    /// A writer that emits a frame for every `chunk_size` bytes. With a chunk
    /// size of zero nothing is emitted before the flush, which then emits one
    /// frame: a frame without payload would close the body.
    pub fn new(chunk_size: usize) -> (w: ChunkedWriter)
        ensures
            w.size() == chunk_size,
            w.buffered() == Seq::<u8>::empty(),
    {
        ChunkedWriter { chunk_size, buffer: Vec::new() }
    }

    /// Takes `buf` into the buffer and emits one frame for each full chunk
    /// that the buffer then holds; the remainder stays buffered. Returns the
    /// length of `buf`.
    pub fn write(&mut self, stream: &mut Stream, buf: &[u8]) -> (n: usize)
        ensures
            n == buf@.len(),
            final(self).size() == old(self).size(),
            final(self).buffered() == leftover(old(self).buffered() + buf@, old(self).size()),
            final(stream).written() == old(stream).written() + full_frames(
                old(self).buffered() + buf@,
                old(self).size(),
            ),
            final(stream).unread() == old(stream).unread(),
            final(stream).peer_closed() == old(stream).peer_closed(),
    {
        self.buffer.extend_from_slice(buf);
        let ghost all = self.buffer@;
        let ghost size = self.chunk_size as nat;
        let mut off: usize = 0;
        assert(all.skip(0) =~= all);
        while self.chunk_size > 0 && self.buffer.len() - off >= self.chunk_size
            invariant
                self.chunk_size == size,
                size == old(self).size(),
                all == old(self).buffered() + buf@,
                self.buffer@ == all,
                off <= all.len(),
                stream.written() + full_frames(all.skip(off as int), size)
                    == old(stream).written() + full_frames(all, size),
                leftover(all.skip(off as int), size) == leftover(all, size),
                stream.unread() == old(stream).unread(),
                stream.peer_closed() == old(stream).peer_closed(),
            decreases all.len() - off,
        {
            let ghost rest = all.skip(off as int);
            let ghost sent = stream.written();
            let chunk = vstd::slice::slice_subrange(
                self.buffer.as_slice(),
                off,
                off + self.chunk_size,
            );
            write_to_payload(stream, chunk);
            proof {
                assert(chunk@ =~= rest.take(size as int));
                assert(rest.skip(size as int) =~= all.skip(off + size));
                assert((sent + frame(chunk@)) + full_frames(rest.skip(size as int), size) =~= sent
                    + (frame(chunk@) + full_frames(rest.skip(size as int), size)));
            }
            off = off + self.chunk_size;
        }
        let rest = copy_bytes(self.buffer.as_slice(), off, self.buffer.len());
        proof {
            assert(rest@ =~= all.skip(off as int));
            assert(full_frames(all.skip(off as int), size) == Seq::<u8>::empty());
            assert(leftover(all.skip(off as int), size) == all.skip(off as int));
            assert(stream.written() + Seq::<u8>::empty() =~= stream.written());
        }
        self.buffer = rest;
        buf.len()
    }

    /// Emits what is buffered as one undersized frame; emits nothing when the
    /// buffer is empty. The closing frame is for the caller to write.
    pub fn flush(&mut self, stream: &mut Stream)
        ensures
            final(self).size() == old(self).size(),
            final(self).buffered() == Seq::<u8>::empty(),
            final(stream).written() == old(stream).written() + last_frame(old(self).buffered()),
            final(stream).unread() == old(stream).unread(),
            final(stream).peer_closed() == old(stream).peer_closed(),
    {
        if self.buffer.len() == 0 {
            assert(stream.written() + Seq::<u8>::empty() =~= stream.written());
            return ;
        }
        write_to_payload(stream, self.buffer.as_slice());
        self.buffer.clear();
    }
}

/// Writes the closing frame of a chunked body.
pub fn write_terminator(stream: &mut Stream)
    ensures
        final(stream).written() == old(stream).written() + terminator(),
        final(stream).unread() == old(stream).unread(),
        final(stream).peer_closed() == old(stream).peer_closed(),
{
    let end: [u8; 5] = [0x30, 0x0d, 0x0a, 0x0d, 0x0a];
    stream.write_all(end.as_slice());
    assert(end@ =~= terminator());
}

} // verus!
