//! The transport stream: an ordered, bidirectional byte channel held in
//! memory.
//!
//! Whatever carries the bytes (a plain socket, a secured one) hands what it
//! has received to [`Stream::feed`] and sends what [`Stream::take_written`]
//! gives back. The engine reads and writes only through this type, so both
//! roles and both kinds of connection look the same to it. A read that needs
//! more bytes than have arrived fails with [`IoKind::WouldBlock`] while the
//! peer may still send, and with [`IoKind::UnexpectedEof`] once it has closed;
//! a read that fails consumes nothing. A failure that the transport reported
//! in place of bytes is recorded with [`Stream::fail`], for the governed read
//! to find when the bytes run out.

use vstd::prelude::*;
use crate::error::{Error, IoError, IoKind};
use crate::numeral::{render, write_unsigned};
use crate::text::{copy_bytes, find, find_byte, lemma_find_from};

verus! {

/// The line terminator of the wire format.
pub open spec fn crlf() -> Seq<u8> {
    seq![0x0du8, 0x0au8]
}

/// What the next line of the input is, for a reader that gives up after `max`
/// bytes.
pub enum NextLine {
    /// A complete line: its content without the terminator, and how many bytes
    /// of input it takes up, terminator included.
    Line { line: Seq<u8>, used: int },
    /// No line end stands within the first `max` bytes.
    TooLong,
    /// The input ends before a line end and before `max` bytes.
    Short,
}

/// A line without its end: `\n`, or `\r\n`.
pub open spec fn strip_line_end(raw: Seq<u8>) -> Seq<u8> {
    if raw.len() >= 2 && raw[raw.len() - 2] == 0x0d {
        raw.take(raw.len() - 2)
    } else {
        raw.take(raw.len() - 1)
    }
}

/// The next line of `input`, looking at no more than `max` bytes.
pub open spec fn next_line(input: Seq<u8>, max: int) -> NextLine {
    let window = if input.len() <= max {
        input
    } else {
        input.take(max)
    };
    let p = find(window, 0x0au8);
    if p < window.len() {
        NextLine::Line { line: strip_line_end(input.take(p + 1)), used: p + 1 }
    } else if window.len() >= max {
        NextLine::TooLong
    } else {
        NextLine::Short
    }
}

/// What stands where a line end is expected.
pub enum LineEnd {
    /// `\r\n`.
    Present,
    /// Something else.
    Absent,
    /// Fewer bytes than are needed to tell.
    Short,
}

/// Whether `input` begins with `\r\n`.
pub open spec fn line_end(input: Seq<u8>) -> LineEnd {
    if input.len() == 0 {
        LineEnd::Short
    } else if input[0] != 0x0d {
        LineEnd::Absent
    } else if input.len() == 1 {
        LineEnd::Short
    } else if input[1] == 0x0a {
        LineEnd::Present
    } else {
        LineEnd::Absent
    }
}

/// One chunk frame: the size in hexadecimal, a line end, the payload, a line
/// end.
pub open spec fn frame(data: Seq<u8>) -> Seq<u8> {
    render(data.len(), 16) + crlf() + data + crlf()
}

/// `err` is a transport failure of the given kind.
pub open spec fn is_io(err: Error, kind: IoKind) -> bool {
    err matches Error::Io(e) && e.kind == kind
}

/// A byte channel in memory: what has arrived and is not yet read, whether the
/// peer has closed, the failure that the transport reported last, and what
/// was written and is not yet sent.
pub struct Stream {
    inbound: Vec<u8>,
    cursor: usize,
    closed: bool,
    failure: Option<IoError>,
    outbound: Vec<u8>,
}

impl Stream {
    /// The bytes that have arrived and have not been read.
    pub closed spec fn unread(&self) -> Seq<u8> {
        if self.cursor <= self.inbound.len() {
            self.inbound@.skip(self.cursor as int)
        } else {
            Seq::empty()
        }
    }

    /// Whether the peer has finished sending.
    pub closed spec fn peer_closed(&self) -> bool {
        self.closed
    }

    /// The failure that the transport reported when it was last asked for
    /// bytes, if it reported one.
    pub closed spec fn failed(&self) -> Option<IoError> {
        self.failure
    }

    /// The bytes that were written and have not been taken for sending.
    pub closed spec fn written(&self) -> Seq<u8> {
        self.outbound@
    }

    /// The kind of failure of a read that needs more than has arrived.
    pub open spec fn shortage(&self) -> IoKind {
        if self.peer_closed() {
            IoKind::UnexpectedEof
        } else {
            IoKind::WouldBlock
        }
    }

    /// A stream on which `inbound` has arrived, and nothing was written.
    pub fn new(inbound: Vec<u8>, closed: bool) -> (s: Stream)
        ensures
            s.unread() == inbound@,
            s.peer_closed() == closed,
            s.failed() is None,
            s.written() == Seq::<u8>::empty(),
    {
        Stream { inbound, cursor: 0, closed, failure: None, outbound: Vec::new() }
    }

    /// Records that the transport failed with `err` when it was asked for
    /// more bytes.
    pub fn fail(&mut self, err: IoError)
        ensures
            final(self).failed() == Some(err),
            final(self).unread() == old(self).unread(),
            final(self).peer_closed() == old(self).peer_closed(),
            final(self).written() == old(self).written(),
    {
        self.failure = Some(err);
    }

    /// The failure that the transport reported last, if it reported one.
    pub fn failure(&self) -> (r: Option<IoError>)
        ensures
            r == self.failed(),
    {
        match &self.failure {
            Some(err) => Some(err.copy()),
            None => None,
        }
    }

    /// Records bytes that have arrived from the peer.
    pub fn feed(&mut self, bytes: &[u8])
        ensures
            final(self).unread() == old(self).unread() + bytes@,
            final(self).peer_closed() == old(self).peer_closed(),
            final(self).failed() == old(self).failed(),
            final(self).written() == old(self).written(),
    {
        if self.cursor > self.inbound.len() {
            self.cursor = self.inbound.len();
        }
        self.inbound.extend_from_slice(bytes);
        assert(self.unread() =~= old(self).unread() + bytes@);
    }

    /// Records that the peer has finished sending.
    pub fn close(&mut self)
        ensures
            final(self).unread() == old(self).unread(),
            final(self).peer_closed(),
            final(self).failed() == old(self).failed(),
            final(self).written() == old(self).written(),
    {
        self.closed = true;
    }

    /// Whether the peer has finished sending.
    pub fn is_closed(&self) -> (r: bool)
        ensures
            r == self.peer_closed(),
    {
        self.closed
    }

    /// The bytes that have arrived and have not been read.
    pub fn peek(&self) -> (r: &[u8])
        ensures
            r@ == self.unread(),
    {
        let all = self.inbound.as_slice();
        let from: usize = if self.cursor <= all.len() {
            self.cursor
        } else {
            all.len()
        };
        let r = vstd::slice::slice_subrange(all, from, all.len());
        assert(r@ =~= self.unread());
        r
    }

    /// Marks the first `n` unread bytes as read.
    pub fn consume(&mut self, n: usize)
        requires
            n <= old(self).unread().len(),
        ensures
            final(self).unread() == old(self).unread().skip(n as int),
            final(self).peer_closed() == old(self).peer_closed(),
            final(self).failed() == old(self).failed(),
            final(self).written() == old(self).written(),
    {
        if n > 0 {
            self.cursor = self.cursor + n;
        }
        assert(self.unread() =~= old(self).unread().skip(n as int));
    }

    /// Reads up to `max` bytes: as many as have arrived, and none only when
    /// the peer has closed or `max` is zero.
    pub fn read(&mut self, max: usize) -> (r: Result<Vec<u8>, Error>)
        ensures
            final(self).peer_closed() == old(self).peer_closed(),
            final(self).failed() == old(self).failed(),
            final(self).written() == old(self).written(),
            r is Err <==> max > 0 && old(self).unread().len() == 0 && !old(self).peer_closed(),
            r matches Err(e) ==> is_io(e, IoKind::WouldBlock)
                && final(self).unread() == old(self).unread(),
            r matches Ok(b) ==> {
                &&& b@.len() == if old(self).unread().len() <= max {
                    old(self).unread().len()
                } else {
                    max as nat
                }
                &&& b@ == old(self).unread().take(b@.len() as int)
                &&& final(self).unread() == old(self).unread().skip(b@.len() as int)
            },
    {
        let input = self.peek();
        if max > 0 && input.len() == 0 && !self.closed {
            return Err(Error::io(IoKind::WouldBlock, ""));
        }
        let n: usize = if input.len() <= max {
            input.len()
        } else {
            max
        };
        let b = copy_bytes(input, 0, n);
        self.consume(n);
        Ok(b)
    }

    /// Reads exactly `n` bytes, or fails and reads none.
    pub fn read_exact(&mut self, n: usize) -> (r: Result<Vec<u8>, Error>)
        ensures
            final(self).peer_closed() == old(self).peer_closed(),
            final(self).failed() == old(self).failed(),
            final(self).written() == old(self).written(),
            r is Ok <==> n <= old(self).unread().len(),
            r matches Ok(b) ==> b@ == old(self).unread().take(n as int) && final(self).unread()
                == old(self).unread().skip(n as int),
            r matches Err(e) ==> is_io(e, old(self).shortage())
                && final(self).unread() == old(self).unread(),
    {
        let input = self.peek();
        if input.len() < n {
            return Err(self.starved());
        }
        let b = copy_bytes(input, 0, n);
        self.consume(n);
        Ok(b)
    }

    /// The failure of a read that needs more than has arrived.
    pub fn starved(&self) -> (e: Error)
        ensures
            is_io(e, self.shortage()),
    {
        if self.closed {
            Error::io(IoKind::UnexpectedEof, "")
        } else {
            Error::io(IoKind::WouldBlock, "")
        }
    }

    /// Appends `data` to what is to be sent.
    pub fn write_all(&mut self, data: &[u8])
        ensures
            final(self).written() == old(self).written() + data@,
            final(self).unread() == old(self).unread(),
            final(self).peer_closed() == old(self).peer_closed(),
            final(self).failed() == old(self).failed(),
    {
        self.outbound.extend_from_slice(data);
    }

    /// Hands over what was written, for sending; nothing stays behind.
    pub fn take_written(&mut self) -> (r: Vec<u8>)
        ensures
            r@ == old(self).written(),
            final(self).written() == Seq::<u8>::empty(),
            final(self).unread() == old(self).unread(),
            final(self).peer_closed() == old(self).peer_closed(),
            final(self).failed() == old(self).failed(),
    {
        let mut out: Vec<u8> = Vec::new();
        out.append(&mut self.outbound);
        out
    }
}

/// Where the next line of `input[from..]` stands, for a reader that gives up
/// after `max` bytes: the index one past its content and the index one past
/// its line end. Nothing is consumed.
pub fn scan_line(input: &[u8], from: usize, max: usize) -> (r: Result<(usize, usize), IoKind>)
    requires
        from <= input.len(),
    ensures
        match next_line(input@.skip(from as int), max as int) {
            NextLine::Line { line, used } => r matches Ok((end, next)) && from <= end < next
                <= input.len() && next == from + used && input@.subrange(
                from as int,
                end as int,
            ) == line,
            NextLine::TooLong => r == Err::<(usize, usize), IoKind>(IoKind::UnexpectedEof),
            NextLine::Short => r == Err::<(usize, usize), IoKind>(IoKind::WouldBlock),
        },
{
    let avail: usize = input.len() - from;
    let limit: usize = if avail <= max {
        avail
    } else {
        max
    };
    let window = vstd::slice::slice_subrange(input, from, from + limit);
    let ghost rest = input@.skip(from as int);
    assert(window@ =~= if rest.len() <= max {
        rest
    } else {
        rest.take(max as int)
    });
    let p = find_byte(window, 0x0a, 0);
    if p < limit {
        proof {
            lemma_find_from(window@, 0x0au8, 0);
        }
        let end: usize = if p >= 1 && input[from + p - 1] == 0x0d {
            from + p - 1
        } else {
            from + p
        };
        assert(input@.subrange(from as int, end as int) =~= strip_line_end(rest.take(p + 1)));
        Ok((end, from + p + 1))
    } else if limit >= max {
        Err(IoKind::UnexpectedEof)
    } else {
        Err(IoKind::WouldBlock)
    }
}

/// Reads one line of at most `max` bytes, line end included, and returns it
/// without the line end. A line that is longer fails as an unexpected end of
/// input, as does one that the peer cut short by closing.
pub fn read_line(stream: &mut Stream, max: usize) -> (r: Result<Vec<u8>, Error>)
    ensures
        final(stream).peer_closed() == old(stream).peer_closed(),
        final(stream).written() == old(stream).written(),
        match next_line(old(stream).unread(), max as int) {
            NextLine::Line { line, used } => r matches Ok(l) && l@ == line
                && final(stream).unread() == old(stream).unread().skip(used),
            NextLine::TooLong => r matches Err(e) && is_io(e, IoKind::UnexpectedEof)
                && final(stream).unread() == old(stream).unread(),
            NextLine::Short => r matches Err(e) && is_io(e, old(stream).shortage())
                && final(stream).unread() == old(stream).unread(),
        },
{
    let input = stream.peek();
    proof {
        assert(input@.skip(0) =~= input@);
    }
    match scan_line(input, 0, max) {
        Ok((end, next)) => {
            let line = copy_bytes(input, 0, end);
            stream.consume(next);
            Ok(line)
        },
        Err(IoKind::UnexpectedEof) => Err(Error::io(IoKind::UnexpectedEof, "")),
        Err(_) => Err(stream.starved()),
    }
}

/// Reads the line end that must follow the payload of a chunk, and says
/// whether it stood there. Nothing is read unless it did.
pub fn read_line_ending(stream: &mut Stream) -> (r: Result<bool, Error>)
    ensures
        final(stream).peer_closed() == old(stream).peer_closed(),
        final(stream).written() == old(stream).written(),
        match line_end(old(stream).unread()) {
            LineEnd::Present => r == Ok::<bool, Error>(true)
                && final(stream).unread() == old(stream).unread().skip(2),
            LineEnd::Absent => r == Ok::<bool, Error>(false)
                && final(stream).unread() == old(stream).unread(),
            LineEnd::Short => r matches Err(e) && is_io(e, old(stream).shortage())
                && final(stream).unread() == old(stream).unread(),
        },
{
    let input = stream.peek();
    if input.len() == 0 {
        Err(stream.starved())
    } else if input[0] != 0x0d {
        Ok(false)
    } else if input.len() == 1 {
        Err(stream.starved())
    } else if input[1] == 0x0a {
        stream.consume(2);
        Ok(true)
    } else {
        Ok(false)
    }
}

/// Writes `data` as one chunk frame.
pub fn write_to_payload(stream: &mut Stream, data: &[u8])
    ensures
        final(stream).written() == old(stream).written() + frame(data@),
        final(stream).unread() == old(stream).unread(),
        final(stream).peer_closed() == old(stream).peer_closed(),
{
    let size = write_unsigned(data.len(), 16);
    stream.write_all(size.as_slice());
    let end: [u8; 2] = [0x0d, 0x0a];
    stream.write_all(end.as_slice());
    stream.write_all(data);
    stream.write_all(end.as_slice());
    assert(end@ =~= crlf());
    assert(stream.written() =~= old(stream).written() + frame(data@));
}

} // verus!
