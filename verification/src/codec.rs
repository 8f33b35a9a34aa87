//! The codec stack of a body: chunked transfer-encoding over the transport,
//! and gzip content-encoding over that.
//!
//! A body travels through two layers. [`Chunked`] frames it on the wire, or
//! passes it through; [`Compressed`] holds the layer beneath and encodes or
//! decodes the content as a whole. Each layer owns the one beneath it; the
//! transport is handed to every call.

use vstd::prelude::*;
use crate::chunked::{
    chunked, done, prepend, reports, write_terminator, ChunkedReader, ChunkedWriter, Decoded, End,
    READ_STEP,
};
use crate::deadline::{
    close_notify, govern, governed, is_close_notify, refreshed, Deadline, Governed,
};
use crate::error::{Error, IoError, IoKind};
use crate::stream::{is_io, Stream};

verus! {

/// The level above which the compression provider does not go.
pub const MAX_LEVEL: u32 = 10;

/// The gzip encoding of `data` at the given level, as the compression provider
/// computes it; `None` when the provider fails.
pub uninterp spec fn gzip(data: Seq<u8>, level: u32) -> Option<Seq<u8>>;

/// What the first gzip member of `data` decodes to, as the compression
/// provider computes it; `None` when `data` does not begin with a well-formed
/// member.
pub uninterp spec fn gunzip(data: Seq<u8>) -> Option<Seq<u8>>;

/// Compresses `data` as one gzip member.
///
/// Trusted: reads `flate2::bufread::GzEncoder` over `data` to its end. The
/// contract names the result and claims nothing more of it than that equal
/// arguments give equal results. Levels above ten are left out: the provider
/// asserts that there are none.
#[verifier::external_body]
pub(crate) fn gzip_encode(data: &[u8], level: u32) -> (r: Option<Vec<u8>>)
    requires
        level <= MAX_LEVEL,
    ensures
        r is Some <==> gzip(data@, level) is Some,
        r matches Some(v) ==> gzip(data@, level) == Some(v@),
{
    let mut encoder = flate2::bufread::GzEncoder::new(data, flate2::Compression::new(level));
    let mut out = Vec::new();
    match std::io::Read::read_to_end(&mut encoder, &mut out) {
        Ok(_) => Some(out),
        Err(_) => None,
    }
}

/// Decompresses the gzip member that `data` begins with.
///
/// Trusted: reads `flate2::bufread::GzDecoder` over `data` to its end. The
/// contract names the result and claims nothing more of it than that equal
/// arguments give equal results. On failure the provider's description of
/// the fault is handed back.
#[verifier::external_body]
pub(crate) fn gzip_decode(data: &[u8]) -> (r: Result<Vec<u8>, String>)
    ensures
        r is Ok <==> gunzip(data@) is Some,
        r matches Ok(v) ==> gunzip(data@) == Some(v@),
{
    let mut decoder = flate2::bufread::GzDecoder::new(data);
    let mut out = Vec::new();
    match std::io::Read::read_to_end(&mut decoder, &mut out) {
        Ok(_) => Ok(out),
        Err(e) => Err(e.to_string()),
    }
}

/// The gzip encoding of `data` at a level that the provider takes; `None`
/// for a level above [`MAX_LEVEL`] and when the provider fails.
pub open spec fn squeezed(data: Seq<u8>, level: u32) -> Option<Seq<u8>> {
    if level <= MAX_LEVEL {
        gzip(data, level)
    } else {
        None
    }
}

/// Compresses `data` as one gzip member. A level that the provider does not
/// take fails like the provider itself.
pub fn compress(data: &[u8], level: u32) -> (r: Result<Vec<u8>, Error>)
    ensures
        r is Ok <==> squeezed(data@, level) is Some,
        r matches Ok(v) ==> squeezed(data@, level) == Some(v@),
        r matches Err(e) ==> is_io(e, IoKind::Other),
{
    if level > MAX_LEVEL {
        return Err(Error::io(IoKind::Other, "compression level out of range"));
    }
    match gzip_encode(data, level) {
        Some(v) => Ok(v),
        None => Err(Error::io(IoKind::Other, "compression failed")),
    }
}

/// The two directions of the chunked codec.
pub enum Chunky {
    /// Decoding what arrives.
    Read(ChunkedReader),
    /// Framing what is written.
    Write(ChunkedWriter),
}

/// The transfer layer: chunked, or passing bytes through untouched.
pub enum Chunked {
    /// No chunking: reads and writes go straight to the transport.
    Non,
    /// Chunking, in one direction.
    Is(Chunky),
}

impl Chunked {
    /// What a reader of this layer gets when it reads to the end over the
    /// unread input `input`. Without chunking that is the input itself, which
    /// ends when the peer has closed.
    pub open spec fn drain(&self, input: Seq<u8>, closed: bool) -> Decoded {
        match self {
            Chunked::Non => Decoded {
                bytes: input,
                end: if closed {
                    End::Done
                } else {
                    End::Short
                },
                rest: Seq::empty(),
            },
            Chunked::Is(Chunky::Read(r)) => r.drain(input),
            Chunked::Is(Chunky::Write(_)) => done(input),
        }
    }

    /// What this layer puts on the wire when `data` is written to it and it is
    /// then flushed.
    pub open spec fn framed(&self, data: Seq<u8>) -> Seq<u8> {
        match self {
            Chunked::Non => data,
            Chunked::Is(Chunky::Write(w)) => crate::chunked::full_frames(
                w.buffered() + data,
                w.size(),
            ) + crate::chunked::last_frame(
                crate::chunked::leftover(w.buffered() + data, w.size()),
            ),
            Chunked::Is(Chunky::Read(_)) => Seq::empty(),
        }
    }

    /// The bytes that stand ready for a reader of this layer over the unread
    /// input `input`: the input itself where the layer passes bytes through,
    /// and what the chunk reader has ready where it decodes.
    pub open spec fn ready(&self, input: Seq<u8>) -> Seq<u8> {
        match self {
            Chunked::Non => input,
            Chunked::Is(Chunky::Read(r)) => r.ready(input),
            Chunked::Is(Chunky::Write(_)) => Seq::empty(),
        }
    }

    /// Whether a read of up to `max` bytes fails: it asks for bytes, none
    /// come out, and the body is not at its end.
    pub open spec fn starves(&self, input: Seq<u8>, closed: bool, max: usize) -> bool {
        max > 0 && self.drain(input, closed).bytes.len() == 0 && self.drain(input, closed).end
            != End::Done
    }

    /// Whether a read of up to `max` bytes fails for want of input while the
    /// peer may still send.
    pub open spec fn runs_dry(&self, input: Seq<u8>, closed: bool, max: usize) -> bool {
        self.starves(input, closed, max) && self.drain(input, closed).end == End::Short
            && !closed
    }

    /// How many bytes of the unread input `input` a read of up to `max`
    /// bytes consumes.
    pub open spec fn uses(&self, input: Seq<u8>, max: usize) -> int {
        if max == 0 {
            0
        } else {
            match self {
                Chunked::Non => if input.len() <= max {
                    input.len() as int
                } else {
                    max as int
                },
                Chunked::Is(Chunky::Read(r)) => r.uses(input),
                Chunked::Is(Chunky::Write(_)) => 0,
            }
        }
    }

    /// The chunk size of a layer that frames what is written.
    pub open spec fn chunk_size(&self) -> Option<nat> {
        match self {
            Chunked::Is(Chunky::Write(w)) => Some(w.size()),
            _ => None,
        }
    }

    /// The bytes that a layer that frames has taken in and not yet emitted.
    pub open spec fn buffered(&self) -> Seq<u8> {
        match self {
            Chunked::Is(Chunky::Write(w)) => w.buffered(),
            _ => Seq::empty(),
        }
    }

    /// What goes on the wire at once when `data` is written to this layer:
    /// the data itself where the layer passes bytes through, and the frames
    /// of the full chunks where it frames.
    pub open spec fn emitted(&self, data: Seq<u8>) -> Seq<u8> {
        match self {
            Chunked::Non => data,
            Chunked::Is(Chunky::Write(w)) => crate::chunked::full_frames(
                w.buffered() + data,
                w.size(),
            ),
            Chunked::Is(Chunky::Read(_)) => Seq::empty(),
        }
    }

    /// What a flush of this layer puts on the wire.
    pub open spec fn held(&self) -> Seq<u8> {
        match self {
            Chunked::Is(Chunky::Write(w)) => crate::chunked::last_frame(w.buffered()),
            _ => Seq::empty(),
        }
    }

    /// Whether this layer passes bytes through.
    pub open spec fn passes(&self) -> bool {
        self is Non
    }

    /// Whether this layer takes in what is written to it.
    pub open spec fn writable(&self) -> bool {
        !(self matches Chunked::Is(Chunky::Read(_)))
    }

    /// With `chunked` false, a layer that passes bytes through. With `chunked`
    /// true, a writer of chunks of `chunk_size` bytes where a size is given,
    /// and a reader of chunks where none is.
    pub fn new(chunk_size: Option<usize>, chunked: bool) -> (c: Chunked)
        ensures
            !chunked ==> c == Chunked::Non,
            chunked && chunk_size is None ==> (c matches Chunked::Is(Chunky::Read(r))
                && !r.finished() && r.pending().len() == 0 && r.left() == 0 && !r.at_end()
                && forall|input: Seq<u8>|
                #[trigger] r.drain(input) == crate::chunked::dechunk(input)),
            chunked && chunk_size is Some ==> (c matches Chunked::Is(Chunky::Write(w)) && w.size()
                == chunk_size->0 && w.buffered() == Seq::<u8>::empty()),
    {
        if chunked {
            match chunk_size {
                Some(size) => Chunked::Is(Chunky::Write(ChunkedWriter::new(size))),
                None => Chunked::Is(Chunky::Read(ChunkedReader::new())),
            }
        } else {
            Chunked::Non
        }
    }

    /// Reads up to `max` bytes through this layer. Returns none only at the
    /// end of the body or when `max` is zero. A layer that writes has nothing
    /// to read. A payload without its line end fails the read and ends
    /// decoding for good; any other read that fails changes nothing.
    pub fn read(&mut self, stream: &mut Stream, max: usize) -> (r: Result<Vec<u8>, Error>)
        ensures
            final(stream).peer_closed() == old(stream).peer_closed(),
            final(stream).written() == old(stream).written(),
            final(stream).failed() == old(stream).failed(),
            final(stream).unread() == old(stream).unread().skip(
                old(self).uses(old(stream).unread(), max),
            ),
            final(self).passes() == old(self).passes(),
            r matches Ok(b) ==> {
                let after = final(self).drain(final(stream).unread(), old(stream).peer_closed());
                &&& old(self).drain(old(stream).unread(), old(stream).peer_closed()) == prepend(
                    b@,
                    after,
                )
                &&& b@ == old(self).ready(old(stream).unread()).take(
                    if max <= old(self).ready(old(stream).unread()).len() {
                        max as int
                    } else {
                        old(self).ready(old(stream).unread()).len() as int
                    },
                )
                &&& b@.len() == 0 ==> max == 0 || after == done(final(stream).unread())
            },
            r is Err <==> max > 0 && old(self).drain(
                old(stream).unread(),
                old(stream).peer_closed(),
            ).bytes.len() == 0 && old(self).drain(
                old(stream).unread(),
                old(stream).peer_closed(),
            ).end != End::Done,
            r matches Err(e) ==> reports(
                e,
                old(self).drain(old(stream).unread(), old(stream).peer_closed()).end,
                old(stream).shortage(),
            ) && if old(self).drain(old(stream).unread(), old(stream).peer_closed()).end
                == End::Broken {
                final(self).drain(final(stream).unread(), old(stream).peer_closed()) == done(
                    final(stream).unread(),
                )
            } else {
                *final(self) == *old(self) && final(stream).unread() == old(stream).unread()
            },
    {
        if max == 0 {
            let b: Vec<u8> = Vec::new();
            proof {
                let d = self.drain(stream.unread(), stream.peer_closed());
                assert(b@ + d.bytes =~= d.bytes);
                assert(stream.unread().skip(0) =~= stream.unread());
            }
            return Ok(b);
        }
        match self {
            Chunked::Non => {
                let ghost input = stream.unread();
                match stream.read(max) {
                    Ok(b) => {
                        proof {
                            assert(b@ + stream.unread() =~= input);
                            if b@.len() == 0 {
                                assert(stream.unread() =~= Seq::<u8>::empty());
                            }
                        }
                        Ok(b)
                    },
                    Err(e) => Err(e),
                }
            },
            Chunked::Is(Chunky::Read(reader)) => {
                let ghost input = stream.unread();
                match reader.read(stream, max) {
                    Ok(b) => {
                        proof {
                            if b@.len() == 0 {
                                reader.lemma_finished(stream.unread());
                            }
                        }
                        Ok(b)
                    },
                    Err(e) => {
                        proof {
                            if reader.finished() {
                                reader.lemma_finished(stream.unread());
                            }
                            assert(input.skip(0) =~= input);
                        }
                        Err(e)
                    },
                }
            },
            Chunked::Is(Chunky::Write(_)) => {
                let b: Vec<u8> = Vec::new();
                proof {
                    assert(b@ + Seq::<u8>::empty() =~= Seq::<u8>::empty());
                    assert(stream.unread().skip(0) =~= stream.unread());
                }
                Ok(b)
            },
        }
    }

    /// Writes `buf` through this layer and says how many bytes it took in:
    /// all of them, or none where the layer reads.
    pub fn write(&mut self, stream: &mut Stream, buf: &[u8]) -> (n: usize)
        ensures
            final(stream).unread() == old(stream).unread(),
            final(stream).peer_closed() == old(stream).peer_closed(),
            n == if old(self).writable() {
                buf@.len()
            } else {
                0
            },
            final(stream).written() == old(stream).written() + old(self).emitted(buf@),
            final(self).passes() == old(self).passes(),
            final(self).writable() == old(self).writable(),
            final(self).chunk_size() == old(self).chunk_size(),
            final(self).buffered() == (match old(self).chunk_size() {
                Some(size) => crate::chunked::leftover(old(self).buffered() + buf@, size),
                None => Seq::empty(),
            }),
            !old(self).writable() ==> *final(self) == *old(self),
            final(stream).written() + final(self).held() == old(stream).written()
                + old(self).framed(buf@),
    {
        match self {
            Chunked::Non => {
                stream.write_all(buf);
                proof {
                    let sent = old(stream).written();
                    assert(stream.written() + Seq::<u8>::empty() =~= sent + buf@);
                }
                buf.len()
            },
            Chunked::Is(Chunky::Write(writer)) => {
                let ghost was = writer.buffered();
                let ghost size = writer.size();
                let ghost sent = stream.written();
                let n = writer.write(stream, buf);
                proof {
                    assert(stream.written() + self.held() =~= sent + old(self).framed(buf@));
                }
                n
            },
            Chunked::Is(Chunky::Read(_)) => {
                proof {
                    let sent = stream.written();
                    assert(sent + Seq::<u8>::empty() =~= sent);
                }
                0
            },
        }
    }

    /// Puts on the wire what this layer still holds back.
    pub fn flush(&mut self, stream: &mut Stream)
        ensures
            final(stream).unread() == old(stream).unread(),
            final(stream).peer_closed() == old(stream).peer_closed(),
            final(self).passes() == old(self).passes(),
            final(self).writable() == old(self).writable(),
            final(self).chunk_size() == old(self).chunk_size(),
            final(self).buffered() == Seq::<u8>::empty(),
            final(stream).written() == old(stream).written() + old(self).held(),
            final(self).held() == Seq::<u8>::empty(),
    {
        match self {
            Chunked::Is(Chunky::Write(writer)) => {
                writer.flush(stream);
            },
            _ => {
                proof {
                    assert(stream.written() + Seq::<u8>::empty() =~= stream.written());
                }
            },
        }
    }
}

/// How many of the bytes that come out of `d` a reader takes: all of them, or
/// as many as the budget allows.
pub open spec fn taken(d: Decoded, budget: Option<usize>) -> int {
    match budget {
        Some(n) => if n <= d.bytes.len() {
            n as int
        } else {
            d.bytes.len() as int
        },
        None => d.bytes.len() as int,
    }
}

/// Whether reading comes to a good end: the budget is used up, or the body is
/// at its end.
pub open spec fn filled(d: Decoded, budget: Option<usize>) -> bool {
    (budget matches Some(n) && d.bytes.len() >= n) || d.end == End::Done
}

/// What is left of a budget once `have` bytes were counted against it.
pub open spec fn left_of(budget: Option<usize>, have: nat) -> Option<usize> {
    match budget {
        Some(n) => Some(
            if n >= have {
                (n - have) as usize
            } else {
                0
            },
        ),
        None => None,
    }
}

/// Reads through `layer` and appends to `sink`, at most [`READ_STEP`] bytes
/// at a time, until `budget` bytes were read or, where there is no budget or
/// the body is shorter, until the body is at its end. What `sink` held before
/// does not count against the budget.
///
/// When it fails, what was read stays in `sink`. After a failure other than a
/// payload without its line end the layer stands where reading stopped, and
/// reading may go on from there, with what is left of the budget, once more
/// input has arrived. A payload without its line end ends decoding for good.
pub fn pull(stream: &mut Stream, layer: &mut Chunked, sink: &mut Vec<u8>,
    budget: Option<usize>) -> (r:
    Result<(), Error>)
    ensures
        final(stream).peer_closed() == old(stream).peer_closed(),
        final(stream).written() == old(stream).written(),
        final(stream).failed() == old(stream).failed(),
        final(layer).passes() == old(layer).passes(),
        ({
            let d = old(layer).drain(old(stream).unread(), old(stream).peer_closed());
            let n = taken(d, budget);
            let after = final(layer).drain(final(stream).unread(), old(stream).peer_closed());
            &&& final(sink)@ == old(sink)@ + d.bytes.take(n)
            &&& r is Ok <==> filled(d, budget)
            &&& r matches Err(e) ==> reports(e, d.end, old(stream).shortage())
            &&& r is Ok || d.end != End::Broken ==> d == prepend(d.bytes.take(n), after)
            &&& r is Err && d.end == End::Broken ==> after == done(final(stream).unread())
            &&& r is Ok && budget is None ==> after == done(final(stream).unread())
        }),
{
    let ghost d = layer.drain(stream.unread(), stream.peer_closed());
    let ghost closed = stream.peer_closed();
    let start: usize = sink.len();
    proof {
        assert(d.bytes.take(0) =~= Seq::<u8>::empty());
        assert(sink@ + d.bytes.take(0) =~= sink@);
        assert(d.bytes.take(0) + d.bytes =~= d.bytes);
    }
    loop
        invariant
            stream.peer_closed() == closed,
            closed == old(stream).peer_closed(),
            stream.written() == old(stream).written(),
            stream.failed() == old(stream).failed(),
            stream.shortage() == old(stream).shortage(),
            layer.passes() == old(layer).passes(),
            d == old(layer).drain(old(stream).unread(), old(stream).peer_closed()),
            start == old(sink)@.len(),
            start <= sink@.len(),
            sink@.len() - start <= d.bytes.len(),
            budget matches Some(n) ==> sink@.len() - start <= n,
            sink@ == old(sink)@ + d.bytes.take(sink@.len() - start),
            d == prepend(
                d.bytes.take(sink@.len() - start),
                layer.drain(stream.unread(), closed),
            ),
        decreases layer.drain(stream.unread(), closed).bytes.len(),
    {
        let ghost k = sink@.len() - start;
        let ghost cur = layer.drain(stream.unread(), closed);
        let got: usize = sink.len() - start;
        let step: usize = match budget {
            Some(n) => {
                if n <= got {
                    return Ok(());
                }
                if n - got < READ_STEP {
                    n - got
                } else {
                    READ_STEP
                }
            },
            None => READ_STEP,
        };
        match layer.read(stream, step) {
            Err(e) => {
                proof {
                    assert(d.bytes =~= d.bytes.take(k) + cur.bytes);
                }
                return Err(e);
            },
            Ok(b) => {
                let ghost next = layer.drain(stream.unread(), closed);
                if b.len() == 0 {
                    proof {
                        assert(d.bytes =~= d.bytes.take(k) + cur.bytes);
                    }
                    return Ok(());
                }
                let ghost was = sink@;
                sink.extend_from_slice(b.as_slice());
                proof {
                    assert(cur.bytes == b@ + next.bytes);
                    assert(d.bytes =~= d.bytes.take(k) + (b@ + next.bytes));
                    assert(d.bytes.take(k + b@.len()) =~= d.bytes.take(k) + b@);
                    assert(sink@ =~= old(sink)@ + d.bytes.take(k + b@.len()));
                    assert(d.bytes.take(k + b@.len()) + next.bytes =~= d.bytes);
                }
            },
        }
    }
}

/// The two directions of the gzip codec, each over the transfer layer.
pub enum Gzip {
    /// Decoding: the encoded bytes gathered so far, and whether they were
    /// decoded already.
    De { inner: Chunked, raw: Vec<u8>, done: bool },
    /// Encoding: the body in encoded form, and whether it went out already.
    En { inner: Chunked, encoded: Vec<u8>, sent: bool },
}

/// The content layer: gzip, or passing bytes through untouched.
pub enum Compressed {
    /// No compression.
    Non(Chunked),
    /// Compression, in one direction.
    Is(Gzip),
}

/// The transport failure that stands for a fault of the compression provider.
pub fn provider_fault(message: String) -> (e: Error)
    ensures
        e == Error::Io(IoError { kind: IoKind::Other, message }),
{
    Error::Io(IoError { kind: IoKind::Other, message })
}

impl Compressed {
    /// The transfer layer beneath.
    pub open spec fn layer(&self) -> Chunked {
        match self {
            Compressed::Non(c) => *c,
            Compressed::Is(Gzip::De { inner, .. }) => *inner,
            Compressed::Is(Gzip::En { inner, .. }) => *inner,
        }
    }

    /// The encoded bytes that a decoding layer has gathered.
    pub open spec fn gathered(&self) -> Seq<u8> {
        match self {
            Compressed::Is(Gzip::De { raw, .. }) => raw@,
            _ => Seq::empty(),
        }
    }

    /// This layer decodes, and has not done so yet.
    pub open spec fn decoding(&self) -> bool {
        self matches Compressed::Is(Gzip::De { done, .. }) && !*done
    }

    /// This layer decodes, and has done so.
    pub open spec fn decoded(&self) -> bool {
        self matches Compressed::Is(Gzip::De { done, .. }) && *done
    }

    /// What goes to the transfer layer when `req` is written to this layer and
    /// it is then flushed: the encoded body where this layer encodes and has
    /// not sent it yet, nothing where it has, and `req` itself otherwise.
    pub open spec fn outgoing(&self, req: Seq<u8>) -> Seq<u8> {
        match self {
            Compressed::Is(Gzip::En { encoded, sent, .. }) => if *sent {
                Seq::empty()
            } else {
                encoded@
            },
            _ => req,
        }
    }

    /// Without `compressed`, a layer that passes bytes through. With it, an
    /// encoder of `data` at the level `comp_level` where a level is given,
    /// and a decoder where none is.
    pub fn new(inner: Chunked, comp_level: Option<u32>, data: Option<&[u8]>,
        compressed: bool) -> (r:
        Result<Compressed, Error>)
        requires
            compressed && comp_level is Some ==> data is Some,
        ensures
            !compressed ==> r == Ok::<Compressed, Error>(Compressed::Non(inner)),
            compressed && comp_level is None ==> (r matches Ok(
                Compressed::Is(Gzip::De { inner: i, raw, done }),
            ) && i == inner && raw@ == Seq::<u8>::empty() && !done),
            compressed && comp_level is Some ==> match squeezed(data->0@, comp_level->0) {
                Some(e) => r matches Ok(Compressed::Is(Gzip::En { inner: i, encoded, sent })) && i
                    == inner && encoded@ == e && !sent,
                None => r matches Err(e) && is_io(e, IoKind::Other),
            },
    {
        if compressed {
            match comp_level {
                Some(level) => {
                    let body = match data {
                        Some(body) => body,
                        None => {
                            return Err(Error::io(IoKind::Other, ""));
                        },
                    };
                    match compress(body, level) {
                        Ok(encoded) => Ok(
                            Compressed::Is(Gzip::En { inner, encoded, sent: false }),
                        ),
                        Err(e) => Err(e),
                    }
                },
                None => Ok(Compressed::Is(Gzip::De { inner, raw: Vec::new(), done: false })),
            }
        } else {
            Ok(Compressed::Non(inner))
        }
    }

    /// How many bytes go to the transfer layer for a body of `len` bytes.
    pub fn content_length(&self, len: usize) -> (n: usize)
        ensures
            n == match self {
                Compressed::Is(Gzip::En { encoded, .. }) => encoded@.len(),
                _ => len as nat,
            },
    {
        match self {
            Compressed::Is(Gzip::En { encoded, .. }) => encoded.len(),
            _ => len,
        }
    }

    /// Whether this layer encodes.
    pub open spec fn encoding(&self) -> bool {
        self matches Compressed::Is(Gzip::En { .. })
    }

    /// Reads up to `max` bytes through the transfer layer beneath, as
    /// [`Chunked::read`] does. The state of this layer stays as it is.
    pub fn read(&mut self, stream: &mut Stream, max: usize) -> (r: Result<Vec<u8>, Error>)
        ensures
            final(stream).peer_closed() == old(stream).peer_closed(),
            final(stream).written() == old(stream).written(),
            final(stream).failed() == old(stream).failed(),
            final(stream).unread() == old(stream).unread().skip(
                old(self).layer().uses(old(stream).unread(), max),
            ),
            final(self).gathered() == old(self).gathered(),
            final(self).layer().passes() == old(self).layer().passes(),
            final(self).decoding() == old(self).decoding(),
            final(self).decoded() == old(self).decoded(),
            final(self).encoding() == old(self).encoding(),
            r matches Ok(b) ==> {
                let after = final(self).layer().drain(
                    final(stream).unread(),
                    old(stream).peer_closed(),
                );
                &&& old(self).layer().drain(old(stream).unread(), old(stream).peer_closed())
                    == prepend(b@, after)
                &&& b@ == old(self).layer().ready(old(stream).unread()).take(
                    if max <= old(self).layer().ready(old(stream).unread()).len() {
                        max as int
                    } else {
                        old(self).layer().ready(old(stream).unread()).len() as int
                    },
                )
                &&& b@.len() == 0 ==> max == 0 || after == done(final(stream).unread())
            },
            r is Err <==> old(self).layer().starves(
                old(stream).unread(),
                old(stream).peer_closed(),
                max,
            ),
            r matches Err(e) ==> reports(
                e,
                old(self).layer().drain(old(stream).unread(), old(stream).peer_closed()).end,
                old(stream).shortage(),
            ) && if old(self).layer().drain(old(stream).unread(), old(stream).peer_closed()).end
                == End::Broken {
                final(self).layer().drain(final(stream).unread(), old(stream).peer_closed())
                    == done(final(stream).unread())
            } else {
                *final(self) == *old(self) && final(stream).unread() == old(stream).unread()
            },
    {
        match self {
            Compressed::Non(c) => c.read(stream, max),
            Compressed::Is(Gzip::De { inner, .. }) => inner.read(stream, max),
            Compressed::Is(Gzip::En { inner, .. }) => inner.read(stream, max),
        }
    }

    /// Writes `buf` to this layer and says how many bytes it took in: all of
    /// them, or none where the transfer layer reads. An encoder sends the
    /// encoded body in place of `buf`, once. What goes to the transfer layer
    /// goes through it as [`Chunked::write`] says.
    pub fn write(&mut self, stream: &mut Stream, buf: &[u8]) -> (n: usize)
        ensures
            final(stream).unread() == old(stream).unread(),
            final(stream).peer_closed() == old(stream).peer_closed(),
            n == if old(self).layer().writable() {
                buf@.len()
            } else {
                0
            },
            final(stream).written() == old(stream).written() + old(self).layer().emitted(
                old(self).outgoing(buf@),
            ),
            final(self).layer().passes() == old(self).layer().passes(),
            final(self).layer().writable() == old(self).layer().writable(),
            final(self).layer().chunk_size() == old(self).layer().chunk_size(),
            final(self).layer().buffered() == (match old(self).layer().chunk_size() {
                Some(size) => crate::chunked::leftover(
                    old(self).layer().buffered() + old(self).outgoing(buf@),
                    size,
                ),
                None => Seq::empty(),
            }),
            final(self).gathered() == old(self).gathered(),
            final(self).decoding() == old(self).decoding(),
            final(self).decoded() == old(self).decoded(),
            final(self).encoding() == old(self).encoding(),
            final(stream).written() + final(self).layer().held() == old(stream).written()
                + old(self).layer().framed(old(self).outgoing(buf@)),
            final(self).outgoing(Seq::empty()) == Seq::<u8>::empty(),
    {
        match self {
            Compressed::Non(c) => c.write(stream, buf),
            Compressed::Is(Gzip::De { inner, .. }) => inner.write(stream, buf),
            Compressed::Is(Gzip::En { inner, encoded, sent }) => {
                if *sent {
                    let nothing: Vec<u8> = Vec::new();
                    inner.write(stream, nothing.as_slice());
                } else {
                    inner.write(stream, encoded.as_slice());
                }
                *sent = true;
                match inner {
                    Chunked::Is(Chunky::Read(_)) => 0,
                    _ => buf.len(),
                }
            },
        }
    }

    /// Puts on the wire what this layer and the one beneath still hold back.
    pub fn flush(&mut self, stream: &mut Stream)
        ensures
            final(stream).unread() == old(stream).unread(),
            final(stream).peer_closed() == old(stream).peer_closed(),
            final(stream).written() == old(stream).written() + old(self).layer().held(),
            final(self).layer().held() == Seq::<u8>::empty(),
            final(self).layer().buffered() == Seq::<u8>::empty(),
            final(self).layer().passes() == old(self).layer().passes(),
            final(self).layer().writable() == old(self).layer().writable(),
            final(self).layer().chunk_size() == old(self).layer().chunk_size(),
    {
        match self {
            Compressed::Non(c) => c.flush(stream),
            Compressed::Is(Gzip::De { inner, .. }) => inner.flush(stream),
            Compressed::Is(Gzip::En { inner, .. }) => inner.flush(stream),
        }
    }
}

/// The error of a call whose deadline has passed.
pub fn timed_out() -> (e: Error)
    ensures
        is_io(e, IoKind::TimedOut),
{
    Error::io(IoKind::TimedOut, "Connection timed out")
}

/// Writes `req` through the codec stack, under the deadline governor.
///
/// A deadline that has passed when it is due fails the write as timed out,
/// and nothing is handed to the stack. Otherwise the write goes ahead as
/// [`Compressed::write`] says, and what the governor decided comes back with
/// the count: the timeout to set on the transport, where one is due.
pub fn write_until(
    stream: &mut Stream,
    codec: &mut Compressed,
    req: &[u8],
    deadline: &mut Option<Deadline>,
    now: u64,
) -> (r: Result<(usize, Governed), Error>)
    ensures
        *final(deadline) == refreshed(*old(deadline), now),
        final(stream).unread() == old(stream).unread(),
        final(stream).peer_closed() == old(stream).peer_closed(),
        r is Ok <==> governed(*old(deadline), now) is Some,
        governed(*old(deadline), now) is None ==> (r matches Err(e) && is_io(e, IoKind::TimedOut))
            && *final(codec) == *old(codec) && final(stream).written() == old(stream).written(),
        governed(*old(deadline), now) matches Some(g) ==> {
            &&& r matches Ok(v) && v.1 == g && v.0 == if old(codec).layer().writable() {
                req@.len()
            } else {
                0
            }
            &&& final(stream).written() == old(stream).written() + old(codec).layer().emitted(
                old(codec).outgoing(req@),
            )
            &&& final(codec).layer().passes() == old(codec).layer().passes()
            &&& final(codec).layer().writable() == old(codec).layer().writable()
            &&& final(codec).layer().chunk_size() == old(codec).layer().chunk_size()
            &&& final(codec).layer().buffered() == (match old(codec).layer().chunk_size() {
                Some(size) => crate::chunked::leftover(
                    old(codec).layer().buffered() + old(codec).outgoing(req@),
                    size,
                ),
                None => Seq::empty(),
            })
            &&& final(stream).written() + final(codec).layer().held() == old(stream).written()
                + old(codec).layer().framed(old(codec).outgoing(req@))
        },
{
    let g = match govern(deadline, now) {
        Ok(g) => g,
        Err(e) => {
            return Err(e);
        },
    };
    let n = codec.write(stream, req);
    Ok((n, g))
}

/// Writes all of `req` through the codec stack and flushes it. A stack that
/// takes nothing in fails as an unexpected end.
pub fn write_all_until(stream: &mut Stream, codec: &mut Compressed, req: &[u8]) -> (r: Result<
    (),
    Error,
>)
    ensures
        final(stream).unread() == old(stream).unread(),
        final(stream).peer_closed() == old(stream).peer_closed(),
        r is Err <==> req@.len() > 0 && !old(codec).layer().writable(),
        r matches Err(e) ==> is_io(e, IoKind::UnexpectedEof)
            && final(stream).written() == old(stream).written(),
        r is Ok ==> final(stream).written() == old(stream).written() + old(codec).layer().framed(
            old(codec).outgoing(req@),
        ),
{
    let n = codec.write(stream, req);
    if req.len() > 0 && n == 0 {
        proof {
            assert(stream.written() =~= old(stream).written() + Seq::<u8>::empty());
        }
        return Err(Error::io(IoKind::UnexpectedEof, ""));
    }
    codec.flush(stream);
    Ok(())
}

/// Whether a governed read takes a failure of the transport for the end of
/// the input: the bytes that have arrived run out in front of it, the peer
/// has not closed, and the transport reported the close notification of a
/// secured channel.
pub open spec fn absorbs(
    failed: Option<IoError>,
    layer: Chunked,
    input: Seq<u8>,
    closed: bool,
    max: usize,
) -> bool {
    layer.runs_dry(input, closed, max) && (failed matches Some(f) && close_notify(f))
}

/// Reads up to `max` bytes through the transfer layer of the codec stack,
/// under the deadline governor.
///
/// A deadline that has passed when it is due fails the read as timed out, and
/// nothing is read. Otherwise the read goes ahead as [`Compressed::read`]
/// says, and what the governor decided comes back with the bytes: the timeout
/// to set on the transport, where one is due. Where the bytes that have
/// arrived run out and the transport has reported a failure in their place,
/// the close notification of a secured channel is taken as the end of the
/// input, no bytes, and any other failure is the error of the read.
pub fn read_until(
    stream: &mut Stream,
    codec: &mut Compressed,
    max: usize,
    deadline: &mut Option<Deadline>,
    now: u64,
) -> (r: Result<(Vec<u8>, Governed), Error>)
    ensures
        *final(deadline) == refreshed(*old(deadline), now),
        final(stream).peer_closed() == old(stream).peer_closed(),
        final(stream).written() == old(stream).written(),
        final(stream).failed() == old(stream).failed(),
        final(codec).gathered() == old(codec).gathered(),
        final(codec).layer().passes() == old(codec).layer().passes(),
        final(codec).decoding() == old(codec).decoding(),
        final(codec).decoded() == old(codec).decoded(),
        governed(*old(deadline), now) is None ==> (r matches Err(e) && is_io(e, IoKind::TimedOut))
            && *final(codec) == *old(codec) && final(stream).unread() == old(stream).unread(),
        governed(*old(deadline), now) matches Some(g) ==> ({
            let input = old(stream).unread();
            let closed = old(stream).peer_closed();
            let layer = old(codec).layer();
            let d = layer.drain(input, closed);
            let after = final(codec).layer().drain(final(stream).unread(), closed);
            if absorbs(old(stream).failed(), layer, input, closed, max) {
                &&& r matches Ok(v) && v.0@ == Seq::<u8>::empty() && v.1 == g
                &&& *final(codec) == *old(codec)
                &&& final(stream).unread() == input
            } else {
                &&& final(stream).unread() == input.skip(layer.uses(input, max))
                &&& r is Err <==> layer.starves(input, closed, max)
                &&& r matches Ok(v) ==> {
                    &&& v.1 == g
                    &&& d == prepend(v.0@, after)
                    &&& v.0@ == layer.ready(input).take(
                        if max <= layer.ready(input).len() {
                            max as int
                        } else {
                            layer.ready(input).len() as int
                        },
                    )
                    &&& v.0@.len() == 0 ==> max == 0 || after == done(final(stream).unread())
                }
                &&& r matches Err(e) ==> {
                    &&& if layer.runs_dry(input, closed, max) && old(stream).failed() is Some {
                        e == Error::Io(old(stream).failed()->0)
                    } else {
                        reports(e, d.end, old(stream).shortage())
                    }
                    &&& if d.end == End::Broken {
                        after == done(final(stream).unread())
                    } else {
                        *final(codec) == *old(codec) && final(stream).unread() == input
                    }
                }
            }
        }),
{
    let g = match govern(deadline, now) {
        Ok(g) => g,
        Err(e) => {
            return Err(e);
        },
    };
    let ghost input = stream.unread();
    match codec.read(stream, max) {
        Ok(b) => Ok((b, g)),
        Err(e) => {
            let dry = match &e {
                Error::Io(io) => io.kind == IoKind::WouldBlock,
                _ => false,
            };
            if !dry {
                return Err(e);
            }
            match stream.failure() {
                None => Err(e),
                Some(f) => {
                    if is_close_notify(&f) {
                        proof {
                            assert(input.skip(0) =~= input);
                        }
                        Ok((Vec::new(), g))
                    } else {
                        Err(Error::Io(f))
                    }
                },
            }
        },
    }
}

/// Reads a body to its end through the codec stack and appends it to `body`.
///
/// The bytes come through the transfer layer, at most [`READ_STEP`] at a time,
/// until there are `content_length` of them or, where no length is given or
/// the body is shorter, until the body is at its end. What `body` held before
/// does not count. A decoding layer gathers the bytes, counts the length
/// against what it has gathered, and appends what they decode to; any other
/// layer appends them as they are.
///
/// When the input runs short, what was read is kept. A decoding layer may be
/// read again with the same length once more input has arrived; any other
/// layer with what is left of the length.
pub fn read_to_end_until(
    stream: &mut Stream,
    codec: &mut Compressed,
    body: &mut Vec<u8>,
    content_length: Option<usize>,
) -> (r: Result<(), Error>)
    ensures
        final(stream).peer_closed() == old(stream).peer_closed(),
        final(stream).written() == old(stream).written(),
        final(codec).layer().passes() == old(codec).layer().passes(),
        old(codec).decoded() ==> r is Ok && *final(codec) == *old(codec)
            && final(body)@ == old(body)@ && final(stream).unread() == old(stream).unread(),
        !old(codec).decoded() ==> ({
            let d = old(codec).layer().drain(old(stream).unread(), old(stream).peer_closed());
            let after = final(codec).layer().drain(
                final(stream).unread(),
                old(stream).peer_closed(),
            );
            let budget = if old(codec).decoding() {
                left_of(content_length, old(codec).gathered().len())
            } else {
                content_length
            };
            let n = taken(d, budget);
            let full = filled(d, budget);
            &&& !full ==> (r matches Err(e) && reports(e, d.end, old(stream).shortage()))
            &&& r is Ok || d.end != End::Broken ==> d == prepend(d.bytes.take(n), after)
            &&& r is Ok && content_length is None ==> after == done(final(stream).unread())
            &&& if old(codec).decoding() {
                &&& final(codec).gathered() == old(codec).gathered() + d.bytes.take(n)
                &&& full ==> match gunzip(final(codec).gathered()) {
                    Some(plain) => r is Ok && final(codec).decoded() && final(body)@ == old(body)@
                        + plain,
                    None => r matches Err(e) && is_io(e, IoKind::Other),
                }
                &&& r is Err ==> final(body)@ == old(body)@ && final(codec).decoding()
            } else {
                &&& final(body)@ == old(body)@ + d.bytes.take(n)
                &&& full ==> r is Ok
                &&& !final(codec).decoded() && !final(codec).decoding()
            }
        }),
{
    match codec {
        Compressed::Non(c) => pull(stream, c, body, content_length),
        Compressed::Is(Gzip::En { inner, .. }) => pull(stream, inner, body, content_length),
        Compressed::Is(Gzip::De { inner, raw, done }) => {
            if *done {
                return Ok(());
            }
            let left: Option<usize> = match content_length {
                Some(n) => Some(
                    if n >= raw.len() {
                        n - raw.len()
                    } else {
                        0
                    },
                ),
                None => None,
            };
            match pull(stream, inner, raw, left) {
                Err(e) => Err(e),
                Ok(()) => match gzip_decode(raw.as_slice()) {
                    Err(message) => Err(provider_fault(message)),
                    Ok(plain) => {
                        body.extend_from_slice(plain.as_slice());
                        *done = true;
                        Ok(())
                    },
                },
            }
        },
    }
}

/// How the body of a message is delimited and encoded, as its headers say.
#[derive(Debug, Clone, Copy, PartialEq, Eq, Structural)]
pub struct BodyPlan {
    /// The transfer is chunked.
    pub chunked: bool,
    /// The content is gzip compressed.
    pub gzip: bool,
    /// The exact number of bytes on the wire; looked at only where the
    /// transfer is not chunked.
    pub content_length: Option<usize>,
}

/// The bytes of a body as they come off the wire, before any content
/// decoding: decoded from chunks where the transfer is chunked, and the input
/// itself, which ends when the peer has closed, where it is not.
pub open spec fn arriving(input: Seq<u8>, closed: bool, chunked: bool) -> Decoded {
    if chunked {
        crate::chunked::dechunk(input)
    } else {
        Decoded {
            bytes: input,
            end: if closed {
                End::Done
            } else {
                End::Short
            },
            rest: Seq::empty(),
        }
    }
}

/// How receiving a body ends.
pub enum Reception {
    /// The body, with its content decoded, and the input that is left.
    Body { body: Seq<u8>, rest: Seq<u8> },
    /// The bytes on the wire end in a fault.
    Fault(End),
    /// The content is no well-formed gzip member.
    Undecodable,
}

/// The byte budget of a body: its content length, where the transfer is not
/// chunked.
pub open spec fn budget(plan: BodyPlan) -> Option<usize> {
    if plan.chunked {
        None
    } else {
        plan.content_length
    }
}

/// What receiving a body over `input` gives: the bytes off the wire up to the
/// budget or, where there is none or the body is shorter, up to the end; and
/// what they decode to where the content is compressed.
pub open spec fn received(input: Seq<u8>, closed: bool, plan: BodyPlan) -> Reception {
    let d = arriving(input, closed, plan.chunked);
    let n = taken(d, budget(plan));
    let raw = d.bytes.take(n);
    let rest = if plan.chunked {
        d.rest
    } else {
        input.skip(n)
    };
    if !filled(d, budget(plan)) {
        Reception::Fault(d.end)
    } else if !plan.gzip {
        Reception::Body { body: raw, rest }
    } else {
        match gunzip(raw) {
            Some(plain) => Reception::Body { body: plain, rest },
            None => Reception::Undecodable,
        }
    }
}

/// What a body is on the wire: in chunks of `chunk_size` bytes with the
/// closing frame behind them where a chunk size is given, and as it is where
/// none is.
pub open spec fn on_wire(payload: Seq<u8>, chunk_size: Option<usize>) -> Seq<u8> {
    match chunk_size {
        Some(size) => chunked(payload, size as nat),
        None => payload,
    }
}

/// What a body is once its content is encoded: gzip at the given level where
/// there is one, and as it is where there is none.
pub open spec fn encoded(body: Seq<u8>, level: Option<u32>) -> Option<Seq<u8>> {
    match level {
        Some(l) => squeezed(body, l),
        None => Some(body),
    }
}

/// Sends a body: its content is compressed as a whole where a level is given,
/// then framed in chunks where a chunk size is given, and a chunked body is
/// closed by the frame of size zero. Nothing is sent when compressing fails.
pub fn send_body(stream: &mut Stream, body: &[u8], chunk_size: Option<usize>,
    level: Option<u32>) -> (r:
    Result<(), Error>)
    ensures
        final(stream).unread() == old(stream).unread(),
        final(stream).peer_closed() == old(stream).peer_closed(),
        match encoded(body@, level) {
            Some(payload) => r is Ok
                && final(stream).written() == old(stream).written() + on_wire(
                payload,
                chunk_size,
            ),
            None => r matches Err(e) && is_io(e, IoKind::Other)
                && final(stream).written() == old(stream).written(),
        },
{
    let layer = Chunked::new(chunk_size, chunk_size.is_some());
    let mut codec = match Compressed::new(layer, level, Some(body), level.is_some()) {
        Ok(codec) => codec,
        Err(e) => {
            return Err(e);
        },
    };
    let ghost sent = stream.written();
    let ghost payload = encoded(body@, level)->0;
    proof {
        assert(Seq::<u8>::empty() + payload =~= payload);
    }
    match write_all_until(stream, &mut codec, body) {
        Err(e) => {
            return Err(e);
        },
        Ok(()) => {},
    }
    if chunk_size.is_some() {
        write_terminator(stream);
    }
    proof {
        assert(stream.written() =~= sent + on_wire(payload, chunk_size));
    }
    Ok(())
}

/// The plan for the body of a message with these headers: `gzip` where
/// `Content-Encoding` lists gzip, `chunked` where `Transfer-Encoding` lists
/// chunked, and a content length where the transfer is not chunked and
/// `Content-Length` is a number.
pub open spec fn plan_of(headers: Seq<crate::headers::Entry>) -> BodyPlan {
    let chunked = crate::framer::lists(headers, "Transfer-Encoding"@, "chunked"@);
    BodyPlan {
        chunked,
        gzip: crate::framer::lists(headers, "Content-Encoding"@, "gzip"@),
        content_length: if chunked {
            None
        } else {
            match crate::headers::lookup(headers, "Content-Length"@) {
                Some(text) => match crate::numeral::parse_unsigned(
                    vstd::utf8::encode_utf8(text),
                    10,
                    usize::MAX as nat,
                ) {
                    Some(n) => Some(n as usize),
                    None => None,
                },
                None => None,
            }
        },
    }
}

/// Reads the headers for how the body is delimited and encoded.
pub fn negotiate(headers: &crate::headers::Headers) -> (plan: BodyPlan)
    ensures
        plan == plan_of(headers@),
{
    let (gzip, chunked) = crate::framer::check_encodings(headers);
    let mut content_length: Option<usize> = None;
    if !chunked {
        match headers.get("Content-Length") {
            Some(text) => {
                content_length = crate::numeral::read_unsigned(text.as_str().as_bytes(), 10);
            },
            None => {},
        }
    }
    BodyPlan { chunked, gzip, content_length }
}

/// Receives a body as planned from a stream that holds all of it.
pub fn receive_body(stream: &mut Stream, plan: BodyPlan) -> (r: Result<Vec<u8>, Error>)
    ensures
        final(stream).peer_closed() == old(stream).peer_closed(),
        final(stream).written() == old(stream).written(),
        match received(old(stream).unread(), old(stream).peer_closed(), plan) {
            Reception::Body { body, rest } => r matches Ok(b) && b@ == body
                && final(stream).unread() == rest,
            Reception::Fault(end) => r matches Err(e) && reports(e, end, old(stream).shortage()),
            Reception::Undecodable => r matches Err(e) && is_io(e, IoKind::Other),
        },
{
    let layer = Chunked::new(None, plan.chunked);
    let ghost input = stream.unread();
    let ghost d = layer.drain(input, stream.peer_closed());
    let content_length = if plan.chunked {
        None
    } else {
        plan.content_length
    };
    let mut codec = match Compressed::new(layer, None, None, plan.gzip) {
        Ok(codec) => codec,
        Err(e) => {
            return Err(e);
        },
    };
    let mut body: Vec<u8> = Vec::new();
    proof {
        assert(codec.layer() == layer);
        assert(!codec.decoded());
        assert(codec.layer().passes() == !plan.chunked);
        assert(codec.decoding() == plan.gzip);
        assert(codec.gathered() == Seq::<u8>::empty());
        assert(d == arriving(input, stream.peer_closed(), plan.chunked));
    }
    match read_to_end_until(stream, &mut codec, &mut body, content_length) {
        Err(e) => Err(e),
        Ok(()) => {
            proof {
                let n = taken(d, content_length);
                let raw = d.bytes.take(n);
                let after = codec.layer().drain(stream.unread(), stream.peer_closed());
                assert(d == prepend(raw, after));
                assert(Seq::<u8>::empty() + raw =~= raw);
                if !plan.chunked {
                    assert(codec.layer().passes());
                    assert(after.bytes == stream.unread());
                    assert(raw + stream.unread() =~= input);
                    assert(stream.unread() =~= input.skip(n));
                } else {
                    assert(after == done(stream.unread()));
                }
            }
            Ok(body)
        },
    }
}

/// What is sent is received: a body that went out in chunks, or as it is
/// with its length announced, comes in as it was, and the input behind it is
/// left alone.
pub proof fn lemma_sent_is_received(
    payload: Seq<u8>,
    chunk_size: Option<usize>,
    rest: Seq<u8>,
    closed: bool,
)
    requires
        payload.len() <= usize::MAX,
    ensures
        received(
            on_wire(payload, chunk_size) + rest,
            closed,
            BodyPlan {
                chunked: chunk_size is Some,
                gzip: false,
                content_length: if chunk_size is Some {
                    None
                } else {
                    Some(payload.len() as usize)
                },
            },
        ) == (Reception::Body { body: payload, rest }),
{
    let input = on_wire(payload, chunk_size) + rest;
    match chunk_size {
        Some(size) => {
            crate::chunked_laws::lemma_round_trip(payload, size as nat, rest);
            assert(payload.take(payload.len() as int) =~= payload);
        },
        None => {
            assert(input.take(payload.len() as int) =~= payload);
            assert(input.skip(payload.len() as int) =~= rest);
        },
    }
}

/// A body without length and without chunks is what arrives until the peer
/// closes; before that, reading it is short of input.
pub proof fn lemma_until_close(input: Seq<u8>, closed: bool)
    ensures
        received(input, closed, BodyPlan { chunked: false, gzip: false, content_length: None })
            == if closed {
            Reception::Body { body: input, rest: Seq::empty() }
        } else {
            Reception::Fault(End::Short)
        },
{
    assert(input.take(input.len() as int) =~= input);
    assert(input.skip(input.len() as int) =~= Seq::<u8>::empty());
}

} // verus!
