//! The message framer: reading a start line and a header block from the
//! transport, and writing them.

use vstd::prelude::*;
use vstd::utf8::{decode_utf8, encode_utf8, valid_utf8};
use crate::error::{Error, IoKind};
use crate::headers::{lookup, put, Entry, Headers};
use crate::numeral::{parse_i32, read_i32, render_signed, write_i32};
use crate::stream::{crlf, is_io, next_line, scan_line, NextLine, Stream};
use crate::text::{
    chars_of, contains_token, find, find_byte, find_from, has_token, lemma_find_from, string_of,
    text_of_bytes, trim_end, trim_end_bound,
};
use crate::{GeneralInfo, Status, StatusInfo};

verus! {

/// The most bytes that a line of the head may take up, line end included.
pub const HEAD_LINE_MAX: usize = 8192;

/// The first index at or after `from` that does not hold a space, or the
/// length of `s`.
pub open spec fn skip_spaces(s: Seq<u8>, from: int) -> int
    decreases s.len() - from,
{
    if from < 0 || from >= s.len() {
        s.len() as int
    } else if s[from] != 0x20 {
        from
    } else {
        skip_spaces(s, from + 1)
    }
}

/// The words of `s[from..]`: what stands between spaces, empty pieces left
/// out.
pub open spec fn words(s: Seq<u8>, from: int) -> Seq<Seq<u8>>
    decreases s.len() - from,
    via words_decreases
{
    let a = skip_spaces(s, from);
    let b = find_from(s, 0x20u8, a);
    if from < 0 || a >= s.len() || b <= a {
        Seq::empty()
    } else {
        seq![s.subrange(a, b)] + words(s, b)
    }
}

#[via_fn]
proof fn words_decreases(s: Seq<u8>, from: int) {
    if 0 <= from <= s.len() {
        lemma_skip_spaces(s, from);
        lemma_find_from(s, 0x20u8, skip_spaces(s, from));
    }
}

/// Every word holds at least one byte.
pub proof fn lemma_words(s: Seq<u8>, from: int)
    requires
        0 <= from <= s.len(),
    ensures
        forall|i: int| 0 <= i < words(s, from).len() ==> (#[trigger] words(s, from)[i]).len() > 0,
    decreases s.len() - from,
{
    lemma_skip_spaces(s, from);
    let a = skip_spaces(s, from);
    lemma_find_from(s, 0x20u8, a);
    let b = find_from(s, 0x20u8, a);
    if a < s.len() && b > a {
        lemma_words(s, b);
        let ws = words(s, from);
        assert forall|i: int| 0 <= i < ws.len() implies (#[trigger] ws[i]).len() > 0 by {
            if i > 0 {
                assert(ws[i] == words(s, b)[i - 1]);
            }
        }
    }
}

/// Words put together again, one space between two.
pub open spec fn join(ws: Seq<Seq<u8>>) -> Seq<u8>
    decreases ws.len(),
{
    if ws.len() == 0 {
        Seq::empty()
    } else if ws.len() == 1 {
        ws[0]
    } else {
        join(ws.drop_last()) + seq![0x20u8] + ws.last()
    }
}

/// What a start line says. With an integer as its second word the line is a
/// status line, and the words after the code are the reason phrase; with any
/// other second word it is a request line. `None` when the line has fewer
/// words than that, or a word that is needed is not valid UTF-8.
pub open spec fn status_line(line: Seq<u8>) -> Option<Status> {
    let w = words(line, 0);
    if w.len() < 2 || !valid_utf8(w[1]) {
        None
    } else {
        match parse_i32(w[1]) {
            Some(code) => {
                if w.len() >= 3 && valid_utf8(join(w.skip(2))) {
                    Some(Status::Response { code, reason: decode_utf8(join(w.skip(2))) })
                } else {
                    None
                }
            },
            None => {
                if valid_utf8(w[0]) {
                    Some(
                        Status::Request { method: decode_utf8(w[0]),
                            resource: decode_utf8(w[1]) },
                    )
                } else {
                    None
                }
            },
        }
    }
}

/// What a header line says: the key before the first colon, and the value
/// after it without one leading space and without white space at its end.
/// `None` when the line has no colon, or key or value is not valid UTF-8.
pub open spec fn header_line(line: Seq<u8>) -> Option<(Seq<char>, Seq<char>)> {
    let colon = find(line, 0x3au8);
    let after = line.skip(colon + 1);
    let value = if after.len() > 0 && after[0] == 0x20 {
        after.skip(1)
    } else {
        after
    };
    if colon >= line.len() || !valid_utf8(line.take(colon)) || !valid_utf8(value) {
        None
    } else {
        Some((decode_utf8(line.take(colon)), trim_end(decode_utf8(value))))
    }
}

/// Where skipping spaces ends, no space stands.
pub proof fn lemma_skip_spaces(s: Seq<u8>, from: int)
    requires
        0 <= from <= s.len(),
    ensures
        from <= skip_spaces(s, from) <= s.len(),
        skip_spaces(s, from) < s.len() ==> s[skip_spaces(s, from)] != 0x20,
    decreases s.len() - from,
{
    if from < s.len() && s[from] == 0x20 {
        lemma_skip_spaces(s, from + 1);
    }
}

/// The next word of `line` at or after `from`: where it begins and where it
/// ends. `None` when only spaces are left.
pub fn next_word(line: &[u8], from: usize) -> (r: Option<(usize, usize)>)
    requires
        from <= line.len(),
    ensures
        r is None <==> words(line@, from as int).len() == 0,
        r matches Some((a, b)) ==> from <= a < b <= line.len() && words(line@, from as int)
            == seq![line@.subrange(a as int, b as int)] + words(line@, b as int),
{
    let mut a: usize = from;
    while a < line.len() && line[a] == 0x20
        invariant
            from <= a <= line.len(),
            skip_spaces(line@, from as int) == skip_spaces(line@, a as int),
        decreases line.len() - a,
    {
        a += 1;
    }
    if a >= line.len() {
        return None;
    }
    let b = find_byte(line, 0x20, a);
    proof {
        lemma_find_from(line@, 0x20u8, a as int);
    }
    Some((a, b))
}

/// The words of `line[from..]`, put together with one space between two.
fn rest_of_line(line: &[u8], from: usize) -> (r: Vec<u8>)
    requires
        from <= line.len(),
    ensures
        r@ == join(words(line@, from as int)),
{
    let ghost all = words(line@, from as int);
    let ghost mut seen: Seq<Seq<u8>> = Seq::empty();
    let mut out: Vec<u8> = Vec::new();
    let mut off: usize = from;
    let mut first: bool = true;
    assert(seen + words(line@, off as int) =~= all);
    loop
        invariant
            from <= off <= line.len(),
            all == words(line@, from as int),
            all == seen + words(line@, off as int),
            out@ == join(seen),
            first == (seen.len() == 0),
        decreases line.len() - off,
    {
        match next_word(line, off) {
            None => {
                proof {
                    assert(seen + words(line@, off as int) =~= seen);
                }
                return out;
            },
            Some((a, b)) => {
                let ghost w = line@.subrange(a as int, b as int);
                let ghost was = out@;
                if !first {
                    out.push(0x20);
                }
                let word = vstd::slice::slice_subrange(line, a, b);
                out.extend_from_slice(word);
                proof {
                    let grown = seen.push(w);
                    assert(grown.drop_last() =~= seen);
                    assert(grown + words(line@, b as int) =~= seen + (seq![w] + words(
                        line@,
                        b as int,
                    )));
                    if first {
                        assert(out@ =~= w);
                    } else {
                        assert(out@ =~= was + seq![0x20u8] + w);
                    }
                    seen = grown;
                }
                first = false;
                off = b;
            },
        }
    }
}

/// Reads a start line.
pub fn parse_status_line(line: &[u8]) -> (r: Result<StatusInfo, Error>)
    ensures
        r is Ok <==> status_line(line@) is Some,
        r matches Ok(s) ==> status_line(line@) == Some(s@),
        r matches Err(e) ==> e is NoStatusLineInResponse,
{
    let (a1, b1) = match next_word(line, 0) {
        Some(w) => w,
        None => {
            return Err(Error::NoStatusLineInResponse);
        },
    };
    let (a2, b2) = match next_word(line, b1) {
        Some(w) => w,
        None => {
            assert(words(line@, 0).len() == 1);
            return Err(Error::NoStatusLineInResponse);
        },
    };
    let ghost w = words(line@, 0);
    let ghost tail = words(line@, b2 as int);
    proof {
        assert(w =~= seq![line@.subrange(a1 as int, b1 as int)] + (seq![
            line@.subrange(a2 as int, b2 as int),
        ] + tail));
        assert(w.skip(2) =~= tail);
        assert(w.len() == 2 + tail.len());
    }
    let first = vstd::slice::slice_subrange(line, a1, b1);
    let second = vstd::slice::slice_subrange(line, a2, b2);
    let second_text = match text_of_bytes(second) {
        Some(t) => t,
        None => {
            return Err(Error::NoStatusLineInResponse);
        },
    };
    match read_i32(second) {
        Some(code) => {
            let reason = rest_of_line(line, b2);
            if reason.len() == 0 {
                proof {
                    lemma_join_empty(tail);
                    lemma_words(line@, b2 as int);
                }
                return Err(Error::NoStatusLineInResponse);
            }
            match text_of_bytes(reason.as_slice()) {
                Some(text) => Ok(StatusInfo::Response(code, text)),
                None => Err(Error::NoStatusLineInResponse),
            }
        },
        None => match text_of_bytes(first) {
            Some(method) => Ok(StatusInfo::Request(method, second_text)),
            None => Err(Error::NoStatusLineInResponse),
        },
    }
}

/// Words are not empty, so what they join to is empty only when there are
/// none.
pub proof fn lemma_join_empty(ws: Seq<Seq<u8>>)
    ensures
        join(ws).len() == 0 ==> ws.len() == 0 || (ws.len() == 1 && ws[0].len() == 0),
    decreases ws.len(),
{
}

/// Reads a header line.
pub fn parse_header(line: &[u8]) -> (r: Option<(String, String)>)
    ensures
        r is Some <==> header_line(line@) is Some,
        r matches Some(h) ==> header_line(line@) == Some((h.0@, h.1@)),
{
    let colon = find_byte(line, 0x3a, 0);
    if colon >= line.len() {
        return None;
    }
    let from: usize = if colon + 1 < line.len() && line[colon + 1] == 0x20 {
        colon + 2
    } else {
        colon + 1
    };
    let key = vstd::slice::slice_subrange(line, 0, colon);
    let value = vstd::slice::slice_subrange(line, from, line.len());
    proof {
        let after = line@.skip(colon + 1);
        assert(key@ =~= line@.take(colon as int));
        if after.len() > 0 && after[0] == 0x20 {
            assert(value@ =~= after.skip(1));
        } else {
            assert(value@ =~= after);
        }
    }
    match text_of_bytes(key) {
        None => None,
        Some(k) => match text_of_bytes(value) {
            None => None,
            Some(v) => {
                let chars = chars_of(v.as_str());
                let end = trim_end_bound(chars.as_slice(), 0, chars.len());
                let trimmed = vstd::slice::slice_subrange(chars.as_slice(), 0, end);
                assert(chars@.subrange(0, chars@.len() as int) =~= chars@);
                Some((k, string_of(trimmed)))
            },
        },
    }
}

/// The lines of a header block.
pub enum Lines {
    /// The lines before the empty line that ends the block, and the index one
    /// past that empty line.
    Block { lines: Seq<Seq<u8>>, next: int },
    /// A line is too long.
    Cut,
    /// The input ends before the empty line.
    Short,
}

/// `l` with the lines `seen` before it.
pub open spec fn after(seen: Seq<Seq<u8>>, l: Lines) -> Lines {
    match l {
        Lines::Block { lines, next } => Lines::Block { lines: seen + lines, next },
        other => other,
    }
}

/// The lines of `input[from..]` up to the first empty line.
pub open spec fn head_lines(input: Seq<u8>, from: int) -> Lines
    decreases input.len() - from,
    via head_lines_decreases
{
    if from < 0 || from > input.len() {
        Lines::Short
    } else {
        match next_line(input.skip(from), HEAD_LINE_MAX as int) {
            NextLine::Short => Lines::Short,
            NextLine::TooLong => Lines::Cut,
            NextLine::Line { line, used } => {
                if line.len() == 0 {
                    Lines::Block { lines: Seq::empty(), next: from + used }
                } else {
                    after(seq![line], head_lines(input, from + used))
                }
            },
        }
    }
}

#[via_fn]
proof fn head_lines_decreases(input: Seq<u8>, from: int) {
    if 0 <= from <= input.len() {
        let rest = input.skip(from);
        let window = if rest.len() <= HEAD_LINE_MAX as int {
            rest
        } else {
            rest.take(HEAD_LINE_MAX as int)
        };
        lemma_find_from(window, 0x0au8, 0);
    }
}

/// The headers after one more line: a line that says nothing is skipped, and
/// a key that is there already gets the new value.
pub open spec fn note(acc: Seq<Entry>, line: Seq<u8>) -> Seq<Entry> {
    match header_line(line) {
        Some((key, value)) => put(acc, key, value),
        None => acc,
    }
}

/// The headers that the lines of a block give, read from first to last.
pub open spec fn headers_of(lines: Seq<Seq<u8>>) -> Seq<Entry>
    decreases lines.len(),
{
    if lines.len() == 0 {
        Seq::empty()
    } else {
        note(headers_of(lines.drop_last()), lines.last())
    }
}

/// What stands at the start of the input where a head is expected.
pub enum Head {
    /// A complete head, and how many bytes of input it takes up.
    Parsed { status: Status, headers: Seq<Entry>, used: int },
    /// The first line is no start line.
    NoStatusLine,
    /// A line is too long.
    Cut,
    /// The input ends before the head does.
    Short,
}

/// The head at the start of `input`: a start line, then header lines up to
/// the first empty line.
pub open spec fn head(input: Seq<u8>) -> Head {
    match next_line(input, HEAD_LINE_MAX as int) {
        NextLine::Short => Head::Short,
        NextLine::TooLong => Head::Cut,
        NextLine::Line { line, used } => match status_line(line) {
            None => Head::NoStatusLine,
            Some(status) => match head_lines(input, used) {
                Lines::Short => Head::Short,
                Lines::Cut => Head::Cut,
                Lines::Block { lines, next } => Head::Parsed {
                    status,
                    headers: headers_of(lines),
                    used: next,
                },
            },
        },
    }
}

/// Reads the head of a message from the stream: the start line and the
/// headers. Nothing is consumed unless the head is complete and well formed.
pub fn process_lines(stream: &mut Stream) -> (r: Result<GeneralInfo, Error>)
    ensures
        final(stream).peer_closed() == old(stream).peer_closed(),
        final(stream).written() == old(stream).written(),
        r is Err ==> final(stream).unread() == old(stream).unread(),
        match head(old(stream).unread()) {
            Head::Parsed { status, headers, used } => r matches Ok(info) && info.status@ == status
                && info.headers@ == headers
                    && final(stream).unread() == old(stream).unread().skip(used),
            Head::NoStatusLine => r matches Err(e) && e is NoStatusLineInResponse,
            Head::Cut => r matches Err(e) && is_io(e, IoKind::UnexpectedEof),
            Head::Short => r matches Err(e) && is_io(e, old(stream).shortage()),
        },
{
    let input = stream.peek();
    proof {
        assert(input@.skip(0) =~= input@);
    }
    let (end, start) = match scan_line(input, 0, HEAD_LINE_MAX) {
        Ok(found) => found,
        Err(IoKind::UnexpectedEof) => {
            return Err(Error::io(IoKind::UnexpectedEof, ""));
        },
        Err(_) => {
            return Err(stream.starved());
        },
    };
    let first = vstd::slice::slice_subrange(input, 0, end);
    let status = match parse_status_line(first) {
        Ok(status) => status,
        Err(e) => {
            return Err(e);
        },
    };
    let mut headers = Headers::new();
    let ghost mut seen: Seq<Seq<u8>> = Seq::empty();
    let mut off: usize = start;
    proof {
        match head_lines(input@, off as int) {
            Lines::Block { lines, next } => {
                assert(seen + lines =~= lines);
            },
            _ => {},
        }
    }
    loop
        invariant
            *stream == *old(stream),
            input@ == old(stream).unread(),
            next_line(input@, HEAD_LINE_MAX as int) == (NextLine::Line {
                line: first@,
                used: start as int,
            }),
            status_line(first@) == Some(status@),
            start <= off <= input.len(),
            head_lines(input@, start as int) == after(seen, head_lines(input@, off as int)),
            headers@ == headers_of(seen),
        decreases input.len() - off,
    {
        match scan_line(input, off, HEAD_LINE_MAX) {
            Err(IoKind::UnexpectedEof) => {
                return Err(Error::io(IoKind::UnexpectedEof, ""));
            },
            Err(_) => {
                return Err(stream.starved());
            },
            Ok((end, next)) => {
                if end == off {
                    proof {
                        assert(seen + Seq::<Seq<u8>>::empty() =~= seen);
                    }
                    let info = GeneralInfo { status, headers };
                    stream.consume(next);
                    return Ok(info);
                }
                let line = vstd::slice::slice_subrange(input, off, end);
                match parse_header(line) {
                    Some((key, value)) => {
                        headers.insert(key, value);
                    },
                    None => {},
                }
                proof {
                    let grown = seen.push(line@);
                    assert(grown.drop_last() =~= seen);
                    match head_lines(input@, next as int) {
                        Lines::Block { lines, next: last } => {
                            assert(grown + lines =~= seen + (seq![line@] + lines));
                        },
                        _ => {},
                    }
                    seen = grown;
                }
                off = next;
            },
        }
    }
}

/// Appends the UTF-8 encoding of `s` to `out`.
pub fn push_text(out: &mut Vec<u8>, s: &str)
    ensures
        final(out)@ == old(out)@ + encode_utf8(s@),
{
    out.extend_from_slice(s.as_bytes());
}

/// What a start line is on the wire: a status line for a response, and
/// nothing for a request.
pub open spec fn status_bytes(status: Status) -> Seq<u8> {
    match status {
        Status::Response { code, reason } => encode_utf8("HTTP/1.1 "@) + render_signed(code)
            + encode_utf8(" "@) + encode_utf8(reason) + crlf(),
        Status::Request { .. } => Seq::empty(),
    }
}

/// What one header is on the wire.
pub open spec fn header_bytes(e: Entry) -> Seq<u8> {
    encode_utf8(e.0) + encode_utf8(": "@) + encode_utf8(e.1) + crlf()
}

/// What the headers are on the wire: one line each, in their order.
pub open spec fn headers_bytes(s: Seq<Entry>) -> Seq<u8>
    decreases s.len(),
{
    if s.len() == 0 {
        Seq::empty()
    } else {
        headers_bytes(s.drop_last()) + header_bytes(s.last())
    }
}

/// What a head is on the wire, without the empty line that ends it.
pub open spec fn head_bytes(status: Status, headers: Seq<Entry>) -> Seq<u8> {
    status_bytes(status) + headers_bytes(headers)
}

/// Appends one header line to `out`.
pub fn write_header(out: &mut Vec<u8>, key: &str, value: &str)
    ensures
        final(out)@ == old(out)@ + header_bytes((key@, value@)),
{
    push_text(out, key);
    push_text(out, ": ");
    push_text(out, value);
    out.push(0x0d);
    out.push(0x0a);
    assert(out@ =~= old(out)@ + header_bytes((key@, value@)));
}

/// Appends the header lines of `headers` to `out`.
pub fn write_headers(out: &mut Vec<u8>, headers: &Headers)
    ensures
        final(out)@ == old(out)@ + headers_bytes(headers@),
{
    let n = headers.len();
    let mut i: usize = 0;
    assert(out@ + headers_bytes(headers@.take(0)) =~= out@);
    while i < n
        invariant
            n == headers@.len(),
            0 <= i <= n,
            out@ == old(out)@ + headers_bytes(headers@.take(i as int)),
        decreases n - i,
    {
        let (key, value) = headers.entry(i);
        let ghost was = out@;
        write_header(out, key.as_str(), value.as_str());
        proof {
            let upto = headers@.take(i + 1);
            assert(upto.drop_last() =~= headers@.take(i as int));
            assert(upto.last() == headers@[i as int]);
            assert(out@ =~= old(out)@ + headers_bytes(upto));
        }
        i += 1;
    }
    assert(headers@.take(n as int) =~= headers@);
}

impl StatusInfo {
    /// The start line as it goes on the wire.
    pub fn to_bytes(&self) -> (out: Vec<u8>)
        ensures
            out@ == status_bytes(self@),
    {
        let mut out: Vec<u8> = Vec::new();
        match self {
            StatusInfo::Response(code, reason) => {
                push_text(&mut out, "HTTP/1.1 ");
                let mut digits = write_i32(*code);
                out.append(&mut digits);
                push_text(&mut out, " ");
                push_text(&mut out, reason.as_str());
                out.push(0x0d);
                out.push(0x0a);
                assert(out@ =~= status_bytes(self@));
            },
            StatusInfo::Request(_, _) => {},
        }
        out
    }
}

impl GeneralInfo {
    /// The head as it goes on the wire, without the empty line that ends it.
    pub fn to_bytes(&self) -> (out: Vec<u8>)
        ensures
            out@ == head_bytes(self.status@, self.headers@),
    {
        let mut out = self.status.to_bytes();
        write_headers(&mut out, &self.headers);
        out
    }
}

/// Whether the header `key` lists `token` among its comma-separated values.
pub open spec fn lists(headers: Seq<Entry>, key: Seq<char>, token: Seq<char>) -> bool {
    lookup(headers, key) matches Some(value) && has_token(value, token)
}

/// Whether the header `key` lists `token`.
pub fn header_lists(headers: &Headers, key: &str, token: &str) -> (r: bool)
    ensures
        r == lists(headers@, key@, token@),
{
    match headers.get(key) {
        None => false,
        Some(value) => {
            let v = chars_of(value.as_str());
            let t = chars_of(token);
            contains_token(v.as_slice(), t.as_slice())
        },
    }
}

/// Which codecs the headers of a message name: whether the content is gzip
/// compressed, and whether the transfer is chunked.
pub fn check_encodings(headers: &Headers) -> (r: (bool, bool))
    ensures
        r.0 == lists(headers@, "Content-Encoding"@, "gzip"@),
        r.1 == lists(headers@, "Transfer-Encoding"@, "chunked"@),
{
    let compression = header_lists(headers, "Content-Encoding", "gzip");
    let chunking = header_lists(headers, "Transfer-Encoding", "chunked");
    (compression, chunking)
}

/// Whether the sender of these headers accepts gzip compressed content.
pub fn check_accept(headers: &Headers) -> (r: bool)
    ensures
        r == lists(headers@, "Accept-Encoding"@, "gzip"@),
{
    header_lists(headers, "Accept-Encoding", "gzip")
}

} // verus!
