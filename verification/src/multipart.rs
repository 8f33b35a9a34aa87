//! Multipart form bodies: parts with a name, an optional file name and
//! content type, and data; written with a boundary between them and read back
//! line by line.

use vstd::prelude::*;
use vstd::utf8::{decode_utf8, encode_utf8, valid_utf8};
use crate::error::Error;
use crate::framer::push_text;
use crate::stream::crlf;
use crate::text::{
    chars_of, ends_with, find, find_byte, find_char, find_from, has_prefix, lemma_find_from,
    split, split_from, starts_with, string_of, text_of_bytes, trim, trim_bounds,
};

verus! {

/// What a part holds, as mathematics.
pub struct PartView {
    pub name: Seq<char>,
    pub filename: Option<Seq<char>>,
    pub content_type: Option<Seq<char>>,
    pub data: Seq<u8>,
}

/// One part of a multipart body.
#[derive(Debug, Clone, PartialEq)]
pub struct Part {
    /// The name of the field.
    pub name: String,
    /// The name of the file, for a part that is one.
    pub filename: Option<String>,
    /// The content type of the data.
    pub content_type: Option<String>,
    /// The data.
    pub data: Vec<u8>,
}

impl View for Part {
    type V = PartView;

    open spec fn view(&self) -> PartView {
        PartView {
            name: self.name@,
            filename: match self.filename {
                Some(f) => Some(f@),
                None => None,
            },
            content_type: match self.content_type {
                Some(c) => Some(c@),
                None => None,
            },
            data: self.data@,
        }
    }
}

/// Multipart body created by user or server.
#[derive(Debug, Clone, PartialEq)]
pub struct Multipart {
    /// What separates the parts.
    pub boundary: String,
    /// The parts, in order.
    pub parts: Vec<Part>,
}

/// A part without anything in it.
pub open spec fn empty_part() -> PartView {
    PartView { name: Seq::empty(), filename: None, content_type: None, data: Seq::empty() }
}

/// What a part is on the wire: its disposition, its content type where it has
/// one, an empty line, its data, and a line end; one more line end after a
/// part with a content type.
pub open spec fn part_bytes(part: PartView) -> Seq<u8> {
    encode_utf8("Content-Disposition: form-data; name="@) + encode_utf8(part.name) + (
    match part.filename {
        Some(f) => encode_utf8("; filename="@) + encode_utf8(f) + crlf(),
        None => crlf(),
    }) + (match part.content_type {
        Some(c) => encode_utf8("Content-Type: "@) + encode_utf8(c) + crlf(),
        None => Seq::empty(),
    }) + crlf() + part.data + crlf() + (if part.content_type is Some {
        crlf()
    } else {
        Seq::empty()
    })
}

/// What the parts `parts[..upto]` are on the wire, each behind a boundary
/// line.
pub open spec fn parts_bytes(boundary: Seq<char>, parts: Seq<PartView>, upto: int) -> Seq<u8>
    decreases upto,
{
    if upto <= 0 {
        Seq::empty()
    } else {
        parts_bytes(boundary, parts, upto - 1) + encode_utf8("--"@) + encode_utf8(boundary)
            + crlf() + part_bytes(parts[upto - 1])
    }
}

/// What a multipart body is on the wire: its parts, then the closing
/// boundary.
pub open spec fn multipart_bytes(boundary: Seq<char>, parts: Seq<PartView>) -> Seq<u8> {
    parts_bytes(boundary, parts, parts.len() as int) + encode_utf8("--"@) + encode_utf8(boundary)
        + encode_utf8("--"@)
}

impl Part {
    /// The part as it goes on the wire.
    pub fn to_bytes(&self) -> (out: Vec<u8>)
        ensures
            out@ == part_bytes(self@),
    {
        let mut out: Vec<u8> = Vec::new();
        push_text(&mut out, "Content-Disposition: form-data; name=");
        push_text(&mut out, self.name.as_str());
        match &self.filename {
            Some(f) => {
                push_text(&mut out, "; filename=");
                push_text(&mut out, f.as_str());
                out.push(0x0d);
                out.push(0x0a);
            },
            None => {
                out.push(0x0d);
                out.push(0x0a);
            },
        }
        let ghost first = out@;
        assert(first =~= encode_utf8("Content-Disposition: form-data; name="@) + encode_utf8(
            self.name@,
        ) + (match self@.filename {
            Some(f) => encode_utf8("; filename="@) + encode_utf8(f) + crlf(),
            None => crlf(),
        }));
        match &self.content_type {
            Some(c) => {
                push_text(&mut out, "Content-Type: ");
                push_text(&mut out, c.as_str());
                out.push(0x0d);
                out.push(0x0a);
            },
            None => {},
        }
        out.push(0x0d);
        out.push(0x0a);
        out.extend_from_slice(self.data.as_slice());
        out.push(0x0d);
        out.push(0x0a);
        if self.content_type.is_some() {
            out.push(0x0d);
            out.push(0x0a);
        }
        assert(out@ =~= part_bytes(self@));
        out
    }
}

impl Multipart {
    /// The parts, as mathematics.
    pub open spec fn parts_view(&self) -> Seq<PartView> {
        Seq::new(self.parts@.len(), |i: int| self.parts@[i]@)
    }

    /// Create new multipart body.
    pub fn new(boundary: &str) -> (m: Multipart)
        ensures
            m.boundary@ == boundary@,
            m.parts_view() == Seq::<PartView>::empty(),
    {
        let m = Multipart { boundary: boundary.to_owned(), parts: Vec::new() };
        assert(m.parts_view() =~= Seq::<PartView>::empty());
        m
    }

    /// Adds a field with the given data, without file name or content type.
    pub fn text_part(self, name: &str, text: Vec<u8>) -> (m: Multipart)
        ensures
            m.boundary == self.boundary,
            m.parts_view() == self.parts_view().push(
                PartView { name: name@, filename: None, content_type: None, data: text@ },
            ),
    {
        let mut m = self;
        m.parts.push(Part { name: name.to_owned(), filename: None, content_type: None,
            data: text });
        assert(m.parts_view() =~= self.parts_view().push(
            PartView { name: name@, filename: None, content_type: None, data: text@ },
        ));
        m
    }

    /// Adds a part with everything given.
    pub fn with_part(
        self,
        name: &str,
        filename: Option<String>,
        content_type: Option<String>,
        data: Vec<u8>,
    ) -> (m: Multipart)
        ensures
            m.boundary == self.boundary,
            m.parts_view() == self.parts_view().push(
                PartView {
                    name: name@,
                    filename: match filename {
                        Some(f) => Some(f@),
                        None => None,
                    },
                    content_type: match content_type {
                        Some(c) => Some(c@),
                        None => None,
                    },
                    data: data@,
                },
            ),
    {
        let mut m = self;
        let part = Part { name: name.to_owned(), filename, content_type, data };
        m.parts.push(part);
        assert(m.parts_view() =~= self.parts_view().push(part@));
        m
    }

    /// Adds the file at `path`, whose content is `data`. The part carries the
    /// last component of the path as its file name, where the platform finds
    /// one, and the MIME type that is guessed from the path.
    pub fn file_part(self, name: &str, path: &str, data: Vec<u8>) -> (m: Multipart)
        ensures
            m.boundary == self.boundary,
            m.parts_view().len() == self.parts_view().len() + 1,
            m.parts_view().drop_last() == self.parts_view(),
            m.parts_view().last().name == name@,
            m.parts_view().last().data == data@,
            m.parts_view().last().content_type is Some,
    {
        let filename = file_name_of(path);
        let content_type = guess_mime(path);
        let m = self.with_part(name, filename, Some(content_type), data);
        assert(m.parts_view().drop_last() =~= self.parts_view());
        m
    }

    /// The body as it goes on the wire.
    pub fn to_bytes(&self) -> (out: Vec<u8>)
        ensures
            out@ == multipart_bytes(self.boundary@, self.parts_view()),
    {
        let mut out: Vec<u8> = Vec::new();
        let n = self.parts.len();
        let mut i: usize = 0;
        while i < n
            invariant
                n == self.parts@.len(),
                0 <= i <= n,
                out@ == parts_bytes(self.boundary@, self.parts_view(), i as int),
            decreases n - i,
        {
            let ghost was = out@;
            push_text(&mut out, "--");
            push_text(&mut out, self.boundary.as_str());
            out.push(0x0d);
            out.push(0x0a);
            let mut part = self.parts[i].to_bytes();
            out.append(&mut part);
            assert(out@ =~= was + encode_utf8("--"@) + encode_utf8(self.boundary@) + crlf()
                + part_bytes(self.parts_view()[i as int]));
            i += 1;
        }
        push_text(&mut out, "--");
        push_text(&mut out, self.boundary.as_str());
        push_text(&mut out, "--");
        out
    }
}

/// Guesses the MIME type of a path by its extension.
///
/// Trusted: calls `mime_guess::from_path` and takes the first guess, or
/// `application/octet-stream` where there is none. What counts as the
/// extension of a path is the platform's matter, so nothing is claimed of the
/// result.
#[verifier::external_body]
pub(crate) fn guess_mime(path: &str) -> (r: String) {
    mime_guess::from_path(path).first_or_octet_stream().to_string()
}

/// The last component of a path.
///
/// Trusted: calls `Path::file_name` of the standard library. Where a path
/// ends is the platform's matter, so nothing is claimed of the result.
#[verifier::external_body]
pub(crate) fn file_name_of(path: &str) -> (r: Option<String>) {
    match std::path::Path::new(path).file_name() {
        Some(name) => match name.to_str() {
            Some(text) => Some(text.to_string()),
            None => None,
        },
        None => None,
    }
}

/// A line without the carriage return at its end.
pub open spec fn strip_cr(line: Seq<u8>) -> Seq<u8> {
    if line.len() > 0 && line.last() == 0x0d {
        line.drop_last()
    } else {
        line
    }
}

/// The lines of `bytes[from..]`: what stands before each line feed, without
/// a carriage return at its end. What stands behind the last line feed is no
/// line.
pub open spec fn lines_from(bytes: Seq<u8>, from: int) -> Seq<Seq<u8>>
    decreases bytes.len() - from,
    via lines_from_decreases
{
    let p = find_from(bytes, 0x0au8, from);
    if from < 0 || from > bytes.len() || p >= bytes.len() {
        Seq::empty()
    } else {
        seq![strip_cr(bytes.subrange(from, p))] + lines_from(bytes, p + 1)
    }
}

#[via_fn]
proof fn lines_from_decreases(bytes: Seq<u8>, from: int) {
    if 0 <= from <= bytes.len() {
        lemma_find_from(bytes, 0x0au8, from);
    }
}

/// What a header line of a part names: what stands before the first colon,
/// and what stands between the first colon and the second. `None` when the
/// line has no colon.
pub open spec fn fields(text: Seq<char>) -> Option<(Seq<char>, Seq<char>)> {
    let colon = find(text, ':');
    if colon >= text.len() {
        None
    } else {
        Some((text.take(colon), text.subrange(colon + 1, find_from(text, ':', colon + 1))))
    }
}

/// A part after one item of its disposition: `name=` sets the name and
/// `filename=` the file name; `form-data` and anything else changes nothing.
pub open spec fn with_item(part: PartView, item: Seq<char>) -> PartView {
    let p = trim(item);
    if p == "form-data"@ {
        part
    } else {
        let named = if starts_with(p, "name="@) {
            PartView { name: p.skip(5), ..part }
        } else {
            part
        };
        if starts_with(p, "filename="@) {
            PartView { filename: Some(p.skip(9)), ..named }
        } else {
            named
        }
    }
}

/// A part after the items `items[..upto]` of its disposition.
pub open spec fn with_items(part: PartView, items: Seq<Seq<char>>, upto: int) -> PartView
    decreases upto,
{
    if upto <= 0 {
        part
    } else {
        with_item(with_items(part, items, upto - 1), items[upto - 1])
    }
}

/// A part after one of its header lines: `Content-Disposition` gives name and
/// file name, `Content-Type` the content type; a line that is not valid
/// UTF-8, has no colon, or names another header changes nothing.
pub open spec fn with_header(part: PartView, line: Seq<u8>) -> PartView {
    if !valid_utf8(line) {
        part
    } else {
        match fields(decode_utf8(line)) {
            None => part,
            Some((key, value)) => {
                if key == "Content-Disposition"@ {
                    let items = split(trim(value), ';');
                    with_items(part, items, items.len() as int)
                } else if key == "Content-Type"@ {
                    PartView { content_type: Some(trim(value)), ..part }
                } else {
                    part
                }
            },
        }
    }
}

/// How far reading has come: the parts that are complete, the part that is
/// being read, and whether its header lines are over.
pub struct Progress {
    pub parts: Seq<PartView>,
    pub current: Option<PartView>,
    pub in_body: bool,
}

/// Reading after one more line. A line that ends with the boundary completes
/// the part that is being read. Any other line begins a part where none is
/// being read; an empty line ends the header lines; a header line is taken
/// into the part, and a line behind them is appended to its data.
pub open spec fn feed(boundary: Seq<u8>, p: Progress, line: Seq<u8>) -> Progress {
    if ends_with(line, boundary) && p.current is Some {
        Progress { parts: p.parts.push(p.current->0), current: None, in_body: false }
    } else {
        let part = match p.current {
            Some(part) => part,
            None => empty_part(),
        };
        if line.len() == 0 {
            Progress { parts: p.parts, current: Some(part), in_body: true }
        } else if !p.in_body {
            Progress { parts: p.parts, current: Some(with_header(part, line)), in_body: false }
        } else {
            Progress {
                parts: p.parts,
                current: Some(PartView { data: part.data + line, ..part }),
                in_body: true,
            }
        }
    }
}

/// Reading after the lines `lines[..upto]`.
pub open spec fn feed_all(boundary: Seq<u8>, lines: Seq<Seq<u8>>, upto: int) -> Progress
    decreases upto,
{
    if upto <= 0 {
        Progress { parts: Seq::empty(), current: None, in_body: false }
    } else {
        feed(boundary, feed_all(boundary, lines, upto - 1), lines[upto - 1])
    }
}

/// The parts that `bytes` holds: those that a boundary line completes.
pub open spec fn parts_of(boundary: Seq<char>, bytes: Seq<u8>) -> Seq<PartView> {
    let lines = lines_from(bytes, 0);
    feed_all(encode_utf8(boundary), lines, lines.len() as int).parts
}

/// Whether two runs of characters are the same.
fn same_chars(a: &[char], b: &[char]) -> (r: bool)
    ensures
        r == (a@ == b@),
{
    if a.len() != b.len() {
        return false;
    }
    let r = has_prefix(a, b);
    proof {
        assert(a@.take(b@.len() as int) =~= a@);
    }
    r
}

/// Whether `line` ends with `suffix`.
fn has_suffix(line: &[u8], suffix: &[u8]) -> (r: bool)
    ensures
        r == ends_with(line@, suffix@),
{
    if suffix.len() > line.len() {
        return false;
    }
    let tail = vstd::slice::slice_subrange(line, line.len() - suffix.len(), line.len());
    assert(tail@ =~= line@.skip(line@.len() - suffix@.len()));
    crate::text::same_bytes(tail, suffix)
}

/// Takes one item of a disposition into the part.
fn take_item(part: &mut Part, text: &[char], from: usize, to: usize)
    requires
        from <= to <= text.len(),
    ensures
        final(part)@ == with_item(old(part)@, text@.subrange(from as int, to as int)),
{
    let (a, b) = trim_bounds(text, from, to);
    let p = vstd::slice::slice_subrange(text, a, b);
    let form = chars_of("form-data");
    let name = chars_of("name=");
    let file = chars_of("filename=");
    proof {
        reveal_strlit("name=");
        reveal_strlit("filename=");
    }
    if same_chars(p, form.as_slice()) {
        return ;
    }
    if has_prefix(p, name.as_slice()) {
        let rest = vstd::slice::slice_subrange(p, 5, p.len());
        assert(rest@ =~= p@.skip(5));
        part.name = string_of(rest);
    }
    if has_prefix(p, file.as_slice()) {
        let rest = vstd::slice::slice_subrange(p, 9, p.len());
        assert(rest@ =~= p@.skip(9));
        part.filename = Some(string_of(rest));
    }
}

/// Takes one header line into the part.
fn take_header(part: &mut Part, line: &[u8])
    ensures
        final(part)@ == with_header(old(part)@, line@),
{
    let text = match text_of_bytes(line) {
        Some(text) => text,
        None => {
            return ;
        },
    };
    let chars = chars_of(text.as_str());
    let s = chars.as_slice();
    let colon = find_char(s, ':', 0);
    if colon >= s.len() {
        return ;
    }
    let second = find_char(s, ':', colon + 1);
    let key = vstd::slice::slice_subrange(s, 0, colon);
    assert(key@ =~= s@.take(colon as int));
    let ghost value = s@.subrange(colon + 1, second as int);
    let disposition = chars_of("Content-Disposition");
    let content_type = chars_of("Content-Type");
    if same_chars(key, disposition.as_slice()) {
        let (a, b) = trim_bounds(s, colon + 1, second);
        let v = vstd::slice::slice_subrange(s, a, b);
        let ghost items = split(v@, ';');
        let ghost start = part@;
        let ghost mut seen: int = 0;
        let mut off: usize = 0;
        assert(items.skip(0) =~= items);
        assert(with_header(start, line@) == with_items(start, items, items.len() as int));
        loop
            invariant
                start == old(part)@,
                with_header(start, line@) == with_items(start, items, items.len() as int),
                v@ == trim(value),
                items == split(v@, ';'),
                0 <= off <= v.len(),
                0 <= seen < items.len(),
                items.skip(seen) == split_from(v@, ';', off as int),
                part@ == with_items(start, items, seen),
            decreases v.len() - off,
        {
            let end = find_char(v, ';', off);
            proof {
                lemma_find_from(v@, ';', off as int);
                assert(items[seen] == items.skip(seen)[0]);
                assert(items[seen] == v@.subrange(off as int, end as int));
            }
            take_item(part, v, off, end);
            if end >= v.len() {
                proof {
                    assert(items.skip(seen).len() == 1);
                }
                return ;
            }
            proof {
                assert(items.skip(seen + 1) =~= items.skip(seen).skip(1));
                assert(split_from(v@, ';', end + 1).len() >= 1);
                seen = seen + 1;
            }
            off = end + 1;
        }
    } else if same_chars(key, content_type.as_slice()) {
        let (a, b) = trim_bounds(s, colon + 1, second);
        let v = vstd::slice::slice_subrange(s, a, b);
        part.content_type = Some(string_of(v));
    }
}

/// Reads a multipart body: the parts between lines that end with the
/// boundary. A part that no such line completes is left out.
pub fn from_bytes(boundary: &str, bytes: Vec<u8>) -> (r: Result<Multipart, Error>)
    ensures
        r matches Ok(m) && m.boundary@ == boundary@ && m.parts_view() == parts_of(
            boundary@,
            bytes@,
        ),
{
    let mut multi = Multipart { boundary: boundary.to_owned(), parts: Vec::new() };
    let mark = boundary.as_bytes();
    let input = bytes.as_slice();
    let ghost lines = lines_from(input@, 0);
    let ghost mut seen: int = 0;
    let mut current: Option<Part> = None;
    let mut in_body: bool = false;
    let mut off: usize = 0;
    assert(multi.parts_view() =~= Seq::<PartView>::empty());
    assert(lines.skip(0) =~= lines);
    loop
        invariant
            input@ == bytes@,
            mark@ == encode_utf8(boundary@),
            multi.boundary@ == boundary@,
            lines == lines_from(input@, 0),
            0 <= off <= input.len(),
            0 <= seen <= lines.len(),
            lines.skip(seen) == lines_from(input@, off as int),
            feed_all(mark@, lines, seen) == (Progress {
                parts: multi.parts_view(),
                current: match current {
                    Some(p) => Some(p@),
                    None => None,
                },
                in_body,
            }),
        decreases input.len() - off,
    {
        let end = find_byte(input, 0x0a, off);
        if end >= input.len() {
            proof {
                assert(lines.skip(seen).len() == 0);
            }
            return Ok(multi);
        }
        proof {
            lemma_find_from(input@, 0x0au8, off as int);
        }
        let stop: usize = if end > off && input[end - 1] == 0x0d {
            end - 1
        } else {
            end
        };
        let line = vstd::slice::slice_subrange(input, off, stop);
        proof {
            let raw = input@.subrange(off as int, end as int);
            assert(line@ =~= strip_cr(raw));
            assert(lines_from(input@, off as int).len() >= 1);
            assert(lines[seen] == lines.skip(seen)[0]);
            assert(lines[seen] == line@);
            assert(lines.skip(seen + 1) =~= lines.skip(seen).skip(1));
        }
        let ghost before = feed_all(mark@, lines, seen);
        let ghost after = feed(mark@, before, line@);
        assert(feed_all(mark@, lines, seen + 1) == after);
        if has_suffix(line, mark) && current.is_some() {
            let ghost was = multi.parts_view();
            match current {
                Some(part) => {
                    multi.parts.push(part);
                    assert(multi.parts_view() =~= was.push(part@));
                },
                None => {},
            }
            current = None;
            in_body = false;
            assert(after.parts == multi.parts_view());
        } else {
            let mut part = match current {
                Some(part) => part,
                None => Part {
                    name: String::new(),
                    filename: None,
                    content_type: None,
                    data: Vec::new(),
                },
            };
            let ghost was = part@;
            assert(was == (match before.current {
                Some(p) => p,
                None => empty_part(),
            }));
            if line.len() == 0 {
                in_body = true;
            } else if !in_body {
                take_header(&mut part, line);
            } else {
                part.data.extend_from_slice(line);
                assert(part@.data =~= was.data + line@);
                assert(part@.name == was.name);
                assert(part@.filename == was.filename);
                assert(part@.content_type == was.content_type);
            }
            current = Some(part);
            assert(after.current == Some(part@));
        }
        proof {
            seen = seen + 1;
        }
        off = end + 1;
    }
}

} // verus!
