//! Laws of the chunked codec: what the writer frames, the reader decodes.

use vstd::prelude::*;
use crate::chunked::{
    chunk_data, chunked, data_step, dechunk, done, full_frames, last_frame, leftover,
    lemma_size_line_bounds, prepend, size_line, terminator, Decoded, End, SizeLine, Step,
    PIECE, SIZE_LINE_MAX,
};
use crate::numeral::{is_digit, lemma_parse_render, lemma_render_number, render};
use crate::stream::{crlf, frame, line_end, next_line, strip_line_end, LineEnd, NextLine};
use crate::text::lemma_find_from_unique;

verus! {

/// Sixteen to the power `k`.
pub open spec fn pow16(k: nat) -> nat
    decreases k,
{
    if k == 0 {
        1
    } else {
        16 * pow16((k - 1) as nat)
    }
}

/// A number below sixteen to the `k` has at most `k` hexadecimal digits.
pub proof fn lemma_hex_len(n: nat, k: nat)
    requires
        k >= 1,
        n < pow16(k),
    ensures
        render(n, 16).len() <= k,
    decreases k,
{
    if n >= 16 {
        assert(pow16(1) == 16) by {
            reveal_with_fuel(pow16, 2);
        }
        assert(k >= 2);
        assert(n / 16 < pow16((k - 1) as nat)) by (nonlinear_arith)
            requires
                n < 16 * pow16((k - 1) as nat),
        ;
        lemma_hex_len(n / 16, (k - 1) as nat);
    }
}

/// A size that fits the machine is written with one to sixteen digits, none of
/// which is a line end or a semicolon.
pub proof fn lemma_hex_size(n: nat)
    requires
        n <= usize::MAX,
    ensures
        1 <= render(n, 16).len() <= 16,
        forall|i: int|
            0 <= i < render(n, 16).len() ==> {
                let b = #[trigger] render(n, 16)[i];
                b != 0x0a && b != 0x0d && b != 0x3b
            },
{
    assert(pow16(16) == 0x1_0000_0000_0000_0000) by {
        reveal_with_fuel(pow16, 17);
    }
    lemma_hex_len(n, 16);
    lemma_render_number(n, 16);
    let s = render(n, 16);
    assert forall|i: int| 0 <= i < s.len() implies {
        let b = #[trigger] s[i];
        b != 0x0a && b != 0x0d && b != 0x3b
    } by {
        assert(is_digit(s[i], 16));
    }
}

/// The size line of a frame reads as the size that was written.
pub proof fn lemma_size_line_of_frame(n: nat, tail: Seq<u8>)
    requires
        n <= usize::MAX,
    ensures
        size_line(render(n, 16) + crlf() + tail) == (SizeLine::Size {
            size: n,
            used: render(n, 16).len() as int + 2,
        }),
{
    let digits = render(n, 16);
    let len = digits.len() as int;
    let input = digits + crlf() + tail;
    lemma_hex_size(n);
    let max = SIZE_LINE_MAX as int;
    let window = if input.len() <= max {
        input
    } else {
        input.take(max)
    };
    assert(window.len() >= len + 2);
    assert forall|j: int| 0 <= j < len + 1 implies window[j] != 0x0au8 by {
        if j < len {
            assert(window[j] == digits[j]);
        } else {
            assert(window[j] == crlf()[0]);
        }
    }
    assert(window[len + 1] == crlf()[1]);
    lemma_find_from_unique(window, 0x0au8, 0, len + 1);
    let raw = input.take(len + 2);
    assert(raw =~= digits + crlf());
    assert(raw[raw.len() - 2] == 0x0d);
    assert(strip_line_end(raw) =~= digits);
    assert(next_line(input, max) == (NextLine::Line { line: digits, used: len + 2 }));
    assert forall|j: int| 0 <= j < len implies digits[j] != 0x3bu8 by {}
    lemma_find_from_unique(digits, 0x3bu8, 0, len);
    assert(digits.take(len) =~= digits);
    lemma_parse_render(n, 16, usize::MAX as nat);
}

/// After the size line of a frame with payload, decoding goes on inside the
/// payload.
pub proof fn lemma_after_size_line(input: Seq<u8>)
    requires
        size_line(input) matches SizeLine::Size { size, used } && size > 0,
    ensures
        size_line(input) matches SizeLine::Size { size, used } && chunk_data(input, 0)
            == chunk_data(input.skip(used), size),
{
    lemma_size_line_bounds(input);
    match size_line(input) {
        SizeLine::Size { size, used } => {
            let data = input.skip(used);
            match data_step(data, size, false) {
                Step::Fault { .. } => {},
                Step::Piece { piece, used: more, remaining, eof } => {
                    assert(data.skip(more) =~= input.skip(used + more));
                },
            }
        },
        _ => {},
    }
}

/// A payload that is followed by a line end comes out whole, and decoding goes
/// on behind the line end.
pub proof fn lemma_payload(data: Seq<u8>, tail: Seq<u8>)
    requires
        data.len() > 0,
    ensures
        chunk_data(data + crlf() + tail, data.len()) == prepend(data, dechunk(tail)),
    decreases data.len(),
{
    let n = data.len();
    let input = data + crlf() + tail;
    let m = if n <= PIECE {
        n as int
    } else {
        PIECE as int
    };
    let next = dechunk(tail);
    if m < n {
        let head = data.take(m);
        let rest = data.skip(m);
        lemma_payload(rest, tail);
        assert(input.take(m) =~= head);
        assert(input.skip(m) =~= rest + crlf() + tail);
        assert(head + (rest + next.bytes) =~= data + next.bytes);
    } else {
        assert(input.skip(m) =~= crlf() + tail);
        assert(line_end(input.skip(m)) == LineEnd::Present);
        assert(input.take(m) =~= data);
        assert(input.skip(m + 2) =~= tail);
    }
}

/// A payload that is not followed by a line end breaks decoding.
pub proof fn lemma_payload_unterminated(data: Seq<u8>, tail: Seq<u8>)
    requires
        data.len() > 0,
        line_end(tail) == LineEnd::Absent,
    ensures
        chunk_data(data + tail, data.len()).end == End::Broken,
    decreases data.len(),
{
    let n = data.len();
    let input = data + tail;
    let m = if n <= PIECE {
        n as int
    } else {
        PIECE as int
    };
    if m < n {
        lemma_payload_unterminated(data.skip(m), tail);
        assert(input.skip(m) =~= data.skip(m) + tail);
    } else {
        assert(input.skip(m) =~= tail);
    }
}

/// One frame decodes to its payload, and decoding goes on behind it.
pub proof fn lemma_frame(data: Seq<u8>, tail: Seq<u8>)
    requires
        0 < data.len() <= usize::MAX,
    ensures
        dechunk(frame(data) + tail) == prepend(data, dechunk(tail)),
{
    let digits = render(data.len(), 16);
    let input = frame(data) + tail;
    assert(input =~= digits + crlf() + (data + crlf() + tail));
    lemma_size_line_of_frame(data.len(), data + crlf() + tail);
    lemma_after_size_line(input);
    assert(input.skip(digits.len() as int + 2) =~= data + crlf() + tail);
    lemma_payload(data, tail);
}

/// The closing frame ends decoding and leaves what follows it untouched.
pub proof fn lemma_terminator(rest: Seq<u8>)
    ensures
        dechunk(terminator() + rest) == done(rest),
{
    let input = terminator() + rest;
    assert(render(0, 16) =~= seq![0x30u8]);
    assert(input =~= render(0, 16) + crlf() + (crlf() + rest));
    lemma_size_line_of_frame(0, crlf() + rest);
    let data = input.skip(3);
    assert(data =~= crlf() + rest);
    assert(line_end(data.skip(0)) == LineEnd::Present);
    assert(data.take(0) =~= Seq::<u8>::empty());
    assert(input.skip(5) =~= rest);
    assert(Seq::<u8>::empty() + Seq::<u8>::empty() =~= Seq::<u8>::empty());
}

/// The frames of a payload, cut at any chunk size, decode to the payload, and
/// decoding goes on behind them.
pub proof fn lemma_frames(payload: Seq<u8>, size: nat, tail: Seq<u8>)
    requires
        payload.len() <= usize::MAX,
    ensures
        dechunk(full_frames(payload, size) + last_frame(leftover(payload, size)) + tail)
            == prepend(payload, dechunk(tail)),
    decreases payload.len(),
{
    let next = dechunk(tail);
    if size == 0 || payload.len() < size {
        if payload.len() == 0 {
            assert(full_frames(payload, size) + last_frame(leftover(payload, size)) + tail
                =~= tail);
            assert(payload + next.bytes =~= next.bytes);
        } else {
            assert(full_frames(payload, size) + last_frame(leftover(payload, size)) + tail
                =~= frame(payload) + tail);
            lemma_frame(payload, tail);
        }
    } else {
        let head = payload.take(size as int);
        let rest = payload.skip(size as int);
        let behind = full_frames(rest, size) + last_frame(leftover(rest, size)) + tail;
        lemma_frames(rest, size, tail);
        lemma_frame(head, behind);
        assert(full_frames(payload, size) + last_frame(leftover(payload, size)) + tail
            =~= frame(head) + behind);
        assert(head + (rest + next.bytes) =~= payload + next.bytes);
    }
}

/// Round trip: for every payload and every chunk size, decoding the framed
/// output of the writer gives the payload back, consumes the closing frame and
/// nothing behind it.
pub proof fn lemma_round_trip(payload: Seq<u8>, size: nat, rest: Seq<u8>)
    requires
        payload.len() <= usize::MAX,
    ensures
        dechunk(chunked(payload, size) + rest) == (Decoded {
            bytes: payload,
            end: End::Done,
            rest,
        }),
{
    lemma_frames(payload, size, terminator() + rest);
    lemma_terminator(rest);
    assert(chunked(payload, size) + rest =~= full_frames(payload, size) + last_frame(
        leftover(payload, size),
    ) + (terminator() + rest));
    assert(payload + Seq::<u8>::empty() =~= payload);
}

/// A frame whose declared size is not followed, after that many bytes, by a
/// line end breaks decoding, which the reader reports as a chunk error.
pub proof fn lemma_size_mismatch(data: Seq<u8>, tail: Seq<u8>)
    requires
        0 < data.len() <= usize::MAX,
        line_end(tail) == LineEnd::Absent,
    ensures
        dechunk(render(data.len(), 16) + crlf() + data + tail).end == End::Broken,
{
    let digits = render(data.len(), 16);
    let input = digits + crlf() + data + tail;
    assert(input =~= digits + crlf() + (data + tail));
    lemma_size_line_of_frame(data.len(), data + tail);
    lemma_after_size_line(input);
    assert(input.skip(digits.len() as int + 2) =~= data + tail);
    lemma_payload_unterminated(data, tail);
}

/// The framed output does not depend on how the payload is cut into writes:
/// writing `a` and then `b` emits the frames of `a + b` and leaves its
/// remainder buffered.
pub proof fn lemma_write_twice(a: Seq<u8>, b: Seq<u8>, size: nat)
    ensures
        full_frames(a, size) + full_frames(leftover(a, size) + b, size) == full_frames(
            a + b,
            size,
        ),
        leftover(leftover(a, size) + b, size) == leftover(a + b, size),
    decreases a.len(),
{
    if size == 0 || a.len() < size {
        assert(Seq::<u8>::empty() + full_frames(a + b, size) =~= full_frames(a + b, size));
    } else {
        let rest = a.skip(size as int);
        lemma_write_twice(rest, b, size);
        assert((a + b).take(size as int) =~= a.take(size as int));
        assert((a + b).skip(size as int) =~= rest + b);
        assert(frame(a.take(size as int)) + (full_frames(rest, size) + full_frames(
            leftover(rest, size) + b,
            size,
        )) =~= (frame(a.take(size as int)) + full_frames(rest, size)) + full_frames(
            leftover(rest, size) + b,
            size,
        ));
    }
}

} // verus!
