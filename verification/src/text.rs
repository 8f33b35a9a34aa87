//! Searching, splitting, trimming and comparing sequences of bytes and of
//! characters, and the conversions between bytes and text.

use vstd::prelude::*;

use vstd::utf8::{decode_utf8, encode_utf8, encode_utf8_decode_utf8, valid_utf8};

verus! {

/// The first index at or after `from` at which `x` stands in `s`, or the length
/// of `s` when there is none.
pub open spec fn find_from<T>(s: Seq<T>, x: T, from: int) -> int
    decreases s.len() - from,
{
    if from < 0 || from >= s.len() {
        s.len() as int
    } else if s[from] == x {
        from
    } else {
        find_from(s, x, from + 1)
    }
}

/// The first index at which `x` stands in `s`, or the length of `s`.
pub open spec fn find<T>(s: Seq<T>, x: T) -> int {
    find_from(s, x, 0)
}

/// `find_from` returns the first occurrence and nothing before it matches.
pub proof fn lemma_find_from<T>(s: Seq<T>, x: T, from: int)
    requires
        0 <= from <= s.len(),
    ensures
        from <= find_from(s, x, from) <= s.len(),
        find_from(s, x, from) < s.len() ==> s[find_from(s, x, from)] == x,
        forall|j: int| from <= j < find_from(s, x, from) ==> s[j] != x,
    decreases s.len() - from,
{
    if from < s.len() && s[from] != x {
        lemma_find_from(s, x, from + 1);
    }
}

/// An index that holds `x` with no earlier one from `from` on is what
/// `find_from` returns.
pub proof fn lemma_find_from_unique<T>(s: Seq<T>, x: T, from: int, at: int)
    requires
        0 <= from <= at <= s.len(),
        at < s.len() ==> s[at] == x,
        forall|j: int| from <= j < at ==> s[j] != x,
    ensures
        find_from(s, x, from) == at,
    decreases at - from,
{
    if from < at {
        lemma_find_from_unique(s, x, from + 1, at);
    }
}

/// The pieces of `s[from..]` between occurrences of `x`; there is always at
/// least one piece, and a piece may be empty.
pub open spec fn split_from<T>(s: Seq<T>, x: T, from: int) -> Seq<Seq<T>>
    decreases s.len() - from,
    via split_from_decreases::<T>
{
    let p = find_from(s, x, from);
    if from < 0 || from > s.len() {
        Seq::empty()
    } else if p < s.len() {
        seq![s.subrange(from, p)] + split_from(s, x, p + 1)
    } else {
        seq![s.subrange(from, s.len() as int)]
    }
}

#[via_fn]
proof fn split_from_decreases<T>(s: Seq<T>, x: T, from: int) {
    if 0 <= from <= s.len() {
        lemma_find_from(s, x, from);
    }
}

/// The pieces of `s` between occurrences of `x`.
pub open spec fn split<T>(s: Seq<T>, x: T) -> Seq<Seq<T>> {
    split_from(s, x, 0)
}

/// `s` begins with `prefix`.
pub open spec fn starts_with<T>(s: Seq<T>, prefix: Seq<T>) -> bool {
    prefix.len() <= s.len() && s.take(prefix.len() as int) == prefix
}

/// `s` ends with `suffix`.
pub open spec fn ends_with<T>(s: Seq<T>, suffix: Seq<T>) -> bool {
    suffix.len() <= s.len() && s.skip(s.len() - suffix.len()) == suffix
}

/// The characters with the Unicode property `White_Space`.
pub open spec fn is_space(c: char) -> bool {
    let u = c as u32;
    (0x09 <= u <= 0x0d) || u == 0x20 || u == 0x85 || u == 0xa0 || u == 0x1680 || (0x2000 <= u
        <= 0x200a) || u == 0x2028 || u == 0x2029 || u == 0x202f || u == 0x205f || u == 0x3000
}

/// How many white-space characters `s` begins with.
pub open spec fn leading_space(s: Seq<char>) -> int
    decreases s.len(),
{
    if s.len() > 0 && is_space(s[0]) {
        1 + leading_space(s.skip(1))
    } else {
        0
    }
}

/// How many white-space characters `s` ends with.
pub open spec fn trailing_space(s: Seq<char>) -> int
    decreases s.len(),
{
    if s.len() > 0 && is_space(s.last()) {
        1 + trailing_space(s.drop_last())
    } else {
        0
    }
}

/// `s` without the white space at its start.
pub open spec fn trim_start(s: Seq<char>) -> Seq<char> {
    s.skip(leading_space(s))
}

/// `s` without the white space at its end.
pub open spec fn trim_end(s: Seq<char>) -> Seq<char> {
    s.take(s.len() - trailing_space(s))
}

/// `s` without the white space at either end.
pub open spec fn trim(s: Seq<char>) -> Seq<char> {
    trim_end(trim_start(s))
}

/// The lower-case form of an ASCII letter; any other character unchanged.
pub open spec fn fold_case(c: char) -> char {
    if 'A' <= c <= 'Z' {
        ((c as u8) + 32) as char
    } else {
        c
    }
}

/// `a` and `b` are equal up to the case of ASCII letters.
pub open spec fn eq_ignore_case(a: Seq<char>, b: Seq<char>) -> bool {
    a.len() == b.len() && forall|i: int| 0 <= i < a.len()
        ==> fold_case(#[trigger] a[i]) == fold_case(b[i])
}

/// One of the comma-separated pieces of `value` is, once trimmed, `token` up
/// to the case of ASCII letters.
pub open spec fn has_token(value: Seq<char>, token: Seq<char>) -> bool {
    exists|i: int|
        0 <= i < split(value, ',').len() && eq_ignore_case(
            trim(#[trigger] split(value, ',')[i]),
            token,
        )
}

/// A count of leading white space is the one `leading_space` gives when the
/// characters before it are white space and the one at it, if any, is not.
pub proof fn lemma_leading_space_unique(s: Seq<char>, n: int)
    requires
        0 <= n <= s.len(),
        forall|j: int| 0 <= j < n ==> is_space(#[trigger] s[j]),
        n < s.len() ==> !is_space(s[n]),
    ensures
        leading_space(s) == n,
    decreases s.len(),
{
    if n > 0 {
        let t = s.skip(1);
        assert forall|j: int| 0 <= j < n - 1 implies is_space(#[trigger] t[j]) by {
            assert(t[j] == s[j + 1]);
        }
        lemma_leading_space_unique(t, n - 1);
    }
}

/// A count of trailing white space is the one `trailing_space` gives when the
/// characters behind it are white space and the one before them, if any, is
/// not.
pub proof fn lemma_trailing_space_unique(s: Seq<char>, n: int)
    requires
        0 <= n <= s.len(),
        forall|j: int| s.len() - n <= j < s.len() ==> is_space(#[trigger] s[j]),
        n < s.len() ==> !is_space(s[s.len() - n - 1]),
    ensures
        trailing_space(s) == n,
    decreases s.len(),
{
    if n > 0 {
        let t = s.drop_last();
        assert forall|j: int| t.len() - (n - 1) <= j < t.len() implies is_space(
            #[trigger] t[j],
        ) by {
            assert(t[j] == s[j]);
        }
        lemma_trailing_space_unique(t, n - 1);
    }
}

/// Whether a character is white space.
pub fn is_whitespace(c: char) -> (r: bool)
    ensures
        r == is_space(c),
{
    let u: u32 = c as u32;
    (0x09 <= u && u <= 0x0d) || u == 0x20 || u == 0x85 || u == 0xa0 || u == 0x1680 || (0x2000
        <= u && u <= 0x200a) || u == 0x2028 || u == 0x2029 || u == 0x202f || u == 0x205f || u
        == 0x3000
}

/// The first index at or after `from` where the byte `x` stands, or the length.
pub fn find_byte(s: &[u8], x: u8, from: usize) -> (r: usize)
    requires
        from <= s.len(),
    ensures
        r == find_from(s@, x, from as int),
        from <= r <= s.len(),
{
    let mut i: usize = from;
    while i < s.len() && s[i] != x
        invariant
            from <= i <= s.len(),
            find_from(s@, x, from as int) == find_from(s@, x, i as int),
        decreases s.len() - i,
    {
        i += 1;
    }
    i
}

/// The first index at or after `from` where the character `x` stands, or the
/// length.
pub fn find_char(s: &[char], x: char, from: usize) -> (r: usize)
    requires
        from <= s.len(),
    ensures
        r == find_from(s@, x, from as int),
        from <= r <= s.len(),
{
    let mut i: usize = from;
    while i < s.len() && s[i] != x
        invariant
            from <= i <= s.len(),
            find_from(s@, x, from as int) == find_from(s@, x, i as int),
        decreases s.len() - i,
    {
        i += 1;
    }
    i
}

/// A copy of `s[from..to]`.
pub fn copy_bytes(s: &[u8], from: usize, to: usize) -> (v: Vec<u8>)
    requires
        from <= to <= s.len(),
    ensures
        v@ == s@.subrange(from as int, to as int),
{
    let mut v: Vec<u8> = Vec::new();
    let mut i: usize = from;
    while i < to
        invariant
            from <= i <= to <= s.len(),
            v@ == s@.subrange(from as int, i as int),
        decreases to - i,
    {
        v.push(s[i]);
        assert(v@ =~= s@.subrange(from as int, i + 1));
        i += 1;
    }
    v
}

/// A copy of `s[from..to]`.
pub fn copy_chars(s: &[char], from: usize, to: usize) -> (v: Vec<char>)
    requires
        from <= to <= s.len(),
    ensures
        v@ == s@.subrange(from as int, to as int),
{
    let mut v: Vec<char> = Vec::new();
    let mut i: usize = from;
    while i < to
        invariant
            from <= i <= to <= s.len(),
            v@ == s@.subrange(from as int, i as int),
        decreases to - i,
    {
        v.push(s[i]);
        assert(v@ =~= s@.subrange(from as int, i + 1));
        i += 1;
    }
    v
}

/// Where the text of `s[from..to]` begins and ends once the white space at
/// both ends is left out.
pub fn trim_bounds(s: &[char], from: usize, to: usize) -> (r: (usize, usize))
    requires
        from <= to <= s.len(),
    ensures
        from <= r.0 <= r.1 <= to,
        s@.subrange(r.0 as int, r.1 as int) == trim(s@.subrange(from as int, to as int)),
{
    let ghost piece = s@.subrange(from as int, to as int);
    let mut a: usize = from;
    while a < to && is_whitespace(s[a])
        invariant
            from <= a <= to <= s.len(),
            piece == s@.subrange(from as int, to as int),
            forall|j: int| 0 <= j < a - from ==> is_space(#[trigger] piece[j]),
        decreases to - a,
    {
        a += 1;
    }
    proof {
        lemma_leading_space_unique(piece, a - from);
    }
    let ghost rest = piece.skip(a - from);
    let mut b: usize = to;
    while b > a && is_whitespace(s[b - 1])
        invariant
            from <= a <= b <= to <= s.len(),
            piece == s@.subrange(from as int, to as int),
            rest == piece.skip(a - from),
            forall|j: int| b - a <= j < rest.len() ==> is_space(#[trigger] rest[j]),
        decreases b,
    {
        b -= 1;
    }
    proof {
        lemma_trailing_space_unique(rest, to - b);
        assert(s@.subrange(a as int, b as int) =~= rest.take(rest.len() - (to - b)));
    }
    (a, b)
}

/// Where the text of `s[from..to]` ends once the white space at its end is
/// left out.
pub fn trim_end_bound(s: &[char], from: usize, to: usize) -> (r: usize)
    requires
        from <= to <= s.len(),
    ensures
        from <= r <= to,
        s@.subrange(from as int, r as int) == trim_end(s@.subrange(from as int, to as int)),
{
    let ghost piece = s@.subrange(from as int, to as int);
    let mut b: usize = to;
    while b > from && is_whitespace(s[b - 1])
        invariant
            from <= b <= to <= s.len(),
            piece == s@.subrange(from as int, to as int),
            forall|j: int| b - from <= j < piece.len() ==> is_space(#[trigger] piece[j]),
        decreases b,
    {
        b -= 1;
    }
    proof {
        lemma_trailing_space_unique(piece, to - b);
        assert(s@.subrange(from as int, b as int) =~= piece.take(piece.len() - (to - b)));
    }
    b
}

/// The lower-case form of an ASCII letter.
pub fn lower(c: char) -> (r: char)
    ensures
        r == fold_case(c),
{
    if 'A' <= c && c <= 'Z' {
        ((c as u8) + 32) as char
    } else {
        c
    }
}

/// Whether `s[from..to]` equals `token` up to the case of ASCII letters.
pub fn matches_ignore_case(s: &[char], from: usize, to: usize, token: &[char]) -> (r: bool)
    requires
        from <= to <= s.len(),
    ensures
        r == eq_ignore_case(s@.subrange(from as int, to as int), token@),
{
    if to - from != token.len() {
        return false;
    }
    let ghost piece = s@.subrange(from as int, to as int);
    let mut i: usize = 0;
    while i < token.len()
        invariant
            from <= to <= s.len(),
            to - from == token.len(),
            0 <= i <= token.len(),
            piece == s@.subrange(from as int, to as int),
            forall|j: int| 0 <= j < i ==> fold_case(#[trigger] piece[j]) == fold_case(token@[j]),
        decreases token.len() - i,
    {
        if lower(s[from + i]) != lower(token[i]) {
            assert(piece[i as int] == s@[from + i]);
            return false;
        }
        assert(piece[i as int] == s@[from + i]);
        i += 1;
    }
    true
}

/// Whether `s` begins with `prefix`.
pub fn has_prefix(s: &[char], prefix: &[char]) -> (r: bool)
    ensures
        r == starts_with(s@, prefix@),
{
    if prefix.len() > s.len() {
        return false;
    }
    let mut i: usize = 0;
    while i < prefix.len()
        invariant
            prefix.len() <= s.len(),
            0 <= i <= prefix.len(),
            forall|j: int| 0 <= j < i ==> s@[j] == prefix@[j],
        decreases prefix.len() - i,
    {
        if s[i] != prefix[i] {
            assert(s@.take(prefix.len() as int)[i as int] == s@[i as int]);
            return false;
        }
        i += 1;
    }
    assert(s@.take(prefix.len() as int) =~= prefix@);
    true
}

/// Whether one of the comma-separated pieces of `value` is, once trimmed,
/// `token` up to the case of ASCII letters.
pub fn contains_token(value: &[char], token: &[char]) -> (r: bool)
    ensures
        r == has_token(value@, token@),
{
    let ghost all = split(value@, ',');
    let ghost mut seen: Seq<Seq<char>> = Seq::empty();
    let mut off: usize = 0;
    assert(seen + split_from(value@, ',', 0) =~= all);
    loop
        invariant
            0 <= off <= value.len(),
            all == split(value@, ','),
            all == seen + split_from(value@, ',', off as int),
            forall|i: int| 0 <= i < seen.len()
                ==> !eq_ignore_case(trim(#[trigger] seen[i]), token@),
        decreases value.len() - off,
    {
        let p = find_char(value, ',', off);
        let (a, b) = trim_bounds(value, off, p);
        let ghost piece = value@.subrange(off as int, p as int);
        let hit = matches_ignore_case(value, a, b, token);
        if hit {
            proof {
                assert(all[seen.len() as int] == piece);
            }
            return true;
        }
        proof {
            let grown = seen.push(piece);
            if p < value.len() {
                assert(grown + split_from(value@, ',', p + 1) =~= seen + (seq![piece]
                    + split_from(value@, ',', p + 1)));
            } else {
                assert(grown =~= seen + seq![piece]);
            }
            seen = grown;
        }
        if p >= value.len() {
            proof {
                assert(all == seen);
                assert forall|i: int| 0 <= i < all.len() implies !eq_ignore_case(
                    trim(#[trigger] all[i]),
                    token@,
                ) by {}
            }
            return false;
        }
        off = p + 1;
    }
}

/// Whether two byte slices hold the same bytes.
pub fn same_bytes(a: &[u8], b: &[u8]) -> (r: bool)
    ensures
        r == (a@ == b@),
{
    if a.len() != b.len() {
        return false;
    }
    let mut i: usize = 0;
    while i < a.len()
        invariant
            a.len() == b.len(),
            0 <= i <= a.len(),
            forall|j: int| 0 <= j < i ==> a@[j] == b@[j],
        decreases a.len() - i,
    {
        if a[i] != b[i] {
            return false;
        }
        i += 1;
    }
    assert(a@ =~= b@);
    true
}

/// Two texts with the same UTF-8 encoding are the same text.
pub proof fn lemma_encoding_injective(a: Seq<char>, b: Seq<char>)
    requires
        encode_utf8(a) == encode_utf8(b),
    ensures
        a == b,
{
    encode_utf8_decode_utf8(a);
    encode_utf8_decode_utf8(b);
}

/// Whether two strings hold the same text.
pub fn same_text(a: &str, b: &str) -> (r: bool)
    ensures
        r == (a@ == b@),
{
    let r = same_bytes(a.as_bytes(), b.as_bytes());
    proof {
        if r {
            lemma_encoding_injective(a@, b@);
        }
    }
    r
}

/// The text that valid UTF-8 bytes encode; `None` when the bytes are not valid
/// UTF-8.
///
/// Trusted: calls `String::from_utf8` of the standard library, which returns
/// the text exactly when its argument is well-formed UTF-8.
#[verifier::external_body]
pub(crate) fn text_of_bytes(bytes: &[u8]) -> (r: Option<String>)
    ensures
        r is Some <==> valid_utf8(bytes@),
        r matches Some(s) ==> s@ == decode_utf8(bytes@),
{
    match String::from_utf8(bytes.to_vec()) {
        Ok(s) => Some(s),
        Err(_) => None,
    }
}

/// The characters of a string, in order.
pub fn chars_of(s: &str) -> (r: Vec<char>)
    ensures
        r@ == s@,
{
    broadcast use vstd::string::group_string_axioms;

    let mut r: Vec<char> = Vec::new();
    for c in it: s.chars()
        invariant
            it.seq() == s@,
            r@ == s@.take(it.index() as int),
    {
        r.push(c);
        assert(r@ =~= s@.take(it.index() + 1));
    }
    assert(s@.take(s@.len() as int) =~= s@);
    r
}

/// The string made of the given characters, in order.
///
/// Trusted: collects into a `String` through the standard library's
/// `FromIterator<char>`, which appends each character in turn.
#[verifier::external_body]
pub(crate) fn string_of(chars: &[char]) -> (r: String)
    ensures
        r@ == chars@,
{
    chars.iter().collect()
}

} // verus!
