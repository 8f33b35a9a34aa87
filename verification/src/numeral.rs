//! Integers written as ASCII digits, in base ten and base sixteen.
//!
//! The wire format carries chunk sizes in hexadecimal and lengths and status
//! codes in decimal. This module defines what a run of digits denotes, how a
//! number is written down, and proves that reading what was written gives the
//! number back.

use vstd::prelude::*;

verus! {

/// What one ASCII digit is worth; letters count in either case.
pub open spec fn digit_value(b: u8) -> Option<nat> {
    if 0x30 <= b <= 0x39 {
        Some((b - 0x30) as nat)
    } else if 0x61 <= b <= 0x66 {
        Some((b - 0x61 + 10) as nat)
    } else if 0x41 <= b <= 0x46 {
        Some((b - 0x41 + 10) as nat)
    } else {
        None
    }
}

/// `b` is a digit of the given base.
pub open spec fn is_digit(b: u8, base: nat) -> bool {
    digit_value(b) matches Some(d) && d < base
}

/// Every byte of `s` is a digit of the given base.
pub open spec fn all_digits(s: Seq<u8>, base: nat) -> bool {
    forall|i: int| 0 <= i < s.len() ==> is_digit(#[trigger] s[i], base)
}

/// The number that a run of digits denotes, most significant digit first.
pub open spec fn number(s: Seq<u8>, base: nat) -> nat
    decreases s.len(),
{
    if s.len() == 0 {
        0
    } else {
        number(s.drop_last(), base) * base + digit_value(s.last()).unwrap_or(0)
    }
}

/// The lower-case ASCII digit that stands for `d`, for `d` below sixteen.
pub open spec fn digit_char(d: nat) -> u8 {
    if d < 10 {
        (0x30 + d) as u8
    } else {
        (0x61 + d - 10) as u8
    }
}

/// `n` written in the given base, without sign or leading zeros.
pub open spec fn render(n: nat, base: nat) -> Seq<u8>
    decreases n,
    via render_decreases
{
    if n < base || base < 2 {
        seq![digit_char(n)]
    } else {
        render(n / base, base).push(digit_char(n % base))
    }
}

#[via_fn]
proof fn render_decreases(n: nat, base: nat) {
    if !(n < base || base < 2) {
        assert(n / base < n) by (nonlinear_arith)
            requires
                n >= base,
                base >= 2,
        ;
    }
}

/// What an unsigned integer parser accepts: an optional `+`, then at least one
/// digit, denoting a number that does not exceed `max`.
pub open spec fn parse_unsigned(s: Seq<u8>, base: nat, max: nat) -> Option<nat> {
    let digits = if s.len() > 0 && s[0] == 0x2b {
        s.skip(1)
    } else {
        s
    };
    if digits.len() > 0 && all_digits(digits, base) && number(digits, base) <= max {
        Some(number(digits, base))
    } else {
        None
    }
}

/// What a signed 32-bit parser accepts: an optional `+` or `-`, then at least
/// one decimal digit, denoting a number within the range of `i32`.
pub open spec fn parse_i32(s: Seq<u8>) -> Option<int> {
    let negative = s.len() > 0 && s[0] == 0x2d;
    let digits = if s.len() > 0 && (s[0] == 0x2b || s[0] == 0x2d) {
        s.skip(1)
    } else {
        s
    };
    let magnitude = number(digits, 10) as int;
    let value = if negative {
        -magnitude
    } else {
        magnitude
    };
    if digits.len() > 0 && all_digits(digits, 10) && i32::MIN <= value <= i32::MAX {
        Some(value)
    } else {
        None
    }
}

/// `n` written in decimal, with a leading `-` when it is negative.
pub open spec fn render_signed(n: int) -> Seq<u8> {
    if n < 0 {
        seq![0x2du8] + render((-n) as nat, 10)
    } else {
        render(n as nat, 10)
    }
}

/// A longer run of digits never denotes less than one of its prefixes.
pub proof fn lemma_number_prefix(s: Seq<u8>, k: int, base: nat)
    requires
        0 <= k <= s.len(),
        base >= 1,
    ensures
        number(s.take(k), base) <= number(s, base),
    decreases s.len(),
{
    if k < s.len() {
        lemma_number_prefix(s.drop_last(), k, base);
        assert(s.drop_last().take(k) =~= s.take(k));
        assert(number(s.drop_last(), base) * base >= number(s.drop_last(), base))
            by (nonlinear_arith)
            requires
                base >= 1,
        ;
    } else {
        assert(s.take(k) =~= s);
    }
}

/// Appending one digit multiplies by the base and adds the digit.
pub proof fn lemma_number_push(s: Seq<u8>, b: u8, base: nat)
    ensures
        number(s.push(b), base) == number(s, base) * base + digit_value(b).unwrap_or(0),
{
    assert(s.push(b).drop_last() =~= s);
}

/// Writing a number gives a non-empty run of digits that denotes it.
pub proof fn lemma_render_number(n: nat, base: nat)
    requires
        2 <= base <= 16,
    ensures
        render(n, base).len() > 0,
        all_digits(render(n, base), base),
        number(render(n, base), base) == n,
        render(n, base)[0] != 0x2b,
        render(n, base)[0] != 0x2d,
    decreases n,
{
    if n < base {
        let e = Seq::<u8>::empty();
        let s = e.push(digit_char(n));
        assert(render(n, base) =~= s);
        lemma_number_push(e, digit_char(n), base);
        assert(digit_value(digit_char(n)) == Some(n));
        assert(number(e, base) == 0);
        assert(number(e, base) * base == 0) by (nonlinear_arith)
            requires
                number(e, base) == 0,
        ;
        assert(number(s, base) == n);
        assert(s[0] == digit_char(n));
    } else {
        let q = n / base;
        let r = n % base;
        assert(q < n && q * base + r == n && r < base) by (nonlinear_arith)
            requires
                q == n / base,
                r == n % base,
                n >= base,
                base >= 2,
        ;
        lemma_render_number(q, base);
        let t = render(q, base);
        lemma_number_push(t, digit_char(r), base);
        assert(digit_value(digit_char(r)) == Some(r));
        let s = t.push(digit_char(r));
        assert(render(n, base) == s);
        assert(number(t, base) == q);
        assert(number(s, base) == number(t, base) * base + r);
        assert(number(t, base) * base == q * base) by (nonlinear_arith)
            requires
                number(t, base) == q,
        ;
        assert(number(s, base) == n);
        assert(s[0] == t[0]);
        assert forall|i: int| 0 <= i < s.len() implies is_digit(#[trigger] s[i], base) by {
            if i < t.len() {
                assert(s[i] == t[i]);
            }
        }
    }
}

/// Reading back a number written in the given base gives the number.
pub proof fn lemma_parse_render(n: nat, base: nat, max: nat)
    requires
        2 <= base <= 16,
        n <= max,
    ensures
        parse_unsigned(render(n, base), base, max) == Some(n),
{
    lemma_render_number(n, base);
}

/// Reading back a signed number written in decimal gives the number.
pub proof fn lemma_parse_render_signed(n: int)
    requires
        i32::MIN <= n <= i32::MAX,
    ensures
        parse_i32(render_signed(n)) == Some(n),
{
    if n < 0 {
        let m = (-n) as nat;
        lemma_render_number(m, 10);
        let s = seq![0x2du8] + render(m, 10);
        assert(s.skip(1) =~= render(m, 10));
        assert(s[0] == 0x2d);
    } else {
        lemma_render_number(n as nat, 10);
    }
}

/// The value of a digit of a base up to sixteen, if the byte is one.
pub fn digit_of(b: u8, base: u8) -> (r: Option<u8>)
    requires
        2 <= base <= 16,
    ensures
        r is Some <==> is_digit(b, base as nat),
        r matches Some(d) ==> digit_value(b) == Some(d as nat),
{
    let d: u8 = if 0x30 <= b && b <= 0x39 {
        b - 0x30
    } else if 0x61 <= b && b <= 0x66 {
        b - 0x61 + 10
    } else if 0x41 <= b && b <= 0x46 {
        b - 0x41 + 10
    } else {
        return None;
    };
    if d < base {
        Some(d)
    } else {
        None
    }
}

/// Reads the digits `s[from..]` as a number of at most `max`.
fn read_digits(s: &[u8], from: usize, base: u8, max: usize) -> (r: Option<usize>)
    requires
        2 <= base <= 16,
        from <= s.len(),
    ensures
        r is Some <==> from < s.len() && all_digits(s@.skip(from as int), base as nat) && number(
            s@.skip(from as int),
            base as nat,
        ) <= max,
        r matches Some(n) ==> n == number(s@.skip(from as int), base as nat),
{
    let ghost digits = s@.skip(from as int);
    if from == s.len() {
        return None;
    }
    let mut acc: usize = 0;
    let mut i: usize = from;
    while i < s.len()
        invariant
            2 <= base <= 16,
            from <= i <= s.len(),
            digits == s@.skip(from as int),
            all_digits(digits.take(i - from), base as nat),
            acc == number(digits.take(i - from), base as nat),
            acc <= max,
        decreases s.len() - i,
    {
        let ghost k = i - from;
        proof {
            assert(digits[k] == s@[i as int]);
            assert(digits.take(k + 1) =~= digits.take(k).push(digits[k]));
            lemma_number_push(digits.take(k), digits[k], base as nat);
        }
        match digit_of(s[i], base) {
            None => {
                return None;
            },
            Some(d) => {
                let b: usize = base as usize;
                let dv: usize = d as usize;
                if dv > max || acc > (max - dv) / b {
                    proof {
                        assert(acc * b + dv > max) by (nonlinear_arith)
                            requires
                                dv > max || acc > (max - dv) / (b as int),
                                b >= 2,
                                acc >= 0,
                                dv >= 0,
                                max >= 0,
                        ;
                        lemma_number_prefix(digits, k + 1, base as nat);
                    }
                    return None;
                }
                proof {
                    assert(acc * b + dv <= max) by (nonlinear_arith)
                        requires
                            acc <= (max - dv) / (b as int),
                            dv <= max,
                            b >= 2,
                    ;
                    assert forall|j: int| 0 <= j < k + 1 implies is_digit(
                        #[trigger] digits.take(k + 1)[j],
                        base as nat,
                    ) by {
                        if j < k {
                            assert(digits.take(k + 1)[j] == digits.take(k)[j]);
                        }
                    }
                }
                acc = acc * b + dv;
            },
        }
        i += 1;
    }
    proof {
        assert(digits.take(i - from) =~= digits);
    }
    Some(acc)
}

/// Reads an unsigned integer in the given base, as `parse_unsigned` defines it.
pub fn read_unsigned(s: &[u8], base: u8) -> (r: Option<usize>)
    requires
        2 <= base <= 16,
    ensures
        r is Some <==> parse_unsigned(s@, base as nat, usize::MAX as nat) is Some,
        r matches Some(n)
            ==> parse_unsigned(s@, base as nat, usize::MAX as nat) == Some(n as nat),
{
    if s.len() > 0 && s[0] == 0x2b {
        read_digits(s, 1, base, usize::MAX)
    } else {
        proof {
            assert(s@.skip(0) =~= s@);
        }
        read_digits(s, 0, base, usize::MAX)
    }
}

/// Reads a signed decimal integer, as `parse_i32` defines it.
pub fn read_i32(s: &[u8]) -> (r: Option<i32>)
    ensures
        r is Some <==> parse_i32(s@) is Some,
        r matches Some(n) ==> parse_i32(s@) == Some(n as int),
{
    if s.len() > 0 && s[0] == 0x2d {
        match read_digits(s, 1, 10, 0x8000_0000) {
            Some(m) => {
                if m == 0x8000_0000 {
                    Some(i32::MIN)
                } else {
                    Some(-(m as i32))
                }
            },
            None => None,
        }
    } else if s.len() > 0 && s[0] == 0x2b {
        match read_digits(s, 1, 10, 0x7fff_ffff) {
            Some(m) => Some(m as i32),
            None => None,
        }
    } else {
        proof {
            assert(s@.skip(0) =~= s@);
        }
        match read_digits(s, 0, 10, 0x7fff_ffff) {
            Some(m) => Some(m as i32),
            None => None,
        }
    }
}

/// The lower-case ASCII digit for a value below sixteen.
fn digit_byte(d: usize) -> (b: u8)
    requires
        d < 16,
    ensures
        b == digit_char(d as nat),
{
    if d < 10 {
        0x30 + d as u8
    } else {
        0x61 + (d as u8 - 10)
    }
}

/// Writes `n` in the given base.
pub fn write_unsigned(n: usize, base: u8) -> (v: Vec<u8>)
    requires
        2 <= base <= 16,
    ensures
        v@ == render(n as nat, base as nat),
    decreases n,
{
    let b: usize = base as usize;
    if n < b {
        let mut v: Vec<u8> = Vec::new();
        v.push(digit_byte(n));
        assert(v@ =~= seq![digit_char(n as nat)]);
        v
    } else {
        assert(n / b < n) by (nonlinear_arith)
            requires
                n >= b,
                b >= 2,
        ;
        let mut v = write_unsigned(n / b, base);
        v.push(digit_byte(n % b));
        v
    }
}

/// Writes a signed number in decimal.
pub fn write_i32(n: i32) -> (v: Vec<u8>)
    ensures
        v@ == render_signed(n as int),
{
    if n < 0 {
        let m: usize = if n == i32::MIN {
            0x8000_0000
        } else {
            (-n) as usize
        };
        let mut v: Vec<u8> = Vec::new();
        v.push(0x2d);
        let mut digits = write_unsigned(m, 10);
        v.append(&mut digits);
        assert(v@ =~= seq![0x2du8] + render(m as nat, 10));
        v
    } else {
        write_unsigned(n as usize, 10)
    }
}

/// ASCII bytes as the characters that they stand for.
pub open spec fn as_text(bytes: Seq<u8>) -> Seq<char> {
    Seq::new(bytes.len(), |i: int| bytes[i] as char)
}

/// `n` written in decimal, as text.
pub fn decimal_text(n: usize) -> (s: String)
    ensures
        s@ == as_text(render(n as nat, 10)),
{
    let digits = write_unsigned(n, 10);
    let mut chars: Vec<char> = Vec::new();
    let mut i: usize = 0;
    while i < digits.len()
        invariant
            0 <= i <= digits.len(),
            chars@ == as_text(digits@.take(i as int)),
        decreases digits.len() - i,
    {
        chars.push(digits[i] as char);
        assert(chars@ =~= as_text(digits@.take(i + 1)));
        i += 1;
    }
    assert(digits@.take(digits@.len() as int) =~= digits@);
    crate::text::string_of(chars.as_slice())
}

} // verus!
