//! Numbers as text: decimal and hexadecimal digits, written and read.
use vstd::prelude::*;

use crate::text::chars;

verus! {

// ── writing ───────────────────────────────────────────────────────────────────

/// The digit for `d`, in lower case.
pub open spec fn digit(d: int) -> char {
    if d < 10 {
        (('0' as int) + d) as char
    } else {
        (('a' as int) + d - 10) as char
    }
}

/// The digits of `n` in the given base, the most significant first.
pub open spec fn digits(n: nat, base: nat) -> Seq<char>
    decreases n,
{
    if base < 2 {
        seq![]
    } else if n < base {
        seq![digit(n as int)]
    } else {
        proof {
            assert(n / base < n) by (nonlinear_arith)
                requires
                    n >= base,
                    base >= 2,
            ;
        }
        digits(n / base, base).push(digit((n % base) as int))
    }
}

/// `n` in decimal.
pub open spec fn dec(n: nat) -> Seq<char> {
    digits(n, 10)
}

/// `n` in lower-case hexadecimal.
pub open spec fn hex(n: nat) -> Seq<char> {
    digits(n, 16)
}

/// `s` with zeros in front of it, at least `width` characters long.
pub open spec fn zero_padded(s: Seq<char>, width: nat) -> Seq<char> {
    if s.len() < width {
        Seq::new((width - s.len()) as nat, |i: int| '0') + s
    } else {
        s
    }
}

fn digit_char(d: u8) -> (r: char)
    requires
        d < 16,
    ensures
        r == digit(d as int),
{
    let c: u8 = if d < 10 {
        48 + d
    } else {
        87 + d
    };
    c as char
}

fn push_digits(out: &mut String, n: u64, base: u64)
    requires
        2 <= base <= 16,
    ensures
        final(out)@ == old(out)@ + digits(n as nat, base as nat),
    decreases n,
{
    if n >= base {
        assert(n / base < n) by (nonlinear_arith)
            requires
                n >= base,
                base >= 2,
        ;
        push_digits(out, n / base, base);
    }
    out.push(digit_char((n % base) as u8));
    assert(n < base ==> n % base == n) by (nonlinear_arith)
        requires
            base >= 2,
    ;
    assert(out@ =~= old(out)@ + digits(n as nat, base as nat));
}

/// `n` in decimal.
pub fn decimal(n: u64) -> (r: String)
    ensures
        r@ == dec(n as nat),
{
    let mut out = String::new();
    push_digits(&mut out, n, 10);
    assert(out@ =~= dec(n as nat));
    out
}

/// `n` in lower-case hexadecimal.
pub fn hexadecimal(n: u64) -> (r: String)
    ensures
        r@ == hex(n as nat),
{
    let mut out = String::new();
    push_digits(&mut out, n, 16);
    assert(out@ =~= hex(n as nat));
    out
}

/// `n` in lower-case hexadecimal, with zeros in front up to `width` characters.
pub fn hexadecimal_padded(n: u64, width: usize) -> (r: String)
    ensures
        r@ == zero_padded(hex(n as nat), width as nat),
{
    let body = hexadecimal(n);
    let len: usize = body.as_str().unicode_len();
    let mut out = String::new();
    let mut i: usize = len;
    while i < width
        invariant
            len == body@.len(),
            len <= i,
            i <= width || i == len,
            out@ == Seq::new((i - len) as nat, |j: int| '0'),
        decreases width - i,
    {
        out.push('0');
        i += 1;
        assert(out@ =~= Seq::new((i - len) as nat, |j: int| '0'));
    }
    out.append(body.as_str());
    assert(out@ =~= zero_padded(hex(n as nat), width as nat));
    out
}

// ── reading ───────────────────────────────────────────────────────────────────

/// The value of a digit in the given base, letters in either case.
pub open spec fn digit_value(c: char, base: nat) -> Option<nat> {
    let v = if '0' <= c <= '9' {
        (c as int) - ('0' as int)
    } else if 'a' <= c <= 'z' {
        (c as int) - ('a' as int) + 10
    } else if 'A' <= c <= 'Z' {
        (c as int) - ('A' as int) + 10
    } else {
        1000
    };
    if v < base {
        Some(v as nat)
    } else {
        None
    }
}

/// The number that a run of digits denotes, if all of them are digits.
pub open spec fn digits_value(s: Seq<char>, base: nat) -> Option<nat>
    decreases s.len(),
{
    if s.len() == 0 {
        Some(0)
    } else {
        match (digits_value(s.drop_last(), base), digit_value(s.last(), base)) {
            (Some(a), Some(d)) => Some(a * base + d),
            _ => None,
        }
    }
}

/// The number that `s` denotes: an optional `+`, then one or more digits, with
/// a value of at most `max`.
pub open spec fn number(s: Seq<char>, base: nat, max: nat) -> Option<nat> {
    let body = if s.len() > 0 && s[0] == '+' {
        s.skip(1)
    } else {
        s
    };
    if body.len() == 0 {
        None
    } else {
        match digits_value(body, base) {
            Some(n) => if n <= max {
                Some(n)
            } else {
                None
            },
            None => None,
        }
    }
}

/// The value of a run of digits is at least that of each of its prefixes.
proof fn lemma_prefix_value(s: Seq<char>, base: nat, i: int)
    requires
        0 <= i <= s.len(),
        base >= 2,
    ensures
        match digits_value(s, base) {
            Some(n) => digits_value(s.take(i), base) is Some && digits_value(s.take(i), base)->0
                <= n,
            None => true,
        },
    decreases s.len() - i,
{
    if i == s.len() {
        assert(s.take(i) =~= s);
    } else {
        lemma_prefix_value(s, base, i + 1);
        assert(s.take(i + 1).drop_last() =~= s.take(i));
        if let Some(n) = digits_value(s, base) {
            let a = digits_value(s.take(i), base)->0;
            assert(a <= a * base) by (nonlinear_arith)
                requires
                    base >= 2,
            ;
        }
    }
}

fn value_of_digit(c: char, base: u64) -> (r: Option<u64>)
    requires
        2 <= base <= 16,
    ensures
        match r {
            Some(d) => digit_value(c, base as nat) == Some(d as nat) && d < base,
            None => digit_value(c, base as nat) is None,
        },
{
    let n: u32 = c as u32;
    let v: u32 = if '0' <= c && c <= '9' {
        n - 48
    } else if 'a' <= c && c <= 'z' {
        n - 87
    } else if 'A' <= c && c <= 'Z' {
        n - 55
    } else {
        1000
    };
    if (v as u64) < base {
        Some(v as u64)
    } else {
        None
    }
}

/// The number that `s` denotes in the given base, if it is at most `max`.
pub fn parse(s: &str, base: u64, max: u64) -> (r: Option<u64>)
    requires
        2 <= base <= 16,
    ensures
        match r {
            Some(n) => number(s@, base as nat, max as nat) == Some(n as nat) && n <= max,
            None => number(s@, base as nat, max as nat) is None,
        },
{
    let v = chars(s);
    let start: usize = if v.len() > 0 && v[0] == '+' {
        1
    } else {
        0
    };
    if start == v.len() {
        return None;
    }
    let ghost body = s@.skip(start as int);
    assert(start == 0 ==> body =~= s@);
    let mut acc: u64 = 0;
    let mut i: usize = start;
    assert(body.take(0) =~= seq![]);
    while i < v.len()
        invariant
            v@ == s@,
            2 <= base <= 16,
            start <= i <= v@.len(),
            body == s@.skip(start as int),
            digits_value(body.take(i - start), base as nat) == Some(acc as nat),
            acc <= max,
            number(s@, base as nat, max as nat) == match digits_value(body, base as nat) {
                Some(n) => if n <= max {
                    Some(n)
                } else {
                    None
                },
                None => None,
            },
        decreases v@.len() - i,
    {
        proof {
            assert(body.take(i + 1 - start).drop_last() =~= body.take(i - start));
            assert(body.take(i + 1 - start).last() == v@[i as int]);
            lemma_prefix_value(body, base as nat, i + 1 - start);
        }
        match value_of_digit(v[i], base) {
            None => {
                return None;
            },
            Some(d) => {
                assert(acc * base <= u64::MAX * 16) by (nonlinear_arith)
                    requires
                        acc <= u64::MAX,
                        0 <= base <= 16,
                ;
                let next: u128 = (acc as u128) * (base as u128) + (d as u128);
                if next > max as u128 {
                    return None;
                }
                acc = next as u64;
            },
        }
        i += 1;
    }
    assert(body.take(i - start) =~= body);
    Some(acc)
}

/// The port number that `s` denotes in decimal.
pub open spec fn port_spec(s: Seq<char>) -> Option<u16> {
    match number(s, 10, 65535) {
        Some(n) => Some(n as u16),
        None => None,
    }
}

/// The port number that `s` denotes in decimal.
pub fn parse_port(s: &str) -> (r: Option<u16>)
    ensures
        r == port_spec(s@),
{
    match parse(s, 10, 65535) {
        Some(n) => Some(n as u16),
        None => None,
    }
}

// ── writing and reading ───────────────────────────────────────────────────────

/// The digits of a number denote it.
pub proof fn lemma_digits_value(n: nat, base: nat)
    requires
        2 <= base <= 16,
    ensures
        digits_value(digits(n, base), base) == Some(n),
        digits(n, base).len() > 0,
    decreases n,
{
    let d = n % base;
    assert(d < base);
    assert(digit_value(digit(d as int), base) == Some(d)) by {
        assert(digit(d as int) as int == if d < 10 {
            48 + d
        } else {
            87 + d
        });
    }
    if n < base {
        assert(digits(n, base).drop_last() =~= seq![]);
        assert(n % base == n) by (nonlinear_arith)
            requires
                n < base,
        ;
        assert(digits_value(seq![], base) == Some(0nat));
        assert(0nat * base == 0) by (nonlinear_arith);
    } else {
        assert(n / base < n) by (nonlinear_arith)
            requires
                n >= base,
                base >= 2,
        ;
        lemma_digits_value(n / base, base);
        assert(digits(n, base).drop_last() =~= digits(n / base, base));
        assert((n / base) * base + n % base == n) by (nonlinear_arith)
            requires
                base >= 2,
        ;
    }
}

/// Every digit of a number in decimal is one of `0` to `9`.
pub proof fn lemma_decimal_digits(n: nat)
    ensures
        forall|i: int|
            0 <= i < dec(n).len() ==> '0' <= #[trigger] dec(n)[i] && dec(n)[i] <= '9',
        dec(n).len() > 0,
    decreases n,
{
    if n >= 10 {
        lemma_decimal_digits(n / 10);
    }
}

/// A number written in decimal is read back.
pub proof fn lemma_decimal_roundtrip(n: nat, max: nat)
    requires
        n <= max,
    ensures
        number(dec(n), 10, max) == Some(n),
{
    lemma_digits_value(n, 10);
    lemma_decimal_digits(n);
}

/// A run of characters with anything but a digit in it denotes no number.
pub proof fn only_digits_are_numbers(s: Seq<char>, base: nat, i: int)
    requires
        0 <= i < s.len(),
        digit_value(s[i], base) is None,
    ensures
        digits_value(s, base) is None,
    decreases s.len(),
{
    if i < s.len() - 1 {
        only_digits_are_numbers(s.drop_last(), base, i);
    }
}

} // verus!
