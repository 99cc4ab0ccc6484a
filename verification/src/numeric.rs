//! Integer text: the signed integer syntax that Rust's `from_str_radix` and
//! `str::parse` accept, decimal rendering as `i64::to_string` writes it, and
//! upper-case hexadecimal rendering of bytes.

use vstd::prelude::*;
use crate::text::push_char;

verus! {

/// The value of one digit in the given radix (2 to 36), as `char::to_digit`.
pub open spec fn digit_value(c: char, radix: nat) -> Option<nat> {
    let v: int = if '0' <= c && c <= '9' {
        c as int - '0' as int
    } else if 'a' <= c && c <= 'z' {
        c as int - 'a' as int + 10
    } else if 'A' <= c && c <= 'Z' {
        c as int - 'A' as int + 10
    } else {
        radix as int
    };
    if 0 <= v < radix { Some(v as nat) } else { None }
}

/// The value of a run of digits, most significant first; `None` if one of
/// them is not a digit of the radix. The empty run has value 0.
pub open spec fn digits_value(s: Seq<char>, radix: nat) -> Option<nat>
    decreases s.len(),
{
    if s.len() == 0 {
        Some(0)
    } else {
        match (digits_value(s.drop_last(), radix), digit_value(s.last(), radix)) {
            (Some(p), Some(d)) => Some(p * radix + d),
            _ => None,
        }
    }
}

/// The integer that a signed numeral denotes: an optional `+` or `-`, then
/// at least one digit.
pub open spec fn signed_value(s: Seq<char>, radix: nat) -> Option<int> {
    if s.len() == 0 {
        None
    } else if s[0] == '+' || s[0] == '-' {
        if s.len() == 1 {
            None
        } else {
            match digits_value(s.drop_first(), radix) {
                Some(v) => Some(if s[0] == '-' { -v } else { v as int }),
                None => None,
            }
        }
    } else {
        match digits_value(s, radix) {
            Some(v) => Some(v as int),
            None => None,
        }
    }
}

/// What `i64::from_str_radix(s, radix)` returns, with `None` for an error.
pub open spec fn parse_i64_radix(s: Seq<char>, radix: nat) -> Option<i64> {
    match signed_value(s, radix) {
        Some(v) => if i64::MIN <= v <= i64::MAX { Some(v as i64) } else { None },
        None => None,
    }
}

/// What `s.parse::<i32>()` returns, with `None` for an error.
pub open spec fn parse_i32_decimal(s: Seq<char>) -> Option<i32> {
    match signed_value(s, 10) {
        Some(v) => if i32::MIN <= v <= i32::MAX { Some(v as i32) } else { None },
        None => None,
    }
}

/// The character of a digit below 16; letters in upper case.
pub open spec fn digit_char(d: nat) -> char {
    if d < 10 {
        ('0' as int + d) as char
    } else {
        ('A' as int + d - 10) as char
    }
}

/// The decimal numeral of a natural number, without leading zeros.
pub open spec fn nat_decimal(n: nat) -> Seq<char>
    decreases n,
{
    if n < 10 {
        seq![digit_char(n)]
    } else {
        nat_decimal(n / 10).push(digit_char(n % 10))
    }
}

/// The decimal numeral of an integer, with `-` before a negative one.
pub open spec fn int_decimal(i: int) -> Seq<char> {
    if i < 0 {
        seq!['-'] + nat_decimal((-i) as nat)
    } else {
        nat_decimal(i as nat)
    }
}

/// Two upper-case hexadecimal digits per byte, most significant first.
pub open spec fn hex_upper(bytes: Seq<u8>) -> Seq<char>
    decreases bytes.len(),
{
    if bytes.len() == 0 {
        seq![]
    } else {
        hex_upper(bytes.drop_last()) + seq![
            digit_char((bytes.last() / 16) as nat),
            digit_char((bytes.last() % 16) as nat),
        ]
    }
}

/// The unsigned big-endian value of a byte string.
pub open spec fn be_value(bytes: Seq<u8>) -> nat
    decreases bytes.len(),
{
    if bytes.len() == 0 {
        0
    } else {
        be_value(bytes.drop_last()) * 256 + (bytes.last() as nat)
    }
}

/// A prefix of a well-formed run of digits is well formed and has a value
/// no larger than the whole run.
proof fn lemma_digits_prefix(s: Seq<char>, k: int, radix: nat)
    requires
        0 <= k <= s.len(),
        radix >= 1,
        digits_value(s, radix) is Some,
    ensures
        digits_value(s.take(k), radix) is Some,
        digits_value(s.take(k), radix).unwrap() <= digits_value(s, radix).unwrap(),
    decreases s.len(),
{
    if k == s.len() {
        assert(s.take(k) =~= s);
    } else {
        let p = digits_value(s.drop_last(), radix).unwrap();
        let d = digit_value(s.last(), radix).unwrap();
        assert(p * radix + d >= p) by (nonlinear_arith)
            requires
                radix >= 1,
        ;
        lemma_digits_prefix(s.drop_last(), k, radix);
        assert(s.drop_last().take(k) =~= s.take(k));
    }
}

/// One more digit extends the value of a run.
proof fn lemma_digits_step(s: Seq<char>, i: int, radix: nat)
    requires
        0 <= i < s.len(),
    ensures
        digits_value(s.take(i + 1), radix) == match (
            digits_value(s.take(i), radix),
            digit_value(s[i], radix),
        ) {
            (Some(p), Some(d)) => Some(p * radix + d),
            _ => None,
        },
{
    assert(s.take(i + 1).drop_last() =~= s.take(i));
}

/// The value of a signed numeral in radix 10 or 16 when it lies within
/// `[-2^63, 2^63]`.
spec fn bounded_signed_value(s: Seq<char>, radix: nat) -> Option<i128> {
    match signed_value(s, radix) {
        Some(v) => if -0x8000_0000_0000_0000 <= v <= 0x8000_0000_0000_0000 {
            Some(v as i128)
        } else {
            None
        },
        None => None,
    }
}

fn parse_signed(s: &str, radix: u32) -> (r: Option<i128>)
    requires
        radix == 10 || radix == 16,
    ensures
        r == bounded_signed_value(s@, radix as nat),
{
    let n: usize = s.unicode_len();
    if n == 0 {
        return None;
    }
    let first = s.get_char(0);
    let negative: bool = first == '-';
    let start: usize = if first == '+' || first == '-' { 1 } else { 0 };
    if start == 1 && n == 1 {
        return None;
    }
    let ghost digits: Seq<char> = s@.subrange(start as int, n as int);
    assert(start == 1 ==> digits =~= s@.drop_first());
    assert(start == 0 ==> digits =~= s@);
    let limit: u128 = 0x8000_0000_0000_0000;
    let mut acc: u128 = 0;
    let mut i: usize = start;
    assert(digits.take(0) =~= Seq::<char>::empty());
    while i < n
        invariant
            n == s@.len(),
            start <= i <= n,
            start <= 1,
            digits == s@.subrange(start as int, n as int),
            radix == 10 || radix == 16,
            n > 0,
            negative == (s@[0] == '-'),
            start == 1 ==> digits == s@.drop_first() && n > 1 && (s@[0] == '+' || s@[0] == '-'),
            start == 0 ==> digits == s@ && s@[0] != '+' && s@[0] != '-',
            acc <= limit,
            limit == 0x8000_0000_0000_0000u128,
            digits_value(digits.take(i - start), radix as nat) == Some(acc as nat),
        decreases n - i,
    {
        let c = s.get_char(i);
        assert(c == digits[i - start]);
        let d: u32 = if '0' <= c && c <= '9' {
            (c as u32) - ('0' as u32)
        } else if 'a' <= c && c <= 'z' {
            (c as u32) - ('a' as u32) + 10
        } else if 'A' <= c && c <= 'Z' {
            (c as u32) - ('A' as u32) + 10
        } else {
            radix
        };
        proof {
            lemma_digits_step(digits, i - start, radix as nat);
        }
        if d >= radix {
            proof {
                assert(digit_value(c, radix as nat) is None);
                if digits_value(digits, radix as nat) is Some {
                    lemma_digits_prefix(digits, i - start + 1, radix as nat);
                }
                assert(digits_value(digits, radix as nat) is None);
                assert(signed_value(s@, radix as nat) is None);
            }
            return None;
        }
        assert(digit_value(c, radix as nat) == Some(d as nat));
        acc = acc * (radix as u128) + (d as u128);
        i = i + 1;
        assert(digits_value(digits.take(i - start), radix as nat) == Some(acc as nat));
        if acc > limit {
            proof {
                if digits_value(digits, radix as nat) is Some {
                    lemma_digits_prefix(digits, i - start, radix as nat);
                    assert(digits_value(digits, radix as nat).unwrap() > limit);
                }
                assert(bounded_signed_value(s@, radix as nat) is None);
            }
            return None;
        }
    }
    assert(digits.take(n - start) =~= digits);
    if negative {
        Some(-(acc as i128))
    } else {
        Some(acc as i128)
    }
}

/// `i64::from_str_radix(s, 16)`, with `None` for an error.
pub fn parse_hex_i64(s: &str) -> (r: Option<i64>)
    ensures
        r == parse_i64_radix(s@, 16),
{
    match parse_signed(s, 16) {
        Some(v) => if v <= 0x7fff_ffff_ffff_ffff { Some(v as i64) } else { None },
        None => None,
    }
}

/// `s.parse::<i32>()`, with `None` for an error.
pub fn parse_decimal_i32(s: &str) -> (r: Option<i32>)
    ensures
        r == parse_i32_decimal(s@),
{
    match parse_signed(s, 10) {
        Some(v) => if -0x8000_0000 <= v && v <= 0x7fff_ffff { Some(v as i32) } else { None },
        None => None,
    }
}

fn digit_to_char(d: u8) -> (c: char)
    requires
        d < 16,
    ensures
        c == digit_char(d as nat),
{
    if d < 10 {
        (48u8 + d) as char
    } else {
        (55u8 + d) as char
    }
}

/// Appends the decimal numeral of `n`.
fn push_decimal(out: &mut String, n: u64)
    ensures
        final(out)@ == old(out)@ + nat_decimal(n as nat),
    decreases n,
{
    if n >= 10 {
        push_decimal(out, n / 10);
    }
    let d: u8 = (n % 10) as u8;
    push_char(out, digit_to_char(d));
    assert(old(out)@ + nat_decimal(n as nat) =~= final(out)@) by {
        if n >= 10 {
            assert(nat_decimal(n as nat) == nat_decimal((n / 10) as nat).push(digit_char((n % 10) as nat)));
        }
    }
}

/// Appends the decimal numeral of `i`, as `i64::to_string` writes it.
pub fn push_i64_decimal(out: &mut String, i: i64)
    ensures
        final(out)@ == old(out)@ + int_decimal(i as int),
{
    if i < 0 {
        push_char(out, '-');
        let magnitude: u64 = (-(i as i128)) as u64;
        push_decimal(out, magnitude);
        assert(final(out)@ =~= old(out)@ + int_decimal(i as int));
    } else {
        push_decimal(out, i as u64);
    }
}

/// Appends two upper-case hexadecimal digits per byte.
pub fn push_hex_upper(out: &mut String, bytes: &[u8])
    ensures
        final(out)@ == old(out)@ + hex_upper(bytes@),
{
    let ghost start: Seq<char> = out@;
    let mut i: usize = 0;
    assert(bytes@.take(0) =~= Seq::<u8>::empty());
    while i < bytes.len()
        invariant
            i <= bytes@.len(),
            out@ == start + hex_upper(bytes@.take(i as int)),
        decreases bytes.len() - i,
    {
        let b = bytes[i];
        push_char(out, digit_to_char(b / 16));
        push_char(out, digit_to_char(b % 16));
        assert(bytes@.take(i + 1).drop_last() =~= bytes@.take(i as int));
        i = i + 1;
        assert(out@ =~= start + hex_upper(bytes@.take(i as int)));
    }
    assert(bytes@.take(i as int) =~= bytes@);
}

} // verus!
