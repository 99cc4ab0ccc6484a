//! Card access codes. A card reports its IDm, a 64-bit identifier written as
//! hexadecimal text; the games want an access code. The "0008" scheme that
//! most data services use writes `000` followed by the IDm's value in decimal.

use vstd::prelude::*;
use crate::numeric::{digit_value, digits_value, digit_char, int_decimal, nat_decimal, parse_hex_i64, parse_i64_radix, push_i64_decimal, signed_value};
use crate::text::push_char;

verus! {

/// The 0008 access code of a card whose IDm has the given value.
pub open spec fn access_code_008(idm: int) -> Seq<char> {
    seq!['0', '0', '0'] + int_decimal(idm)
}

/// The value that a hexadecimal IDm text stands for: what
/// `i64::from_str_radix(text, 16)` gives, and 0 where that fails.
pub open spec fn idm_value(idm_text: Seq<char>) -> i64 {
    match parse_i64_radix(idm_text, 16) {
        Some(v) => v,
        None => 0,
    }
}

/// The 0008 access code of an IDm given as a number: `000` followed by the
/// number in decimal.
pub fn get_008_accesscode_i64(idm: i64) -> (code: String)
    ensures
        code@ == access_code_008(idm as int),
{
    let mut code = String::new();
    push_char(&mut code, '0');
    push_char(&mut code, '0');
    push_char(&mut code, '0');
    push_i64_decimal(&mut code, idm);
    assert(code@ =~= access_code_008(idm as int));
    code
}

/// The 0008 access code of an IDm given as hexadecimal text. Text that is
/// not a hexadecimal `i64` counts as the IDm 0.
pub fn get_008_accesscode(card_idm_str: &str) -> (code: String)
    ensures
        code@ == access_code_008(idm_value(card_idm_str@) as int),
{
    let idm: i64 = match parse_hex_i64(card_idm_str) {
        Some(v) => v,
        None => 0,
    };
    get_008_accesscode_i64(idm)
}

proof fn lemma_nat_decimal_shape(n: nat)
    ensures
        nat_decimal(n).len() >= 1,
        n >= 10 ==> nat_decimal(n).len() >= 2,
        forall|i: int| 0 <= i < nat_decimal(n).len() ==> '0' <= #[trigger] nat_decimal(n)[i] <= '9',
    decreases n,
{
    if n >= 10 {
        lemma_nat_decimal_shape(n / 10);
    }
}

proof fn lemma_nat_decimal_injective(a: nat, b: nat)
    requires
        nat_decimal(a) == nat_decimal(b),
    ensures
        a == b,
    decreases a,
{
    lemma_nat_decimal_shape(a);
    lemma_nat_decimal_shape(b);
    if a < 10 && b < 10 {
        assert(nat_decimal(a)[0] == digit_char(a));
        assert(nat_decimal(b)[0] == digit_char(b));
    } else if a >= 10 && b >= 10 {
        let da = nat_decimal(a);
        let db = nat_decimal(b);
        assert(da.last() == digit_char(a % 10));
        assert(db.last() == digit_char(b % 10));
        assert(da.drop_last() =~= nat_decimal(a / 10));
        assert(db.drop_last() =~= nat_decimal(b / 10));
        lemma_nat_decimal_injective(a / 10, b / 10);
    } else {
        assert(nat_decimal(a).len() != nat_decimal(b).len());
    }
}

/// Different IDm values never share a 0008 access code.
pub proof fn lemma_access_code_008_injective(a: int, b: int)
    requires
        access_code_008(a) == access_code_008(b),
    ensures
        a == b,
{
    let da = int_decimal(a);
    let db = int_decimal(b);
    assert(da =~= access_code_008(a).skip(3));
    assert(db =~= access_code_008(b).skip(3));
    let ma: nat = if a < 0 { (-a) as nat } else { a as nat };
    let mb: nat = if b < 0 { (-b) as nat } else { b as nat };
    lemma_nat_decimal_shape(ma);
    lemma_nat_decimal_shape(mb);
    if a < 0 && b < 0 {
        assert(nat_decimal(ma) =~= da.drop_first());
        assert(nat_decimal(mb) =~= db.drop_first());
        lemma_nat_decimal_injective(ma, mb);
    } else if a >= 0 && b >= 0 {
        lemma_nat_decimal_injective(ma, mb);
    } else if a < 0 {
        assert(da[0] == '-');
        assert(db[0] == nat_decimal(mb)[0]);
    } else {
        assert(db[0] == '-');
        assert(da[0] == nat_decimal(ma)[0]);
    }
}

/// A hexadecimal digit below 16, in upper or lower case.
pub open spec fn hex_digit(d: nat, upper: bool) -> char {
    if d < 10 {
        ('0' as int + d) as char
    } else if upper {
        ('A' as int + d - 10) as char
    } else {
        ('a' as int + d - 10) as char
    }
}

/// A natural number in hexadecimal without leading zeros, as `{:X}` (upper
/// case) or `{:x}` (lower case) writes it.
pub open spec fn nat_hex(n: nat, upper: bool) -> Seq<char>
    decreases n,
{
    if n < 16 {
        seq![hex_digit(n, upper)]
    } else {
        nat_hex(n / 16, upper).push(hex_digit(n % 16, upper))
    }
}

/// A numeral padded with leading zeros to at least `width` characters, as
/// `{:0width$X}` pads it.
pub open spec fn zero_padded(s: Seq<char>, width: nat) -> Seq<char> {
    if s.len() >= width {
        s
    } else {
        Seq::new((width - s.len()) as nat, |i: int| '0') + s
    }
}

proof fn lemma_nat_hex(n: nat, upper: bool)
    ensures
        nat_hex(n, upper).len() >= 1,
        forall|i: int| 0 <= i < nat_hex(n, upper).len() ==> #[trigger] nat_hex(n, upper)[i] != '+'
            && nat_hex(n, upper)[i] != '-',
        digits_value(nat_hex(n, upper), 16) == Some(n),
    decreases n,
{
    if n >= 16 {
        lemma_nat_hex(n / 16, upper);
        let h = nat_hex(n, upper);
        assert(h.drop_last() =~= nat_hex(n / 16, upper));
        assert(digit_value(hex_digit(n % 16, upper), 16) == Some(n % 16));
        assert(h.last() == hex_digit(n % 16, upper));
        assert((n / 16) * 16 + n % 16 == n);
    } else {
        let h = nat_hex(n, upper);
        assert(digit_value(hex_digit(n, upper), 16) == Some(n));
        assert(h.drop_last() =~= Seq::<char>::empty());
        assert(digits_value(Seq::<char>::empty(), 16) == Some(0nat));
    }
}

proof fn lemma_leading_zeros(z: Seq<char>, s: Seq<char>)
    requires
        forall|i: int| 0 <= i < z.len() ==> #[trigger] z[i] == '0',
    ensures
        digits_value(z + s, 16) == digits_value(s, 16),
    decreases z.len() + s.len(),
{
    if s.len() == 0 {
        assert(z + s =~= z);
        if z.len() > 0 {
            assert(z.drop_last() + s =~= z.drop_last());
            lemma_leading_zeros(z.drop_last(), s);
            assert(z.last() == '0');
        }
    } else {
        assert((z + s).drop_last() =~= z + s.drop_last());
        assert((z + s).last() == s.last());
        lemma_leading_zeros(z, s.drop_last());
    }
}

/// Neither the case of its letters nor leading zeros change the value of a
/// hexadecimal IDm text: `{:016X}` and `{:x}` of a non-negative IDm both
/// give that IDm, and so its 0008 access code.
pub proof fn lemma_idm_text_form(n: i64, upper: bool, width: nat)
    requires
        n >= 0,
    ensures
        idm_value(zero_padded(nat_hex(n as nat, upper), width)) == n,
        access_code_008(idm_value(zero_padded(nat_hex(n as nat, upper), width)) as int) == access_code_008(
            n as int,
        ),
{
    let h = nat_hex(n as nat, upper);
    lemma_nat_hex(n as nat, upper);
    let p = zero_padded(h, width);
    if h.len() < width {
        let z = Seq::new((width - h.len()) as nat, |i: int| '0');
        lemma_leading_zeros(z, h);
        assert(p[0] == '0');
    } else {
        assert(p[0] == h[0]);
    }
    assert(digits_value(p, 16) == Some(n as nat));
    assert(signed_value(p, 16) == Some(n as int));
}

proof fn lemma_nat_decimal_value(n: nat)
    ensures
        digits_value(nat_decimal(n), 10) == Some(n),
    decreases n,
{
    let d = nat_decimal(n);
    if n >= 10 {
        lemma_nat_decimal_value(n / 10);
        assert(d.drop_last() =~= nat_decimal(n / 10));
        assert(digit_value(digit_char(n % 10), 10) == Some(n % 10));
        assert(d.last() == digit_char(n % 10));
        assert((n / 10) * 10 + n % 10 == n);
    } else {
        assert(digit_value(digit_char(n), 10) == Some(n));
        assert(d.drop_last() =~= Seq::<char>::empty());
        assert(digits_value(Seq::<char>::empty(), 10) == Some(0nat));
    }
}

/// The decimal text of an `i64`, as `to_string` writes it and the access
/// code carries it, parses back (`str::parse::<i64>`) to that number.
pub proof fn lemma_int_decimal_parses_back(i: i64)
    ensures
        parse_i64_radix(int_decimal(i as int), 10) == Some(i),
{
    let m: nat = if i < 0 { (-i) as nat } else { i as nat };
    lemma_nat_decimal_value(m);
    lemma_nat_decimal_shape(m);
    let t = int_decimal(i as int);
    if i < 0 {
        assert(t.drop_first() =~= nat_decimal(m));
        assert(t[0] == '-');
        assert(signed_value(t, 10) == Some(i as int));
    } else {
        assert(t[0] == nat_decimal(m)[0]);
        assert(signed_value(t, 10) == Some(i as int));
    }
}

} // verus!
