use brokeamu::card::{get_008_accesscode, get_008_accesscode_i64};
use brokeamu::numeric::{parse_decimal_i32, parse_hex_i64, push_hex_upper, push_i64_decimal};

#[test]
fn access_code_of_number_is_000_then_decimal() {
    assert_eq!(get_008_accesscode_i64(3819260475912375896), "0003819260475912375896");
    assert_eq!(get_008_accesscode_i64(0), "0000");
    assert_eq!(get_008_accesscode_i64(7), "0007");
    assert_eq!(get_008_accesscode_i64(-42), "000-42");
    assert_eq!(get_008_accesscode_i64(i64::MIN), "000-9223372036854775808");
    assert_eq!(get_008_accesscode_i64(i64::MAX), "0009223372036854775807");
}

#[test]
fn access_code_of_hex_text() {
    assert_eq!(get_008_accesscode("3500bd2ae3724e58"), "0003819260475912375896");
    assert_eq!(get_008_accesscode("3500BD2AE3724E58"), "0003819260475912375896");
    assert_eq!(get_008_accesscode("ff"), "000255");
    assert_eq!(get_008_accesscode("+ff"), "000255");
    assert_eq!(get_008_accesscode("-10"), "000-16");
}

#[test]
fn access_code_of_bad_hex_text_is_that_of_zero() {
    assert_eq!(get_008_accesscode(""), "0000");
    assert_eq!(get_008_accesscode("-"), "0000");
    assert_eq!(get_008_accesscode("+"), "0000");
    assert_eq!(get_008_accesscode("12g4"), "0000");
    assert_eq!(get_008_accesscode(" 12"), "0000");
    // Above i64::MAX: the parse overflows.
    assert_eq!(get_008_accesscode("8000000000000000"), "0000");
    assert_eq!(get_008_accesscode("E004010012345678"), "0000");
    assert_eq!(get_008_accesscode("00000000000000000000001"), "0001");
}

#[test]
fn distinct_ids_give_distinct_codes() {
    let a = get_008_accesscode_i64(1);
    let b = get_008_accesscode_i64(10);
    let c = get_008_accesscode_i64(-1);
    assert_ne!(a, b);
    assert_ne!(a, c);
    assert_ne!(b, c);
}

#[test]
fn hex_parse_matches_std() {
    for s in ["0", "7fffffffffffffff", "-8000000000000000", "-8000000000000001", "aBcD", "+", "", "1_0", "-0"] {
        assert_eq!(parse_hex_i64(s), i64::from_str_radix(s, 16).ok(), "{s}");
    }
}

#[test]
fn decimal_parse_matches_std() {
    for s in ["0", "2147483647", "2147483648", "-2147483648", "-2147483649", "+12", "12a", "", "-", "0x10", "007"] {
        assert_eq!(parse_decimal_i32(s), s.parse::<i32>().ok(), "{s}");
    }
}

#[test]
fn decimal_rendering_matches_std() {
    for v in [0i64, 1, 9, 10, 99, 100, -1, -10, 123456789, i64::MIN, i64::MAX] {
        let mut s = String::from("x");
        push_i64_decimal(&mut s, v);
        assert_eq!(s, format!("x{v}"));
    }
}

#[test]
fn hex_rendering_is_upper_case_two_digits_per_byte() {
    let mut s = String::new();
    push_hex_upper(&mut s, &[0x00, 0x0a, 0xbc, 0xff]);
    assert_eq!(s, "000ABCFF");
}

#[test]
fn idm_text_case_and_padding_do_not_matter() {
    for n in [0i64, 1, 0xab, 0x3500bd2ae3724e58, i64::MAX] {
        let code = get_008_accesscode_i64(n);
        assert_eq!(get_008_accesscode(&format!("{:016X}", n)), code);
        assert_eq!(get_008_accesscode(&format!("{:x}", n)), code);
        assert_eq!(get_008_accesscode(&format!("{:X}", n)), code);
        assert_eq!(get_008_accesscode(&format!("{:032x}", n)), code);
    }
}

#[test]
fn decimal_text_parses_back() {
    for v in [0i64, 5, -5, 1234567890123, i64::MIN, i64::MAX] {
        let mut s = String::new();
        push_i64_decimal(&mut s, v);
        assert_eq!(s.parse::<i64>().unwrap(), v);
    }
}
