use unison::number::{parse_index, parse_signed, parse_unsigned};
use unison::render::decimal_string;
use unison::text::{chars_of, join_strings, replace, split_chars, string_of};

#[test]
fn unsigned_numbers_are_digits_with_an_optional_plus() {
    assert_eq!(parse_unsigned("0", 10), Some(0));
    assert_eq!(parse_unsigned("007", 10), Some(7));
    assert_eq!(parse_unsigned("+7", 10), Some(7));
    assert_eq!(parse_unsigned("10", 10), Some(10));
    assert_eq!(parse_unsigned("11", 10), None);
    assert_eq!(parse_unsigned("", 10), None);
    assert_eq!(parse_unsigned("+", 10), None);
    assert_eq!(parse_unsigned("-0", 10), None);
    assert_eq!(parse_unsigned("1a", 10), None);
    assert_eq!(parse_unsigned("++1", 10), None);
    assert_eq!(parse_unsigned("18446744073709551615", u64::MAX as u128), Some(u64::MAX as u128));
    assert_eq!(parse_unsigned("18446744073709551616", u64::MAX as u128), None);
    assert_eq!(
        parse_unsigned("999999999999999999999999999999999999999999999", u64::MAX as u128),
        None
    );
}

#[test]
fn signed_numbers_take_a_sign() {
    assert_eq!(parse_signed("-128", -128, 127), Some(-128));
    assert_eq!(parse_signed("-129", -128, 127), None);
    assert_eq!(parse_signed("127", -128, 127), Some(127));
    assert_eq!(parse_signed("128", -128, 127), None);
    assert_eq!(parse_signed("+5", -128, 127), Some(5));
    assert_eq!(parse_signed("-0", -128, 127), Some(0));
    assert_eq!(parse_signed("-", -128, 127), None);
    assert_eq!(parse_signed("--1", -128, 127), None);
    assert_eq!(parse_signed("", -128, 127), None);
}

#[test]
fn an_index_is_a_number_that_fits_the_machine() {
    assert_eq!(parse_index("0"), Some(0));
    assert_eq!(parse_index("42"), Some(42));
    assert_eq!(parse_index("x"), None);
    assert_eq!(parse_index("340282366920938463463374607431768211456"), None);
}

#[test]
fn numbers_are_written_in_base_ten() {
    assert_eq!(decimal_string(0), "0");
    assert_eq!(decimal_string(7), "7");
    assert_eq!(decimal_string(10), "10");
    assert_eq!(decimal_string(-1), "-1");
    assert_eq!(decimal_string(1234567890), "1234567890");
    assert_eq!(decimal_string(i128::MAX), i128::MAX.to_string());
    assert_eq!(decimal_string(i128::MIN), i128::MIN.to_string());
}

#[test]
fn text_is_split_and_joined() {
    let dot = chars_of(".");
    let parts = split_chars(&chars_of("a.b..c."), &dot);
    assert_eq!(parts, vec!["a", "b", "", "c", ""]);
    assert_eq!(split_chars(&chars_of(""), &dot), vec![""]);
    let dashes = chars_of("--");
    assert_eq!(split_chars(&chars_of("a---b"), &dashes), vec!["a", "-b"]);
    assert_eq!(join_strings(&parts, "/"), "a/b//c/");
    assert_eq!(join_strings(&Vec::new(), "/"), "");
    assert_eq!(replace("a--b-c", "--", "."), "a.b-c");
    assert_eq!(replace("a-b-c", "-", "_"), "a_b_c");
    assert_eq!(string_of(&chars_of("héllo"), 1, 3), "él");
}
