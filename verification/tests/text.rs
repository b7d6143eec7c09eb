use ironrdp_agent::ipc::KeyFilter;
use ironrdp_agent::text::{
    contains, contains_ignoring_case, replace, right_align, same_text, starts_with_ignoring_case,
    to_decimal, NumberError,
};

#[test]
fn texts_are_searched() {
    assert!(contains("hello", "ell"));
    assert!(contains("hello", ""));
    assert!(contains("", ""));
    assert!(!contains("", "a"));
    assert!(!contains("hello", "elo"));
    assert!(contains("aab", "ab"));
    assert!(contains("ü🚀", "🚀"));
}

#[test]
fn replacing_goes_from_left_to_right() {
    for (text, needle, marker) in [
        ("aaaa", "aa", "b"),
        ("aaaaa", "aa", "b"),
        ("abcabc", "abc", ""),
        ("abc", "x", "y"),
        ("aXbX", "X", "XX"),
        ("ü🚀ü", "ü", "u"),
        ("", "a", "b"),
        ("ababab", "abab", "-"),
    ] {
        assert_eq!(replace(text, needle, marker), text.replace(needle, marker));
    }
}

#[test]
fn case_is_ignored_in_ascii_only() {
    assert!(contains_ignoring_case("ClearTextPassword", "TEXTPASS"));
    assert!(!contains_ignoring_case("ClearTextPassword", "passwort"));
    assert!(!contains_ignoring_case("Ä", "ä"));
    assert!(starts_with_ignoring_case("Username", "uSER"));
    assert!(!starts_with_ignoring_case("Username", "name"));
    assert!(!starts_with_ignoring_case("Us", "user"));
    assert!(starts_with_ignoring_case("", ""));
}

#[test]
fn filters_ignore_case() {
    assert!(KeyFilter::Substring("DRESS".to_owned()).matches("full address"));
    assert!(KeyFilter::Prefix("FULL".to_owned()).matches("full address"));
    assert!(!KeyFilter::Prefix("address".to_owned()).matches("full address"));
}

#[test]
fn numbers_are_written() {
    for number in [0_i64, 9, 10, -1, -10, 1234567890, i64::MAX, i64::MIN] {
        assert_eq!(to_decimal(number), number.to_string());
    }
}

#[test]
fn short_texts_are_padded() {
    assert_eq!(right_align("INFO", 5), " INFO");
    assert_eq!(right_align("ERROR", 5), "ERROR");
    assert_eq!(right_align("longer", 5), "longer");
    assert_eq!(right_align("", 2), "  ");
}

#[test]
fn texts_are_compared() {
    assert!(same_text("a", "a"));
    assert!(!same_text("a", "A"));
    assert!(!same_text("a", "ab"));
}

#[test]
fn number_errors_are_described() {
    assert_eq!(NumberError::Empty.describe(), "cannot parse integer from empty string");
    assert_eq!(NumberError::InvalidDigit.describe(), "invalid digit found in string");
    assert_eq!(NumberError::PosOverflow.describe(), "number too large to fit in target type");
}
