use rails_cookies_monster::text::{concat_three, decimal_string, split_fields, starts_with};

#[test]
fn decimals_have_no_leading_zeros() {
    assert_eq!(decimal_string(0), "0");
    assert_eq!(decimal_string(7), "7");
    assert_eq!(decimal_string(3000), "3000");
    assert_eq!(decimal_string(u64::MAX), "18446744073709551615");
}

#[test]
fn fields_keep_empty_pieces() {
    assert_eq!(split_fields("a--b", '-'), vec!["a", "", "b"]);
    assert_eq!(split_fields("", '.'), vec![""]);
    assert_eq!(split_fields(".", '.'), vec!["", ""]);
    assert_eq!(split_fields("7.0.8", '.'), vec!["7", "0", "8"]);
}

#[test]
fn prefixes_are_recognised() {
    assert!(starts_with("rails-cookies-everywhere:x", "rails-cookies-everywhere:"));
    assert!(starts_with("abc", ""));
    assert!(!starts_with("ab", "abc"));
    assert!(!starts_with("xbc", "abc"));
}

#[test]
fn three_pieces_are_joined() {
    assert_eq!(concat_three("a", "", "bc"), "abc");
}
