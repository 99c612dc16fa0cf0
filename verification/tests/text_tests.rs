use mm::sorting::{sort_strings, str_lt};
use mm::text::{contains_char, decimal_string, pad_left_string, str_eq, trim};

#[test]
fn trim_removes_unicode_white_space() {
    assert_eq!(trim("  a b\t\n"), "a b");
    assert_eq!(trim("\u{3000}\u{2028}x\u{a0}"), "x");
    assert_eq!(trim(" \n "), "");
    assert_eq!(trim("x"), "x");
}

#[test]
fn decimal_strings() {
    assert_eq!(decimal_string(0), "0");
    assert_eq!(decimal_string(7), "7");
    assert_eq!(decimal_string(3000), "3000");
    assert_eq!(decimal_string(u64::MAX), "18446744073709551615");
}

#[test]
fn padding() {
    assert_eq!(pad_left_string("12", 5), "   12");
    assert_eq!(pad_left_string("123456", 5), "123456");
}

#[test]
fn string_helpers() {
    assert!(str_eq("a", "a"));
    assert!(!str_eq("a", "b"));
    assert!(contains_char("a/b", '/'));
    assert!(!contains_char("ab", '/'));
}

#[test]
fn order_of_strings() {
    assert!(str_lt("a", "b"));
    assert!(str_lt("B", "a"));
    assert!(str_lt("ab", "abc"));
    assert!(!str_lt("abc", "ab"));
    assert!(!str_lt("a", "a"));
    assert!(str_lt("z", "é"));
}

#[test]
fn sort_keeps_everything_in_order() {
    let v: Vec<String> = ["b", "a", "é", "B", "a", ""].iter().map(|s| s.to_string()).collect();
    let mut expected = v.clone();
    expected.sort();
    assert_eq!(sort_strings(v), expected);
}
