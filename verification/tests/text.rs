use memo::text::{decimal, trim, trim_end};

#[test]
fn trim_removes_unicode_white_space_at_both_ends() {
    assert_eq!(trim("  a b \t\n"), "a b");
    assert_eq!(trim("\u{3000}x\u{00a0}"), "x");
    assert_eq!(trim(" \r\n "), "");
    assert_eq!(trim("inner  space"), "inner  space");
}

#[test]
fn trim_end_keeps_leading_space() {
    assert_eq!(trim_end("  out\n\n"), "  out");
    assert_eq!(trim_end(""), "");
}

#[test]
fn decimal_writes_numerals() {
    assert_eq!(decimal(0), "0");
    assert_eq!(decimal(7), "7");
    assert_eq!(decimal(1200), "1200");
    assert_eq!(decimal(u128::MAX), u128::MAX.to_string());
}
