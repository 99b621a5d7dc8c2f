use slurmboard::text::{
    parse_amount, parse_u64, split_str, str_eq, str_le, trim_str, u64_to_string,
};

#[test]
fn unsigned_numbers_parse() {
    assert_eq!(parse_u64("0"), Some(0));
    assert_eq!(parse_u64("15948"), Some(15948));
    assert_eq!(parse_u64("+7"), Some(7));
    assert_eq!(parse_u64("18446744073709551615"), Some(u64::MAX));
    assert_eq!(parse_u64("18446744073709551616"), None);
    assert_eq!(parse_u64(""), None);
    assert_eq!(parse_u64("+"), None);
    assert_eq!(parse_u64("-1"), None);
    assert_eq!(parse_u64("1 2"), None);
}

#[test]
fn amounts_are_bounded() {
    assert_eq!(parse_amount("1000000000000000"), Some(1_000_000_000_000_000));
    assert_eq!(parse_amount("1000000000000001"), None);
}

#[test]
fn numbers_render_in_decimal() {
    assert_eq!(u64_to_string(0), "0");
    assert_eq!(u64_to_string(7), "7");
    assert_eq!(u64_to_string(1048576), "1048576");
    assert_eq!(u64_to_string(u64::MAX), "18446744073709551615");
}

#[test]
fn splitting_keeps_empty_fields() {
    assert_eq!(split_str("a|b||c", '|'), vec!["a", "b", "", "c"]);
    assert_eq!(split_str("", '|'), vec![""]);
    assert_eq!(split_str("|", '|'), vec!["", ""]);
}

#[test]
fn trimming_strips_ascii_whitespace() {
    assert_eq!(trim_str("  a b \t"), "a b");
    assert_eq!(trim_str("\r\n"), "");
    assert_eq!(trim_str("x"), "x");
}

#[test]
fn string_comparisons() {
    assert!(str_eq("abc", "abc"));
    assert!(!str_eq("abc", "abd"));
    assert!(str_le("abc", "abd"));
    assert!(str_le("ab", "abc"));
    assert!(!str_le("b", "abc"));
    assert!(str_le("", ""));
}
