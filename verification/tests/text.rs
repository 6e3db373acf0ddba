use ftx_bot::text::{chars_of, decimal_string, parse_u64_text, split_on_slash, text_contains};

fn chars(s: &str) -> Vec<char> {
    s.chars().collect()
}

#[test]
fn decimal_string_of_zero() {
    assert_eq!(decimal_string(0), "0");
}

#[test]
fn decimal_string_of_timestamp() {
    assert_eq!(decimal_string(1_650_000_000_123), "1650000000123");
    assert_eq!(decimal_string(10), "10");
    assert_eq!(decimal_string(9), "9");
}

#[test]
fn decimal_string_of_u128_max() {
    assert_eq!(decimal_string(u128::MAX), u128::MAX.to_string());
}

#[test]
fn parse_reads_digits() {
    assert_eq!(parse_u64_text("123"), Some(123));
    assert_eq!(parse_u64_text("007"), Some(7));
    assert_eq!(parse_u64_text("+5"), Some(5));
    assert_eq!(parse_u64_text("18446744073709551615"), Some(u64::MAX));
}

#[test]
fn parse_refuses_other_text() {
    assert_eq!(parse_u64_text(""), None);
    assert_eq!(parse_u64_text("+"), None);
    assert_eq!(parse_u64_text("-1"), None);
    assert_eq!(parse_u64_text("12a"), None);
    assert_eq!(parse_u64_text(" 12"), None);
    assert_eq!(parse_u64_text("18446744073709551616"), None);
    assert_eq!(parse_u64_text("99999999999999999999999"), None);
}

#[test]
fn parse_agrees_with_std() {
    for s in ["0", "42", "+42", "-42", "", "+", "4x", "18446744073709551615", "18446744073709551616"] {
        assert_eq!(parse_u64_text(s), s.parse::<u64>().ok(), "on {:?}", s);
    }
}

#[test]
fn parse_reads_back_decimal_text() {
    for n in [0u64, 1, 9, 10, 1_650_000_000_123, u64::MAX] {
        assert_eq!(parse_u64_text(&decimal_string(n as u128)), Some(n));
    }
    assert_eq!(parse_u64_text(&decimal_string(u64::MAX as u128 + 1)), None);
}

#[test]
fn chars_of_keeps_order() {
    assert_eq!(chars_of("aé/b"), vec!['a', 'é', '/', 'b']);
}

#[test]
fn contains_finds_substrings() {
    assert!(text_contains("ETH-PERP/BTC-PERP", "BTC"));
    assert!(text_contains("ETH-PERP/BTC-PERP", "ETH-PERP/BTC-PERP"));
    assert!(text_contains("abc", ""));
    assert!(!text_contains("ab", "abc"));
    assert!(!text_contains("ETH-PERP", "BTC"));
    assert!(!text_contains("", "a"));
}

#[test]
fn split_on_slash_pieces() {
    assert_eq!(split_on_slash("ETH-PERP/BTC-PERP"), vec![chars("ETH-PERP"), chars("BTC-PERP")]);
    assert_eq!(split_on_slash("A/"), vec![chars("A"), chars("")]);
    assert_eq!(split_on_slash(""), vec![chars("")]);
    assert_eq!(split_on_slash("//"), vec![chars(""), chars(""), chars("")]);
    assert_eq!(split_on_slash("ABC"), vec![chars("ABC")]);
}

#[test]
fn split_agrees_with_std() {
    for s in ["A/B", "A/", "", "/", "a/b/c", "xyz"] {
        let expected: Vec<Vec<char>> = s.split('/').map(chars).collect();
        assert_eq!(split_on_slash(s), expected, "on {:?}", s);
    }
}
