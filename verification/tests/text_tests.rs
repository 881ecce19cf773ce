use std::io::BufRead;
use recap::text::{
    chars_of, decimal_string, is_blank, join, lines, parse_u64, parse_usize, same_text, zero_pad,
};

#[test]
fn decimal_string_renders_digits() {
    assert_eq!(decimal_string(0), "0");
    assert_eq!(decimal_string(7), "7");
    assert_eq!(decimal_string(1234567890), "1234567890");
    assert_eq!(decimal_string(u64::MAX), "18446744073709551615");
}

#[test]
fn zero_pad_pads_to_width() {
    assert_eq!(zero_pad(7, 3), "007");
    assert_eq!(zero_pad(7, 4), "0007");
    assert_eq!(zero_pad(0, 4), "0000");
    assert_eq!(zero_pad(123, 3), "123");
    assert_eq!(zero_pad(12345, 4), "12345");
    assert_eq!(zero_pad(5, 0), "5");
    for n in [0u64, 1, 9, 10, 99, 100, 999, 1000, 65535, u64::MAX] {
        assert_eq!(zero_pad(n, 4), format!("{:04}", n));
        assert_eq!(zero_pad(n, 3), format!("{:03}", n));
    }
}

#[test]
fn parse_u64_follows_str_parse() {
    let cases = [
        "", "0", "42", "+42", "+", "-1", "-0", "0012", "1a", " 1", "1 ", "++1",
        "18446744073709551615", "18446744073709551616", "99999999999999999999999", "٣",
    ];
    for c in cases {
        assert_eq!(parse_u64(c), c.parse::<u64>().ok(), "case {:?}", c);
    }
    assert_eq!(parse_u64("42"), Some(42));
    assert_eq!(parse_u64("+42"), Some(42));
    assert_eq!(parse_u64("18446744073709551616"), None);
}

#[test]
fn parse_usize_follows_str_parse() {
    let cases = ["", "10", "+3", "x", "-3", "18446744073709551615", "18446744073709551616"];
    for c in cases {
        assert_eq!(parse_usize(c), c.parse::<usize>().ok(), "case {:?}", c);
    }
}

#[test]
fn zero_padded_ids_parse_back() {
    for n in [0u64, 3, 42, 999, 1000, 123456, u64::MAX] {
        for w in [0usize, 3, 4, 25] {
            assert_eq!(parse_u64(&zero_pad(n, w)), Some(n));
        }
    }
}

#[test]
fn is_blank_matches_trim() {
    let cases = ["", " ", "\t\r\n", "\u{3000}\u{a0}", " a ", "x", "\u{200b}", "\u{85}"];
    for c in cases {
        assert_eq!(is_blank(c), c.trim().is_empty(), "case {:?}", c);
    }
}

#[test]
fn lines_follow_bufread_lines() {
    let cases = ["", "a", "a\n", "a\nb", "a\r\nb\r\n", "a\r", "\n\n", "a\n\nb\n", "x\r\r\n", "é\nü"];
    for c in cases {
        let expected: Vec<String> = std::io::Cursor::new(c.as_bytes()).lines().map(|l| l.unwrap()).collect();
        assert_eq!(lines(c), expected, "case {:?}", c);
    }
}

#[test]
fn join_puts_separator_between_words() {
    let words = vec!["ls".to_string(), "-la".to_string(), "/tmp".to_string()];
    assert_eq!(join(&words, " "), "ls -la /tmp");
    assert_eq!(join(&[], " "), "");
    assert_eq!(join(&["one".to_string()], ", "), "one");
}

#[test]
fn chars_and_equality() {
    assert_eq!(chars_of("aé"), vec!['a', 'é']);
    assert!(same_text("recap", "recap"));
    assert!(!same_text("recap", "recaps"));
}
