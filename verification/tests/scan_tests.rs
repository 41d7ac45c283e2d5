use curl_rs::decimal::{parse_bounded, push_decimal, push_decimal_text};
use curl_rs::scan::{bytes_eq, locate, locate_byte, locate_last_byte, matches_at};
use curl_rs::text::str_slice;

#[test]
fn parse_bounded_reads_digits() {
    assert_eq!(parse_bounded(b"0", 10), Some(0));
    assert_eq!(parse_bounded(b"10", 10), Some(10));
    assert_eq!(parse_bounded(b"11", 10), None);
    assert_eq!(parse_bounded(b"007", 10), Some(7));
    assert_eq!(parse_bounded(b"", 10), None);
    assert_eq!(parse_bounded(b"1a", 100), None);
    assert_eq!(parse_bounded(b"-1", 100), None);
    assert_eq!(parse_bounded(b" 1", 100), None);
    assert_eq!(parse_bounded(b"18446744073709551615", u64::MAX), Some(u64::MAX));
    assert_eq!(parse_bounded(b"18446744073709551616", u64::MAX), None);
    assert_eq!(parse_bounded(b"99999999999999999999", u64::MAX), None);
    assert_eq!(parse_bounded(b"5", 0), None);
    assert_eq!(parse_bounded(b"0", 0), Some(0));
}

#[test]
fn push_decimal_writes_the_shortest_numeral() {
    for (n, expected) in [(0usize, "0"), (7, "7"), (10, "10"), (99, "99"), (100, "100"), (65535, "65535")] {
        let mut out = b"n=".to_vec();
        push_decimal(&mut out, n);
        assert_eq!(out, format!("n={}", expected).into_bytes());
    }
    let mut out = Vec::new();
    push_decimal(&mut out, usize::MAX);
    assert_eq!(out, usize::MAX.to_string().into_bytes());
}

#[test]
fn numerals_read_back() {
    for n in [0usize, 1, 9, 10, 11, 255, 1000, 65535, 123456789] {
        let mut out = Vec::new();
        push_decimal(&mut out, n);
        assert_eq!(parse_bounded(&out, u64::MAX), Some(n as u64));
    }
}

#[test]
fn locate_finds_the_first_occurrence() {
    assert_eq!(locate(b"a://b://c", b"://"), Some(1));
    assert_eq!(locate(b"://", b"://"), Some(0));
    assert_eq!(locate(b"a:/b", b"://"), None);
    assert_eq!(locate(b":/", b"://"), None);
    assert_eq!(locate(b"", b"://"), None);
    assert_eq!(locate(b"abc", b""), Some(0));
    assert_eq!(locate(b"", b""), Some(0));
    assert_eq!(locate(b"aab", b"ab"), Some(1));
}

#[test]
fn matches_at_compares_in_place() {
    assert!(matches_at(b"hello", b"ll", 2));
    assert!(!matches_at(b"hello", b"ll", 3));
    assert!(!matches_at(b"hello", b"lo!", 3));
    assert!(matches_at(b"hello", b"", 5));
    assert!(!matches_at(b"hello", b"", 6));
    assert!(!matches_at(b"hi", b"hello", 0));
}

#[test]
fn bytes_eq_compares_whole_slices() {
    assert!(bytes_eq(b"", b""));
    assert!(bytes_eq(b"http", b"http"));
    assert!(!bytes_eq(b"http", b"https"));
    assert!(!bytes_eq(b"http", b"httq"));
}

#[test]
fn locate_byte_finds_first_and_last() {
    assert_eq!(locate_byte(b"a/b/c", b'/'), Some(1));
    assert_eq!(locate_last_byte(b"a/b/c", b'/'), Some(3));
    assert_eq!(locate_byte(b"abc", b'/'), None);
    assert_eq!(locate_last_byte(b"abc", b'/'), None);
    assert_eq!(locate_byte(b"", b'/'), None);
    assert_eq!(locate_last_byte(b"", b'/'), None);
    assert_eq!(locate_byte(b"/", b'/'), Some(0));
    assert_eq!(locate_last_byte(b"/", b'/'), Some(0));
}

#[test]
fn str_slice_cuts_at_bytes() {
    assert_eq!(str_slice("hello world", 6, 11), "world");
    assert_eq!(str_slice("hello", 0, 0), "");
    assert_eq!(str_slice("hello", 5, 5), "");
    assert_eq!(str_slice("a\u{fc}b", 1, 3), "\u{fc}");
}

#[test]
fn push_decimal_text_writes_the_shortest_numeral() {
    for n in [0usize, 5, 9, 10, 42, 100, 1234567890, usize::MAX] {
        let mut out = String::from("n=");
        push_decimal_text(&mut out, n);
        assert_eq!(out, format!("n={}", n));
    }
}
