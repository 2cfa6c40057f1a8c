use easy_download::downloader::text::{decimal_string, parse_u64, push_decimal};

#[test]
fn decimal_of_small_and_large_numbers() {
    assert_eq!(decimal_string(0), "0");
    assert_eq!(decimal_string(7), "7");
    assert_eq!(decimal_string(10), "10");
    assert_eq!(decimal_string(1234567), "1234567");
    assert_eq!(decimal_string(u64::MAX), "18446744073709551615");
}

#[test]
fn push_decimal_appends_digits() {
    let mut v = b"n=".to_vec();
    push_decimal(&mut v, 905);
    assert_eq!(v, b"n=905".to_vec());
}

#[test]
fn parse_u64_accepts_what_str_parse_accepts() {
    for s in ["0", "42", "+5", "007", "18446744073709551615"] {
        assert_eq!(parse_u64(s.as_bytes()), s.parse::<u64>().ok(), "{s}");
    }
    assert_eq!(parse_u64(b"1024"), Some(1024));
    assert_eq!(parse_u64(b"+5"), Some(5));
}

#[test]
fn parse_u64_refuses_what_str_parse_refuses() {
    for s in ["", "+", "-", "-1", "12a", " 12", "18446744073709551616", "99999999999999999999999"] {
        assert_eq!(parse_u64(s.as_bytes()), None, "{s}");
        assert!(s.parse::<u64>().is_err());
    }
}
