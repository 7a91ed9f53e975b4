use tracelogs::numbers::{parse_i64, parse_usize};

#[test]
fn parse_i64_reads_like_from_str() {
    for s in ["0", "+5", "-5", "123", "-9223372036854775808", "9223372036854775807", "007"] {
        assert_eq!(parse_i64(s.as_bytes()), s.parse::<i64>().ok(), "{}", s);
    }
    for s in ["", "-", "+", "9223372036854775808", "-9223372036854775809", "1a", " 1", "99999999999999999999999"] {
        assert_eq!(parse_i64(s.as_bytes()), None, "{}", s);
        assert!(s.parse::<i64>().is_err());
    }
}

#[test]
fn parse_usize_reads_like_from_str() {
    for s in ["0", "+17", "4294967296", "18446744073709551615"] {
        assert_eq!(parse_usize(s.as_bytes()), s.parse::<usize>().ok(), "{}", s);
    }
    for s in ["", "+", "-1", "18446744073709551616", "x"] {
        assert_eq!(parse_usize(s.as_bytes()), None, "{}", s);
    }
}
