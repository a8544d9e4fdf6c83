use hoptodesk::text::{
    joined, contains_char, contains_str, decimal_i64, decimal_u64, hex8, parse_i64,
    replace_all, split_char, starts_with, str_eq, utf8_byte_len,
};

#[test]
fn parse_reads_i64_like_std() {
    for s in [
        "42", "-42", "+7", "", "-", "+", "007", "12a", " 1", "1 ", "-+1", "9223372036854775807",
        "9223372036854775808", "-9223372036854775808", "-9223372036854775809",
        "99999999999999999999999", "0", "-0",
    ] {
        assert_eq!(parse_i64(s), s.parse::<i64>().ok(), "input {:?}", s);
    }
}

#[test]
fn decimal_writes_like_display() {
    for n in [0u64, 7, 10, 99, 100, 12345, u64::MAX] {
        assert_eq!(decimal_u64(n), n.to_string());
    }
    for n in [0i64, -1, 1, -10, i64::MIN, i64::MAX] {
        assert_eq!(decimal_i64(n), n.to_string());
    }
}

#[test]
fn parse_reads_back_what_decimal_writes() {
    for n in [0i64, 5, -5, 1234567, i64::MIN, i64::MAX] {
        assert_eq!(parse_i64(&decimal_i64(n)), Some(n));
    }
}

#[test]
fn hex8_writes_eight_upper_case_digits() {
    assert_eq!(hex8(0x80010106), "80010106");
    assert_eq!(hex8(0), "00000000");
    assert_eq!(hex8(0xdeadbeef), "DEADBEEF");
    assert_eq!(hex8(0xabc), format!("{:08X}", 0xabc));
}

#[test]
fn split_like_std() {
    for (s, c) in [("a//b", '/'), ("", '/'), ("/", '/'), ("abc", '/'), ("x/y/", '/')] {
        let expected: Vec<String> = s.split(c).map(|p| p.to_string()).collect();
        assert_eq!(split_char(s, c), expected);
        assert_eq!(split_char(s, c).join("/"), s);
    }
}

#[test]
fn replace_like_std() {
    for (s, p, r) in [("aaa", "aa", "b"), ("hoptodesk://connect/1/2", "hoptodesk://connect/", ""), ("xyz", "q", "w"), ("abab", "ab", "")] {
        assert_eq!(replace_all(s, p, r), s.replace(p, r));
    }
}

#[test]
fn searching() {
    assert!(starts_with("hoptodesk://connect/1", "hoptodesk://"));
    assert!(!starts_with("hop", "hoptodesk"));
    assert!(contains_char("a.b", '.'));
    assert!(!contains_char("ab", '.'));
    assert!(contains_str("C:\\Program Files\\WindowsApps\\x", "WindowsApps"));
    assert!(contains_str("abc", ""));
    assert!(!contains_str("abc", "abcd"));
    assert!(str_eq("--qs", "--qs"));
    assert!(!str_eq("--qs", "--q"));
    assert_eq!(joined("ab", "cd"), "abcd");
}

#[test]
fn byte_length_counts_utf8_bytes() {
    for s in ["", "abc", "é", "日本", "😀x"] {
        assert_eq!(utf8_byte_len(s), s.len() as u128);
    }
}
