use loradb::text::{contains_str, parse_bool, parse_unsigned, split_str, starts_with_str};

#[test]
fn split_matches_str_split() {
    for s in ["", "a", "a.b", ".a.", "..", "application/x/device/y/event/up"] {
        for sep in ['.', '/'] {
            let expected: Vec<String> = s.split(sep).map(|p| p.to_string()).collect();
            assert_eq!(split_str(s, sep), expected);
        }
    }
}

#[test]
fn unsigned_numbers() {
    assert_eq!(parse_unsigned("0", u64::MAX), Some(0));
    assert_eq!(parse_unsigned("+42", u64::MAX), Some(42));
    assert_eq!(parse_unsigned("18446744073709551615", u64::MAX), Some(u64::MAX));
    assert_eq!(parse_unsigned("18446744073709551616", u64::MAX), None);
    assert_eq!(parse_unsigned("256", 255), None);
    assert_eq!(parse_unsigned("255", 255), Some(255));
    for bad in ["", "+", "-1", " 1", "1 ", "1_000", "0x10", "++1"] {
        assert_eq!(parse_unsigned(bad, u64::MAX), None, "{:?}", bad);
        assert!(bad.parse::<u64>().is_err());
    }
}

#[test]
fn booleans() {
    assert_eq!(parse_bool("true"), Some(true));
    assert_eq!(parse_bool("false"), Some(false));
    assert_eq!(parse_bool("True"), None);
    assert_eq!(parse_bool("1"), None);
}

#[test]
fn substrings() {
    assert!(contains_str("application/a/device/b/event/up", "/event/up"));
    assert!(!contains_str("application/a/device/b/event/join", "/event/up"));
    assert!(contains_str("abc", ""));
    assert!(!contains_str("ab", "abc"));
    assert!(starts_with_str("Bearer x", "Bearer "));
    assert!(!starts_with_str("Bear", "Bearer "));
}
