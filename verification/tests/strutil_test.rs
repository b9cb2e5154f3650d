use sol_rpc_router::strutil::eq_str;
use sol_rpc_router::strutil::find_char;
use sol_rpc_router::strutil::find_sub;
use sol_rpc_router::strutil::parse_u64;
use sol_rpc_router::strutil::starts_with;
use sol_rpc_router::strutil::u64_to_string;

#[test]
fn test_u64_to_string() {
    assert_eq!(u64_to_string(0), "0");
    assert_eq!(u64_to_string(7), "7");
    assert_eq!(u64_to_string(10), "10");
    assert_eq!(u64_to_string(8899), "8899");
    assert_eq!(u64_to_string(u64::MAX), "18446744073709551615");
}

#[test]
fn test_parse_u64() {
    assert_eq!(parse_u64("0"), Some(0));
    assert_eq!(parse_u64("00123"), Some(123));
    assert_eq!(parse_u64("18446744073709551615"), Some(u64::MAX));
    assert_eq!(parse_u64("18446744073709551616"), None);
    assert_eq!(parse_u64(""), None);
    assert_eq!(parse_u64("12a"), None);
    assert_eq!(parse_u64("-1"), None);
}

#[test]
fn test_decimal_round_trip() {
    for n in [0u64, 1, 9, 10, 99, 100, 65535, u64::MAX] {
        assert_eq!(parse_u64(&u64_to_string(n)), Some(n));
    }
}

#[test]
fn test_eq_and_prefix() {
    assert!(eq_str("abc", "abc"));
    assert!(!eq_str("abc", "abd"));
    assert!(starts_with("api-key=x", "api-key="));
    assert!(!starts_with("api", "api-key="));
}

#[test]
fn test_find_char_and_sub() {
    assert_eq!(find_char("a&b", '&'), 1);
    assert_eq!(find_char("ab", '&'), 2);
    assert_eq!(find_sub("{\"method\":1}", "\"method\""), Some(1));
    assert_eq!(find_sub("{}", "\"method\""), None);
}
