use tmux_cmc::number::{parse_i32, parse_unsigned, u32_to_string};

fn chars(s: &str) -> Vec<char> {
    s.chars().collect()
}

#[test]
fn parse_unsigned_cases() {
    assert_eq!(parse_unsigned(&chars("0"), u64::MAX), Some(0));
    assert_eq!(parse_unsigned(&chars("+42"), u64::MAX), Some(42));
    assert_eq!(parse_unsigned(&chars("007"), 10), Some(7));
    assert_eq!(parse_unsigned(&chars("11"), 10), None);
    assert_eq!(parse_unsigned(&chars(""), 10), None);
    assert_eq!(parse_unsigned(&chars("+"), 10), None);
    assert_eq!(parse_unsigned(&chars("-1"), 10), None);
    assert_eq!(parse_unsigned(&chars("1a"), 10), None);
    assert_eq!(parse_unsigned(&chars("4294967295"), 4294967295), Some(4294967295));
}

#[test]
fn parse_i32_cases() {
    assert_eq!(parse_i32(&chars("-2147483648")), Some(i32::MIN));
    assert_eq!(parse_i32(&chars("2147483647")), Some(i32::MAX));
    assert_eq!(parse_i32(&chars("2147483648")), None);
    assert_eq!(parse_i32(&chars("-2147483649")), None);
    assert_eq!(parse_i32(&chars("-0")), Some(0));
    assert_eq!(parse_i32(&chars("+3")), Some(3));
    assert_eq!(parse_i32(&chars("-")), None);
    assert_eq!(parse_i32(&chars("-+3")), None);
}

#[test]
fn u32_to_string_round_trip() {
    for n in [0u32, 7, 10, 2, 123456, u32::MAX] {
        let s = u32_to_string(n);
        assert_eq!(s, n.to_string());
        assert_eq!(parse_unsigned(&chars(&s), u32::MAX as u64), Some(n as u64));
    }
}
