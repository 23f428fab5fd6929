use ie_r::text::{
    chars_of, parse_unsigned, replace_all, str_eq, trim_chars, IntErrorKind,
};

fn cs(s: &str) -> Vec<char> {
    s.chars().collect()
}

#[test]
fn chars_round_trip() {
    let v = chars_of("aé✓");
    assert_eq!(v, vec!['a', 'é', '✓']);
}

#[test]
fn str_eq_compares_text() {
    assert!(str_eq("hsl", "hsl"));
    assert!(!str_eq("hsl", "hsv"));
    assert!(!str_eq("hs", "hsl"));
}

#[test]
fn trim_like_std() {
    for s in ["  12 \n", "\u{3000}x\u{a0}", "", " \t ", "a b"] {
        let t: String = trim_chars(&cs(s)).into_iter().collect();
        assert_eq!(t, s.trim());
    }
}

#[test]
fn parse_decimal_like_std() {
    for s in ["0", "42", "+7", "+", "-1", "", "12a", "18446744073709551615", "18446744073709551616"] {
        let r = parse_unsigned(&cs(s), 10, u64::MAX);
        assert_eq!(r.ok(), s.parse::<u64>().ok(), "input {:?}", s);
    }
    assert_eq!(parse_unsigned(&cs(""), 10, u64::MAX), Err(IntErrorKind::Empty));
    assert_eq!(parse_unsigned(&cs("300"), 10, 255), Err(IntErrorKind::PosOverflow));
}

#[test]
fn replace_like_std() {
    let cases = [("aaa", "aa", "b"), ("{h}{h}x", "{h}", "{h_pad}"), ("none", "zz", "y"), ("abab", "ab", "")];
    for (s, p, r) in cases {
        let out: String = replace_all(&cs(s), &cs(p), &cs(r)).into_iter().collect();
        assert_eq!(out, s.replace(p, r));
    }
}

#[test]
fn parse_unsigned_small_limit() {
    assert_eq!(parse_unsigned(&cs("5"), 10, 5), Ok(5));
    assert_eq!(parse_unsigned(&cs("7"), 10, 5), Err(IntErrorKind::PosOverflow));
    assert_eq!(parse_unsigned(&cs("z"), 36, 0), Err(IntErrorKind::PosOverflow));
    assert_eq!(parse_unsigned(&cs("0"), 10, 0), Ok(0));
}

#[test]
fn replace_all_empty_pattern_as_std() {
    assert_eq!(replace_all(&cs("ab"), &cs(""), &cs("-")), cs(&"ab".replace("", "-")));
    assert_eq!(replace_all(&cs(""), &cs(""), &cs("xy")), cs(&"".replace("", "xy")));
    assert_eq!(replace_all(&cs("ab"), &cs(""), &cs("-")), cs("-a-b-"));
}
