use ie_r::color::{format_hex_color, parse_hex_color, xrgb_channels};
use ie_r::text::IntErrorKind;

#[test]
fn channels_of_pixel() {
    assert_eq!(xrgb_channels(0xFF12_3456), (0x12, 0x34, 0x56));
}

#[test]
fn parse_hex_color_with_hash() {
    assert_eq!(parse_hex_color("#1A2b3C"), Ok(0x1A2B3C));
}

#[test]
fn parse_hex_color_strips_every_leading_hash() {
    assert_eq!(parse_hex_color("##ff"), Ok(0xFF));
}

#[test]
fn parse_hex_color_plus_sign() {
    assert_eq!(parse_hex_color("+10"), Ok(16));
    assert_eq!(parse_hex_color("+"), Err(IntErrorKind::InvalidDigit));
    assert_eq!(parse_hex_color("-1"), Err(IntErrorKind::InvalidDigit));
}

#[test]
fn parse_hex_color_errors() {
    assert_eq!(parse_hex_color("#"), Err(IntErrorKind::Empty));
    assert_eq!(parse_hex_color(""), Err(IntErrorKind::Empty));
    assert_eq!(parse_hex_color("#12G4"), Err(IntErrorKind::InvalidDigit));
    assert_eq!(parse_hex_color("1FFFFFFFF"), Err(IntErrorKind::PosOverflow));
    assert_eq!(parse_hex_color("FFFFFFFF"), Ok(u32::MAX));
}

#[test]
fn parse_hex_color_overflow_before_later_bad_digit() {
    assert_eq!(parse_hex_color("123456789z"), Err(IntErrorKind::PosOverflow));
}

#[test]
fn parse_hex_color_matches_std() {
    for s in ["#abcdef", "00ff00", "#x", "ffffffff0", "+", "#+7", "   1", "é"] {
        let expected = u32::from_str_radix(s.trim_start_matches('#'), 16).ok();
        assert_eq!(parse_hex_color(s).ok(), expected, "input {:?}", s);
    }
}

#[test]
fn format_hex_color_six_upper_digits() {
    assert_eq!(format_hex_color(0x00ab_0c0d), "#AB0C0D");
    assert_eq!(format_hex_color(0xFF00_0001), "#000001");
    assert_eq!(format_hex_color(0), "#000000");
}

#[test]
fn format_then_parse_round_trip() {
    for v in [0u32, 1, 0x123456, 0xFFFFFF, 0xFFFF_FFFF, 0xAB00_00CD] {
        assert_eq!(parse_hex_color(&format_hex_color(v)), Ok(v & 0xFFFFFF));
        assert_eq!(format_hex_color(v), format!("#{:06X}", v & 0xFFFFFF));
    }
}

#[test]
fn parse_hex_color_reads_exactly_hex_digit_runs() {
    assert_eq!(parse_hex_color("FF0000"), Ok(0xFF0000));
    assert_eq!(parse_hex_color("#+00ff"), Ok(0xFF));
    assert_eq!(parse_hex_color("#00000000000000FF"), Ok(0xFF));
    assert!(parse_hex_color("#GG0000").is_err());
    assert!(parse_hex_color("#100000000").is_err());
    assert!(parse_hex_color("#++1").is_err());
    assert!(parse_hex_color("# 1").is_err());
    assert!(parse_hex_color("#1#").is_err());
}
