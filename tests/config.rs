use ws2812b_driver::config::parse_decimal;

#[test]
fn parses_pin_numbers() {
    assert_eq!(parse_decimal(b"10", u8::MAX as u64), Some(10));
    assert_eq!(parse_decimal(b"25", u8::MAX as u64), Some(25));
    assert_eq!(parse_decimal(b"255", u8::MAX as u64), Some(255));
    assert_eq!(parse_decimal(b"007", u8::MAX as u64), Some(7));
}

#[test]
fn empty_text_is_zero() {
    assert_eq!(parse_decimal(b"", u8::MAX as u64), Some(0));
}

#[test]
fn rejects_values_above_max() {
    assert_eq!(parse_decimal(b"256", u8::MAX as u64), None);
    assert_eq!(parse_decimal(b"1000", u8::MAX as u64), None);
    assert_eq!(parse_decimal(b"5", 4), None);
    assert_eq!(parse_decimal(b"18446744073709551616", u64::MAX), None);
}

#[test]
fn parses_full_width_ids() {
    assert_eq!(parse_decimal(b"51966", u32::MAX as u64), Some(0xCAFE));
    assert_eq!(parse_decimal(b"3735928559", u64::MAX), Some(0xDEAD_BEEF));
    assert_eq!(parse_decimal(b"18446744073709551615", u64::MAX), Some(u64::MAX));
}

#[test]
fn rejects_non_digits() {
    assert_eq!(parse_decimal(b"1a", u8::MAX as u64), None);
    assert_eq!(parse_decimal(b" 1", u8::MAX as u64), None);
    assert_eq!(parse_decimal(b"-1", u8::MAX as u64), None);
}
