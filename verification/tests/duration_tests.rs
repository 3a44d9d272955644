use vodsegmenter::duration::parse_duration_ms;

#[test]
fn whole_seconds() {
    assert_eq!(parse_duration_ms("95"), Some(95_000));
    assert_eq!(parse_duration_ms("0"), Some(0));
    assert_eq!(parse_duration_ms("1"), Some(1_000));
}

#[test]
fn fraction_digits_scale_to_milliseconds() {
    assert_eq!(parse_duration_ms("95.433"), Some(95_433));
    assert_eq!(parse_duration_ms("4.5"), Some(4_500));
    assert_eq!(parse_duration_ms("4.50"), Some(4_500));
    assert_eq!(parse_duration_ms("0.007"), Some(7));
}

#[test]
fn probe_style_six_digit_fraction() {
    assert_eq!(parse_duration_ms("95.433000"), Some(95_433));
}

#[test]
fn sub_millisecond_remainder_rounds_up() {
    assert_eq!(parse_duration_ms("95.433001"), Some(95_434));
    assert_eq!(parse_duration_ms("0.0001"), Some(1));
    assert_eq!(parse_duration_ms("1.9995"), Some(2_000));
}

#[test]
fn malformed_text_is_rejected() {
    assert_eq!(parse_duration_ms(""), None);
    assert_eq!(parse_duration_ms("."), None);
    assert_eq!(parse_duration_ms(".5"), None);
    assert_eq!(parse_duration_ms("95."), None);
    assert_eq!(parse_duration_ms("9a"), None);
    assert_eq!(parse_duration_ms("9.4x"), None);
    assert_eq!(parse_duration_ms("1.2.3"), None);
    assert_eq!(parse_duration_ms("-5"), None);
    assert_eq!(parse_duration_ms(" 5"), None);
}

#[test]
fn values_past_the_limit_are_rejected() {
    // u64::MAX is 18446744073709551615; anything at or under
    // (u64::MAX - 615) / 1000 whole seconds still fits.
    assert_eq!(parse_duration_ms("18446744073709551"), Some(18_446_744_073_709_551_000));
    assert_eq!(parse_duration_ms("18446744073709551.615"), Some(u64::MAX));
    assert_eq!(parse_duration_ms("18446744073709551.6151"), None);
    assert_eq!(parse_duration_ms("18446744073709552"), None);
    assert_eq!(parse_duration_ms("99999999999999999999999"), None);
}

#[test]
fn leading_zeros_are_plain_digits() {
    assert_eq!(parse_duration_ms("007"), Some(7_000));
    assert_eq!(parse_duration_ms("0.000"), Some(0));
}
