use birdwatcher_rs::duration_text::parse_secs_ms;

/// Whole seconds, with and without a fractional part.
#[test]
fn parses_plain_seconds() {
    assert_eq!(parse_secs_ms("0"), Some(0));
    assert_eq!(parse_secs_ms("1"), Some(1000));
    assert_eq!(parse_secs_ms("90"), Some(90000));
}

/// The fractional part is read to millisecond precision; further digits
/// are ignored.
#[test]
fn parses_fractional_seconds() {
    assert_eq!(parse_secs_ms("1.2"), Some(1200));
    assert_eq!(parse_secs_ms("0.5"), Some(500));
    assert_eq!(parse_secs_ms("2.25"), Some(2250));
    assert_eq!(parse_secs_ms("0.075"), Some(75));
    assert_eq!(parse_secs_ms("1.2345"), Some(1234));
    assert_eq!(parse_secs_ms("0.0001"), Some(0));
}

/// The largest representable integer part: sixteen digits of seconds.
#[test]
fn largest_seconds_accepted() {
    assert_eq!(
        parse_secs_ms("9999999999999999"),
        Some(9_999_999_999_999_999_000)
    );
    assert_eq!(parse_secs_ms("9999999999999999.999"), Some(9_999_999_999_999_999_999));
    assert_eq!(parse_secs_ms("10000000000000000"), None);
}

/// Anything that is not a plain decimal number of seconds is rejected.
#[test]
fn malformed_durations_rejected() {
    assert_eq!(parse_secs_ms(""), None);
    assert_eq!(parse_secs_ms("."), None);
    assert_eq!(parse_secs_ms("1."), None);
    assert_eq!(parse_secs_ms(".5"), None);
    assert_eq!(parse_secs_ms("1.2.3"), None);
    assert_eq!(parse_secs_ms("-1"), None);
    assert_eq!(parse_secs_ms("inf"), None);
    assert_eq!(parse_secs_ms("NaN"), None);
    assert_eq!(parse_secs_ms("1e3"), None);
    assert_eq!(parse_secs_ms("1 "), None);
}
