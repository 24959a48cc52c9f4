use timeguardian::duration::{clock_parts, parse_duration, DurationError};

#[test]
fn parses_minutes() {
    assert_eq!(parse_duration("30m"), Ok(1_800_000));
}

#[test]
fn parses_hours() {
    assert_eq!(parse_duration("2h"), Ok(7_200_000));
}

#[test]
fn parses_seconds() {
    assert_eq!(parse_duration("45s"), Ok(45_000));
}

#[test]
fn unit_before_digits_is_invalid_format() {
    assert_eq!(parse_duration("m30"), Err(DurationError::InvalidFormat));
}

#[test]
fn unknown_unit_is_invalid_unit() {
    assert_eq!(parse_duration("30x"), Err(DurationError::InvalidUnit));
}

#[test]
fn empty_token_is_invalid_format() {
    assert_eq!(parse_duration(""), Err(DurationError::InvalidFormat));
}

#[test]
fn missing_unit_is_invalid_unit() {
    assert_eq!(parse_duration("30"), Err(DurationError::InvalidUnit));
}

#[test]
fn combined_units_are_refused() {
    assert_eq!(parse_duration("1h30m"), Err(DurationError::InvalidUnit));
    assert_eq!(parse_duration("25mm"), Err(DurationError::InvalidUnit));
}

#[test]
fn zero_is_a_valid_token() {
    assert_eq!(parse_duration("0s"), Ok(0));
}

#[test]
fn largest_fitting_values() {
    assert_eq!(parse_duration("18446744073709551s"), Ok(18_446_744_073_709_551_000));
    assert_eq!(parse_duration("18446744073709552s"), Err(DurationError::InvalidFormat));
    assert_eq!(parse_duration("99999999999999999999s"), Err(DurationError::InvalidFormat));
}

#[test]
fn clock_parts_split_hours_minutes_seconds() {
    assert_eq!(clock_parts(3_723_999), (1, 2, 3));
    assert_eq!(clock_parts(59_999), (0, 0, 59));
}
