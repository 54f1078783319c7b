use hosthog::claims::parse_timeout;
use hosthog::claims::TimeoutError;

#[test]
fn duration_expressions_are_relative_to_now() {
    assert_eq!(parse_timeout("2h30m", 1000), Ok(1000 + 9000));
    assert_eq!(parse_timeout("45s", 0), Ok(45));
    assert_eq!(parse_timeout("1h", 500), Ok(500 + 3600));
}

#[test]
fn absolute_dates_fall_through_to_the_date_parser() {
    let expected = chrono::DateTime::parse_from_rfc3339("2017-06-15T14:30:00Z")
        .unwrap()
        .timestamp();
    assert_eq!(parse_timeout("2017-06-15T14:30:00Z", 0), Ok(expected));
}

#[test]
fn nonsense_is_unparseable() {
    assert_eq!(parse_timeout("zzzz", 0), Err(TimeoutError::Unparseable));
}

#[test]
fn durations_past_the_end_of_time_are_out_of_range() {
    assert_eq!(parse_timeout("1s", i64::MAX), Err(TimeoutError::OutOfRange));
}
