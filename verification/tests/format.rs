use hosthog::util::count_true;
use hosthog::util::format_claim_row;
use hosthog::util::format_timeout;
use hosthog::util::format_timeout_abs;
use hosthog::util::next_minute;
use hosthog::diskstate::Claim;

#[test]
fn seconds_below_a_minute() {
    assert_eq!(format_timeout(45), "45s");
    assert_eq!(format_timeout(0), "0s");
    assert_eq!(format_timeout(59), "59s");
}

#[test]
fn minutes_below_an_hour() {
    assert_eq!(format_timeout(90), "1m");
    assert_eq!(format_timeout(60), "1m");
    assert_eq!(format_timeout(3599), "59m");
}

#[test]
fn hours_below_a_day() {
    assert_eq!(format_timeout(3600), "1h");
    assert_eq!(format_timeout(86399), "23h");
}

#[test]
fn days_below_a_week() {
    assert_eq!(format_timeout(25 * 3600), "1d");
    assert_eq!(format_timeout(604799), "6d");
}

#[test]
fn weeks_above() {
    assert_eq!(format_timeout(10 * 86400), "1w");
    assert_eq!(format_timeout(604800), "1w");
    assert_eq!(format_timeout(40 * 604800), "40w");
}

#[test]
fn negative_remainders_are_seconds() {
    assert_eq!(format_timeout(-5), "-5s");
    assert_eq!(format_timeout(-90), "-90s");
}

#[test]
fn absolute_timeout_formats_the_remainder() {
    assert_eq!(format_timeout_abs(1045, 1000), "45s");
    assert_eq!(format_timeout_abs(1000, 1045), "-45s");
}

#[test]
fn claim_row_matches_column_layout() {
    let claim = Claim {
        timeout: 1045,
        soft_timeout: None,
        exclusive: true,
        user: "alice".to_string(),
        comment: "maint".to_string(),
    };
    let expected = format!("{:<13} {:<13} {}", "45s", "alice", "(exclusive) maint");
    assert_eq!(format_claim_row(&claim, 1000), expected);
}

#[test]
fn claim_row_prefers_the_soft_timeout() {
    let claim = Claim {
        timeout: 1045,
        soft_timeout: Some(1030),
        exclusive: false,
        user: "bob".to_string(),
        comment: "build".to_string(),
    };
    let expected = format!("{:<13} {:<13} {}", "30s (soft)", "bob", "build");
    assert_eq!(format_claim_row(&claim, 1000), expected);
}

#[test]
fn claim_row_pads_long_fields_not_at_all() {
    let claim = Claim {
        timeout: 10,
        soft_timeout: None,
        exclusive: false,
        user: "a-very-long-user-name".to_string(),
        comment: String::new(),
    };
    let expected = format!("{:<13} {:<13} {}", "10s", "a-very-long-user-name", "");
    assert_eq!(format_claim_row(&claim, 0), expected);
}

#[test]
fn count_true_counts() {
    assert_eq!(count_true(&vec![]), 0);
    assert_eq!(count_true(&vec![true, false, true, true]), 3);
}

#[test]
fn next_minute_steps_past_the_expiry_minute() {
    assert_eq!(next_minute(1000), 1061);
}
