use core_probe::report::format_duration;

#[test]
fn given_zero_duration_when_formatting_then_shows_seconds() {
    assert_eq!(format_duration(0), "0s");
}

#[test]
fn given_seconds_only_when_formatting_then_shows_seconds() {
    assert_eq!(format_duration(45), "45s");
}

#[test]
fn given_minutes_and_seconds_when_formatting_then_shows_both() {
    assert_eq!(format_duration(125), "2m 5s");
}

#[test]
fn given_hours_and_minutes_when_formatting_then_shows_hm() {
    assert_eq!(format_duration(3660), "1h 1m");
}

#[test]
fn given_exact_hour_when_formatting_then_shows_zero_minutes() {
    assert_eq!(format_duration(3600), "1h 0m");
}
