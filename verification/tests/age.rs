use hytch::age::format_age;

#[test]
fn seconds_only() {
    assert_eq!(format_age(0), "0s");
    assert_eq!(format_age(45), "45s");
}

#[test]
fn minutes_and_seconds() {
    assert_eq!(format_age(65), "1m 5s");
    assert_eq!(format_age(3599), "59m 59s");
}

#[test]
fn hours_minutes_seconds() {
    assert_eq!(format_age(3661), "1h 1m 1s");
    assert_eq!(format_age(86399), "23h 59m 59s");
}

#[test]
fn days_hours_minutes_seconds() {
    assert_eq!(format_age(90065), "1d 1h 1m 5s");
}

#[test]
fn inner_units_are_shown_even_when_zero() {
    assert_eq!(format_age(60), "1m 0s");
    assert_eq!(format_age(3600), "1h 0m 0s");
    assert_eq!(format_age(86400), "1d 0h 0m 0s");
    assert_eq!(format_age(u64::MAX), "213503982334601d 7h 0m 15s");
}
