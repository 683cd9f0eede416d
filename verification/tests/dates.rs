use ticklist::dates::{format_date, is_leap_year, make_date, month_length, parse_date, DateVal};

#[test]
fn leap_years() {
    assert!(is_leap_year(2024));
    assert!(is_leap_year(2000));
    assert!(!is_leap_year(1900));
    assert!(!is_leap_year(2023));
}

#[test]
fn month_lengths() {
    assert_eq!(month_length(2024, 2), 29);
    assert_eq!(month_length(1900, 2), 28);
    assert_eq!(month_length(2023, 1), 31);
    assert_eq!(month_length(2023, 4), 30);
    assert_eq!(month_length(2023, 12), 31);
}

#[test]
fn make_date_checks_validity() {
    assert!(make_date(2024, 2, 29).is_some());
    assert!(make_date(2023, 2, 29).is_none());
    assert!(make_date(2023, 0, 1).is_none());
    assert!(make_date(2023, 13, 1).is_none());
    assert!(make_date(2023, 4, 31).is_none());
    assert!(make_date(10000, 1, 1).is_none());
}

#[test]
fn format_date_text() {
    let d = DateVal { year: 2024, month: 2, day: 29 };
    assert_eq!(format_date(d), b"2024-02-29".to_vec());
    let d2 = DateVal { year: 987, month: 12, day: 3 };
    assert_eq!(format_date(d2), b"0987-12-03".to_vec());
}

#[test]
fn parse_date_round_trip() {
    let d = DateVal { year: 2024, month: 2, day: 29 };
    assert_eq!(parse_date(&format_date(d)), Some(d));
}

#[test]
fn parse_date_rejects_malformed_text() {
    assert_eq!(parse_date(b"2023-02-29"), None);
    assert_eq!(parse_date(b"2023-2-9"), None);
    assert_eq!(parse_date(b"20230209"), None);
    assert_eq!(parse_date(b"2023/02/09"), None);
    assert_eq!(parse_date(b""), None);
    assert_eq!(parse_date(b"2023-02-09x"), None);
}

#[test]
fn validity_agrees_with_time_crate() {
    assert!(time::Date::from_calendar_date(2024, time::Month::February, 29).is_ok());
    assert!(time::Date::from_calendar_date(2023, time::Month::February, 29).is_err());
    assert_eq!(make_date(2024, 2, 29).is_some(), true);
    assert_eq!(make_date(2023, 2, 29).is_none(), true);
}
