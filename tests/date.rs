use whatwg_datetime::{parse_date, parse_date_component, Date};

#[test]
fn test_parse_date() {
    assert_eq!(parse_date("2011-11-18"), Date::from_ymd_opt(2011, 11, 18));
}

#[test]
fn test_parse_date_leap_year() {
    assert_eq!(parse_date("2012-02-29"), Date::from_ymd_opt(2012, 2, 29));
}

#[test]
fn test_parse_date_fails_not_leap_year() {
    assert_eq!(parse_date("2007-02-29"), None);
}

#[test]
fn test_parse_date_fails_invalid_month() {
    assert_eq!(parse_date("2011-00-19"), None);
}

#[test]
fn test_parse_date_fails_invalid_day_length() {
    assert_eq!(parse_date("2011-11-0"), None);
}

#[test]
fn test_parse_date_fails_invalid_day_upper_bound() {
    assert_eq!(parse_date("2011-11-32"), None);
}

#[test]
fn test_parse_date_fails_invalid_separator() {
    assert_eq!(parse_date("2011-11/19"), None);
}

#[test]
fn date_rejects_trailing_text() {
    assert!(parse_date("2011-11-19").is_some());
    assert_eq!(parse_date("2011-11-19extra"), None);
}

#[test]
fn date_fields_are_exact() {
    let d = parse_date("2000-02-29").unwrap();
    assert_eq!((d.year(), d.month(), d.day()), (2000, 2, 29));
    assert_eq!(parse_date("1900-02-29"), None);
    assert_eq!(parse_date("2011-04-31"), None);
    assert_eq!(parse_date("2011-12-31"), Date::from_ymd_opt(2011, 12, 31));
}

#[test]
fn date_component_advances_past_the_day() {
    let mut position = 0usize;
    assert_eq!(parse_date_component("2011-11-18T14:54", &mut position), Date::from_ymd_opt(2011, 11, 18));
    assert_eq!(position, 10);
}

#[test]
fn date_from_ymd_opt_checks_the_calendar() {
    assert!(Date::from_ymd_opt(2011, 2, 28).is_some());
    assert_eq!(Date::from_ymd_opt(2011, 2, 29), None);
    assert_eq!(Date::from_ymd_opt(0, 1, 1), None);
    assert_eq!(Date::from_ymd_opt(2011, 13, 1), None);
    assert_eq!(Date::from_ymd_opt(2011, 1, 0), None);
}
