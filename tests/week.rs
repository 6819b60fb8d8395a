use whatwg_datetime::{parse_week, parse_week_component, YearWeek};

#[test]
fn test_parse_week() {
    assert_eq!(parse_week("2004-W53"), Some(YearWeek::new(2004, 53)));
}

#[test]
fn test_parse_week_fails_year_is_zero() {
    assert_eq!(parse_week("0000-W01"), None);
}

#[test]
fn test_parse_week_fails_invalid_separator() {
    assert_eq!(parse_week("2004_W01"), None);
}

#[test]
fn test_parse_week_fails_invalid_week_abbr() {
    assert_eq!(parse_week("2003-ğ“Œ01"), None);
}

#[test]
fn test_parse_week_fails_invalid_week_length() {
    assert_eq!(parse_week("2004-W1"), None);
    assert_eq!(parse_week("2008-W001"), None);
}

#[test]
fn test_parse_week_fails_invalid_week_num_lower_bound() {
    assert_eq!(parse_week("2022-W00"), None);
    assert_eq!(parse_week("1897-W00"), None);
}

#[test]
fn test_parse_week_fails_invalid_week_num_upper_bound() {
    assert_eq!(parse_week("2004-W54"), None);
    assert_eq!(parse_week("1996-W53"), None);
}

#[test]
fn week_53_only_in_long_years() {
    assert_eq!(parse_week("2004-W53"), YearWeek::new_opt(2004, 53));
    assert_eq!(parse_week("2011-W53"), None);
    assert_eq!(parse_week("2011-W52"), Some(YearWeek::new(2011, 52)));
    assert_eq!(parse_week("2011-W47"), YearWeek::new_opt(2011, 47));
}

#[test]
fn week_rejects_missing_year_trailing_text_and_far_years() {
    assert_eq!(parse_week("-W01"), None);
    assert_eq!(parse_week("2004-W01x"), None);
    assert_eq!(parse_week("2147483648-W01"), None);
    assert_eq!(parse_week("262143-W01"), None);
    assert_eq!(parse_week("262142-W01"), Some(YearWeek::new(262142, 1)));
    assert_eq!(parse_week("1-W01"), Some(YearWeek::new(1, 1)));
}

#[test]
fn week_component_advances_past_the_week() {
    let mut position = 0usize;
    assert_eq!(parse_week_component("2004-W53 rest", &mut position), Some(YearWeek::new(2004, 53)));
    assert_eq!(position, 8);
}

#[test]
fn year_week_new_opt_checks_the_year() {
    assert_eq!(YearWeek::new_opt(2004, 53), Some(YearWeek::new(2004, 53)));
    assert_eq!(YearWeek::new_opt(2011, 53), None);
    assert_eq!(YearWeek::new_opt(1952, 0), None);
    assert_eq!(YearWeek::new_opt(0, 1), None);
}
