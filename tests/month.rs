use whatwg_datetime::{parse_month, parse_month_component, YearMonth};

#[test]
fn test_parse_month_string() {
    let parsed = parse_month("2004-12");
    assert_eq!(parsed, Some(YearMonth::new(2004, 12)));
}

#[test]
fn test_parse_month_string_fails_invalid_month() {
    let parsed = parse_month("2004-2a");
    assert_eq!(parsed, None);
}

#[test]
fn test_parse_month_string_fails() {
    let parsed = parse_month("2004-13");
    assert_eq!(parsed, None);
}

#[test]
fn test_parse_month_component() {
    let mut position = 0usize;
    let parsed = parse_month_component("2004-12", &mut position);

    assert_eq!(parsed, Some(YearMonth::new(2004, 12)));
}

#[test]
fn test_parse_month_component_fails_year_lt_4_digits() {
    let mut position = 0usize;
    let parsed = parse_month_component("200-12", &mut position);

    assert_eq!(parsed, None);
}

#[test]
fn test_parse_month_component_fails_invalid_month_lower_bound() {
    let mut position = 0usize;
    let parsed = parse_month_component("2004-0", &mut position);

    assert_eq!(parsed, None);
}

#[test]
fn test_parse_month_component_fails_invalid_month_upper_bound() {
    let mut position = 0usize;
    let parsed = parse_month_component("2004-13", &mut position);

    assert_eq!(parsed, None);
}

#[test]
fn test_parse_month_component_fails_invalid_month_syntax() {
    let mut position = 0usize;
    let parsed = parse_month_component("2004-1a", &mut position);

    assert_eq!(parsed, None);
}

#[test]
fn test_parse_month_component_fails_invalid_separator() {
    let mut position = 0usize;
    let parsed = parse_month_component("2004/12", &mut position);

    assert_eq!(parsed, None);
}

#[test]
fn month_round_trips_through_its_text() {
    for (year, month) in [(1u32, 1u8), (2011, 11), (9999, 12), (12345, 6)] {
        let text = format!("{:04}-{:02}", year, month);
        let parsed = parse_month(&text).unwrap();
        assert_eq!(parsed.year(), year);
        assert_eq!(parsed.month(), month);
    }
}

#[test]
fn month_component_stops_after_the_month() {
    let mut position = 0usize;
    let parsed = parse_month_component("2011-11-19", &mut position);
    assert_eq!(parsed, Some(YearMonth::new(2011, 11)));
    assert_eq!(position, 7);
}

#[test]
fn month_rejects_year_zero_and_overflowing_year() {
    assert_eq!(parse_month("0000-01"), None);
    assert_eq!(parse_month("4294967296-01"), None);
    assert_eq!(parse_month("4294967295-01"), Some(YearMonth::new(4294967295, 1)));
}

#[test]
fn month_rejects_trailing_text() {
    assert_eq!(parse_month("2011-11 "), None);
    assert_eq!(parse_month("2011-11-"), None);
}
