use whatwg_datetime::{parse_time, parse_time_component, TimeOfDay};

#[test]
fn test_parse_time_succeeds_hm() {
    assert_eq!(parse_time("12:31"), TimeOfDay::from_hms_milli_opt(12, 31, 0, 0));
}

#[test]
fn test_parse_time_succeeds_hms() {
    assert_eq!(parse_time("12:31:59"), TimeOfDay::from_hms_milli_opt(12, 31, 59, 0));
}

#[test]
fn test_parse_time_succeeds_hms_fractional_seconds() {
    assert_eq!(parse_time("14:54:39.929"), TimeOfDay::from_hms_milli_opt(14, 54, 39, 929));
}

#[test]
fn test_parse_time_fails_multiple_decimals() {
    assert_eq!(parse_time("12:31:59...29"), None);
}

#[test]
fn test_parse_time_fails_hour_length() {
    assert_eq!(parse_time("123:31:59"), None);
}

#[test]
fn test_parse_time_fails_hour_value_upper_bound() {
    assert_eq!(parse_time("24:31:59"), None);
}

#[test]
fn test_parse_time_fails_delimiter() {
    assert_eq!(parse_time("12-31-59"), None);
}

#[test]
fn test_parse_time_fails_minute_length() {
    assert_eq!(parse_time("12:311:59"), None);
}

#[test]
fn test_parse_time_fails_minute_value_upper_bound() {
    assert_eq!(parse_time("12:79:59"), None);
}

#[test]
fn test_parse_time_fails_seconds_length() {
    assert_eq!(parse_time("12:31:591"), None);
}

#[test]
fn test_parse_time_fails_seconds_value_upper_bound() {
    assert_eq!(parse_time("12:31:79"), None);
}

#[test]
fn test_parse_time_component() {
    let mut position = 0usize;
    let parsed = parse_time_component("12:31:59", &mut position);

    assert_eq!(parsed, TimeOfDay::from_hms_milli_opt(12, 31, 59, 0));
}

#[test]
fn fraction_digits_are_weighted_by_place() {
    assert_eq!(parse_time("14:54:39.9").unwrap().millisecond(), 900);
    assert_eq!(parse_time("14:54:39.92").unwrap().millisecond(), 920);
    assert_eq!(parse_time("14:54:39.929").unwrap().millisecond(), 929);
    assert_eq!(parse_time("14:54:39.009").unwrap().millisecond(), 9);
}

#[test]
fn fraction_needs_one_to_three_digits() {
    assert_eq!(parse_time("14:54:39."), None);
    assert_eq!(parse_time("14:54:39.9291"), None);
    assert_eq!(parse_time("14:54:3.9"), None);
    assert_eq!(parse_time("14:54:"), None);
    assert_eq!(parse_time("14:54:39.9.2"), None);
}

#[test]
fn time_fields_at_their_limits() {
    let t = parse_time("23:59:59.999").unwrap();
    assert_eq!((t.hour(), t.minute(), t.second(), t.millisecond()), (23, 59, 59, 999));
    assert_eq!(parse_time("00:00"), TimeOfDay::from_hms_opt(0, 0, 0));
    assert_eq!(parse_time("12:60"), None);
    assert_eq!(parse_time("12:31:60"), None);
}

#[test]
fn time_component_leaves_the_cursor_after_the_time() {
    let mut position = 0usize;
    let parsed = parse_time_component("12:31Z", &mut position);
    assert_eq!(parsed, TimeOfDay::from_hms_opt(12, 31, 0));
    assert_eq!(position, 5);
    assert_eq!(parse_time("12:31Z"), None);
}
