use whatwg_datetime::{parse_duration, Duration};

#[test]
fn duration_with_years_and_months_is_rejected() {
    assert_eq!(parse_duration("P3Y6M4DT12H30M5S"), None);
    assert_eq!(parse_duration("P1Y"), None);
}

#[test]
fn duration_of_days_hours_minutes_seconds() {
    let expected = 4 * 86_400 + 12 * 3_600 + 30 * 60 + 5;
    assert_eq!(parse_duration("P4DT12H30M5S"), Some(Duration::seconds(expected)));
    assert_eq!(parse_duration("P4DT12H30M5S").unwrap().num_seconds(), 390_605);
}

#[test]
fn empty_duration_is_rejected() {
    assert_eq!(parse_duration(""), None);
    assert_eq!(parse_duration("P"), None);
    assert_eq!(parse_duration("PT"), None);
    assert_eq!(parse_duration("   "), None);
}

#[test]
fn duration_units_and_cases() {
    assert_eq!(parse_duration("P1W"), Some(Duration::seconds(604_800)));
    assert_eq!(parse_duration("P1w2d"), Some(Duration::seconds(604_800 + 2 * 86_400)));
    assert_eq!(parse_duration("PT1H"), Some(Duration::seconds(3_600)));
    assert_eq!(parse_duration("PT2M"), Some(Duration::seconds(120)));
    assert_eq!(parse_duration("PT7s"), Some(Duration::seconds(7)));
}

#[test]
fn m_after_a_year_is_a_month() {
    assert_eq!(parse_duration("P0Y0M1D"), Some(Duration::seconds(86_400)));
    assert_eq!(parse_duration("P0Y1M"), None);
    assert_eq!(parse_duration("P0Y0M1M"), Some(Duration::seconds(60)));
}

#[test]
fn without_p_the_first_m_is_a_month() {
    assert_eq!(parse_duration("1M"), None);
    assert_eq!(parse_duration("0M 5M"), Some(Duration::seconds(300)));
    assert_eq!(parse_duration("1D"), Some(Duration::seconds(86_400)));
    assert_eq!(parse_duration("T1M"), Some(Duration::seconds(60)));
}

#[test]
fn duration_fractional_seconds() {
    assert_eq!(parse_duration("PT1.5S"), Some(Duration::milliseconds(1_500)));
    assert_eq!(parse_duration("PT.25S"), Some(Duration::milliseconds(250)));
    assert_eq!(parse_duration("PT1.2345S"), Some(Duration::milliseconds(1_234)));
    assert_eq!(parse_duration("PT1.5 S"), Some(Duration::milliseconds(1_500)));
    assert_eq!(parse_duration("PT1.5M"), None);
    assert_eq!(parse_duration("PT1.S"), None);
}

#[test]
fn duration_whitespace_between_parts() {
    assert_eq!(parse_duration(" P 1 D T 2 H "), Some(Duration::seconds(86_400 + 7_200)));
}

#[test]
fn duration_rejects_bad_tokens() {
    assert_eq!(parse_duration("P1X"), None);
    assert_eq!(parse_duration("PX"), None);
    assert_eq!(parse_duration("p1D"), None);
    assert_eq!(parse_duration("P1"), None);
    assert_eq!(parse_duration("P1D2"), None);
}

#[test]
fn duration_too_long_is_rejected() {
    assert_eq!(parse_duration("PT18446744073709551S"), Some(Duration::seconds(18_446_744_073_709_551)));
    assert_eq!(parse_duration("PT18446744073709552S"), None);
    assert_eq!(parse_duration("P99999999999999999999999W"), None);
}
