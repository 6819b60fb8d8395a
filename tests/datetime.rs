use whatwg_datetime::{
    parse_global_datetime, parse_local_datetime, subtract_offset, Date, GlobalDateTime,
    LocalDateTime, TimeOfDay, TimeZoneOffset,
};

fn local(y: u32, mo: u8, d: u8, t: TimeOfDay) -> Option<LocalDateTime> {
    Some(LocalDateTime::new(Date::from_ymd_opt(y, mo, d).unwrap(), t))
}

fn global(y: u32, mo: u8, d: u8, t: TimeOfDay) -> Option<GlobalDateTime> {
    Some(GlobalDateTime::new(Date::from_ymd_opt(y, mo, d).unwrap(), t))
}

#[test]
pub fn test_parse_local_datetime_delimited_t_date_hm() {
    assert_eq!(
        parse_local_datetime("2004-12-31T12:31"),
        local(2004, 12, 31, TimeOfDay::from_hms_opt(12, 31, 0).unwrap())
    );
}

#[test]
pub fn test_parse_local_datetime_delimited_t_date_hms() {
    assert_eq!(
        parse_local_datetime("2004-12-31T12:31:59"),
        local(2004, 12, 31, TimeOfDay::from_hms_opt(12, 31, 59).unwrap())
    );
}

#[test]
pub fn test_parse_local_datetime_delimited_t_date_hms_milliseconds() {
    assert_eq!(
        parse_local_datetime("2011-11-18T14:54:39.929"),
        local(2011, 11, 18, TimeOfDay::from_hms_milli_opt(14, 54, 39, 929).unwrap())
    )
}

#[test]
pub fn test_parse_local_datetime_delimited_space_date_hm() {
    assert_eq!(
        parse_local_datetime("2011-11-18 14:54"),
        local(2011, 11, 18, TimeOfDay::from_hms_opt(14, 54, 0).unwrap())
    )
}

#[test]
pub fn test_parse_local_datetime_delimited_space_date_hms() {
    assert_eq!(
        parse_local_datetime("2011-11-18 14:54:39"),
        local(2011, 11, 18, TimeOfDay::from_hms_opt(14, 54, 39).unwrap())
    )
}

#[test]
pub fn test_parse_local_datetime_delimited_space_date_hms_milliseconds() {
    assert_eq!(
        parse_local_datetime("2011-11-18 14:54:39.929"),
        local(2011, 11, 18, TimeOfDay::from_hms_milli_opt(14, 54, 39, 929).unwrap())
    )
}

#[test]
pub fn test_parse_local_datetime_fails_invalid_delimiter() {
    assert_eq!(parse_local_datetime("2011-11-18W14-54-39"), None);
}

#[test]
pub fn test_parse_local_datetime_fails_invalid_date() {
    assert_eq!(parse_local_datetime("2011/11/18T14:54:39.929"), None);
}

#[test]
pub fn test_parse_local_datetime_fails_invalid_time() {
    assert_eq!(parse_local_datetime("2011-11-18T14/54/39"), None);
}

#[test]
fn test_parse_global_datetime_t_hm() {
    assert_eq!(
        parse_global_datetime("2004-12-31T12:31"),
        global(2004, 12, 31, TimeOfDay::from_hms_opt(12, 31, 0).unwrap())
    );
}

#[test]
fn test_parse_global_datetime_t_hms() {
    assert_eq!(
        parse_global_datetime("2004-12-31T12:31:59"),
        global(2004, 12, 31, TimeOfDay::from_hms_opt(12, 31, 59).unwrap())
    );
}

#[test]
fn test_parse_global_datetime_t_hms_milliseconds() {
    assert_eq!(
        parse_global_datetime("2027-11-29T12:31:59.123"),
        global(2027, 11, 29, TimeOfDay::from_hms_milli_opt(12, 31, 59, 123).unwrap())
    );
}

#[test]
fn test_parse_global_datetime_t_hms_z() {
    assert_eq!(
        parse_global_datetime("2004-12-31T12:31:59Z"),
        global(2004, 12, 31, TimeOfDay::from_hms_opt(12, 31, 59).unwrap())
    );
}

#[test]
fn test_parse_global_datetime_space_hm() {
    assert_eq!(
        parse_global_datetime("2004-12-31 12:31"),
        global(2004, 12, 31, TimeOfDay::from_hms_opt(12, 31, 0).unwrap())
    );
}

#[test]
fn test_parse_global_datetime_space_hms() {
    assert_eq!(
        parse_global_datetime("2004-12-31 12:31:59"),
        global(2004, 12, 31, TimeOfDay::from_hms_opt(12, 31, 59).unwrap())
    );
}

#[test]
fn test_parse_global_datetime_space_hms_milliseconds() {
    assert_eq!(
        parse_global_datetime("2004-12-31 12:31:59.123"),
        global(2004, 12, 31, TimeOfDay::from_hms_milli_opt(12, 31, 59, 123).unwrap())
    );
}

#[test]
fn test_parse_global_datetime_fails_invalid_date() {
    assert_eq!(parse_global_datetime("2004/13/31T12:31"), None);
}

#[test]
fn test_parse_global_datetime_fails_invalid_delimiter() {
    assert_eq!(parse_global_datetime("1986-08-14/12-31"), None);
}

#[test]
fn test_parse_global_datetime_fails_invalid_time() {
    assert_eq!(parse_global_datetime("2006-06-05T24:31"), None);
}

#[test]
fn test_parse_global_datetime_fails_invalid_time_long_pos() {
    assert_eq!(parse_global_datetime("2006-06-05T24:31:5999"), None);
}

#[test]
fn test_parse_global_datetime_fails_invalid_timezone_offset_1() {
    assert_eq!(parse_global_datetime("2019-12-31T11:17+24:00"), None);
}

#[test]
fn test_parse_global_datetime_fails_invalid_timezone_offset_2() {
    assert_eq!(parse_global_datetime("1456-02-24T11:17C"), None);
}

#[test]
fn global_datetime_subtracts_the_offset() {
    assert_eq!(
        parse_global_datetime("2004-12-31T12:31:59+01:00"),
        global(2004, 12, 31, TimeOfDay::from_hms_opt(11, 31, 59).unwrap())
    );
    assert_eq!(
        parse_global_datetime("2004-12-31T12:31:59.5-0230"),
        global(2004, 12, 31, TimeOfDay::from_hms_milli_opt(15, 1, 59, 500).unwrap())
    );
}

#[test]
fn global_datetime_wraps_without_changing_the_date() {
    assert_eq!(
        parse_global_datetime("2004-12-31T00:30+01:00"),
        global(2004, 12, 31, TimeOfDay::from_hms_opt(23, 30, 0).unwrap())
    );
    assert_eq!(
        parse_global_datetime("2004-12-31T23:30-01:00"),
        global(2004, 12, 31, TimeOfDay::from_hms_opt(0, 30, 0).unwrap())
    );
}

#[test]
fn subtract_offset_wraps_around_midnight() {
    let t = TimeOfDay::from_hms_milli_opt(0, 10, 5, 7).unwrap();
    assert_eq!(subtract_offset(t, TimeZoneOffset::new(0, 20)), TimeOfDay::from_hms_milli_opt(23, 50, 5, 7).unwrap());
    assert_eq!(subtract_offset(t, TimeZoneOffset::new(-23, -59)), TimeOfDay::from_hms_milli_opt(0, 9, 5, 7).unwrap());
    assert_eq!(subtract_offset(t, TimeZoneOffset::new(0, 0)), t);
}

#[test]
fn datetimes_reject_trailing_text() {
    assert_eq!(parse_local_datetime("2004-12-31T12:31Z"), None);
    assert_eq!(parse_global_datetime("2004-12-31T12:31Zx"), None);
    assert_eq!(parse_local_datetime("2004-12-31T"), None);
}
