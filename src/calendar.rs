//! Calendar rules: ranges of the clock fields, month lengths, leap years and
//! the number of weeks in a year.
use vstd::prelude::*;

verus! {

pub open spec fn is_leap_year(year: int) -> bool {
    year % 400 == 0 || (year % 4 == 0 && year % 100 != 0)
}

/// The number of days in `month` of `year`, for a month from 1 to 12.
pub open spec fn days_in_month(month: int, year: int) -> Option<nat> {
    if month == 1 || month == 3 || month == 5 || month == 7 || month == 8 || month == 10
        || month == 12 {
        Some(31)
    } else if month == 4 || month == 6 || month == 9 || month == 11 {
        Some(30)
    } else if month == 2 {
        if is_leap_year(year) {
            Some(29)
        } else {
            Some(28)
        }
    } else {
        None
    }
}

pub fn is_valid_month(month: &u8) -> (r: bool)
    ensures
        r == (1 <= *month <= 12),
{
    1 <= *month && *month <= 12
}

pub fn is_valid_hour(hour: &u8) -> (r: bool)
    ensures
        r == (*hour <= 23),
{
    *hour <= 23
}

pub fn is_valid_min_or_sec(val: &u8) -> (r: bool)
    ensures
        r == (*val <= 59),
{
    *val <= 59
}

/// The number of days in `month` of `year`; `None` for a month outside 1 to 12.
pub fn max_days_in_month_year(month: u8, year: u32) -> (r: Option<u8>)
    ensures
        r == (match days_in_month(month as int, year as int) {
            Some(d) => Some(d as u8),
            None => None,
        }),
{
    match month {
        1 | 3 | 5 | 7 | 8 | 10 | 12 => Some(31),
        4 | 6 | 9 | 11 => Some(30),
        2 => {
            if year % 400 == 0 || (year % 4 == 0 && year % 100 != 0) {
                Some(29)
            } else {
                Some(28)
            }
        },
        _ => None,
    }
}

/// The day of the week of January 1 of `year` in the proleptic Gregorian
/// calendar, counted from Monday (0) to Sunday (6).
pub uninterp spec fn new_year_weekday(year: int) -> nat;

/// The first year that chrono's `NaiveDate` can hold.
pub const FIRST_DATE_YEAR: i32 = -262143;

/// The last year that chrono's `NaiveDate` can hold.
pub const LAST_DATE_YEAR: i32 = 262142;

/// Relies on chrono's `NaiveDate::from_ymd_opt`, which gives January 1 of
/// every year from `FIRST_DATE_YEAR` to `LAST_DATE_YEAR` and `None` for any
/// other year, and on `Datelike::weekday` with `Weekday::num_days_from_monday`,
/// which count that day's weekday from Monday (0) to Sunday (6).
#[verifier::external_body]
fn weekday_of_new_year(year: i32) -> (r: Option<u8>)
    ensures
        r is Some <==> FIRST_DATE_YEAR <= year <= LAST_DATE_YEAR,
        r matches Some(w) ==> w < 7 && w as nat == new_year_weekday(year as int),
{
    match chrono::NaiveDate::from_ymd_opt(year, 1, 1) {
        Some(d) => Some(chrono::Datelike::weekday(&d).num_days_from_monday() as u8),
        None => None,
    }
}

/// The number of weeks in a year whose January 1 falls on `weekday`
/// (Monday is 0): 53 when that is a Thursday, or a Wednesday of a leap
/// year, and 52 otherwise.
pub open spec fn weeks_in_year(year: int, weekday: nat) -> nat {
    if weekday == 3 || (weekday == 2 && is_leap_year(year)) {
        53
    } else {
        52
    }
}

/// The number of weeks in a year whose January 1 falls on `weekday`
/// (counted from Monday as 0).
pub fn weeks_in_year_from_weekday(year: i32, weekday: u8) -> (r: u8)
    ensures
        r as nat == weeks_in_year(year as int, weekday as nat),
{
    let a: u32 = if year < 0 {
        (0 - (year as i64)) as u32
    } else {
        year as u32
    };
    proof {
        assert(is_leap_year(year as int) == is_leap_year(a as int)) by {
            let y = year as int;
            if y < 0 {
                assert(a as int == -y);
                assert((y % 4 == 0) == ((-y) % 4 == 0)) by (nonlinear_arith);
                assert((y % 100 == 0) == ((-y) % 100 == 0)) by (nonlinear_arith);
                assert((y % 400 == 0) == ((-y) % 400 == 0)) by (nonlinear_arith);
            }
        }
    }
    if weekday == 3 {
        53
    } else if weekday == 2 && (a % 400 == 0 || (a % 4 == 0 && a % 100 != 0)) {
        53
    } else {
        52
    }
}

/// The number of weeks in the year, for a year that chrono's dates reach.
pub open spec fn week_count(year: int) -> Option<nat> {
    if FIRST_DATE_YEAR <= year <= LAST_DATE_YEAR {
        Some(weeks_in_year(year, new_year_weekday(year)))
    } else {
        None
    }
}

/// The number of weeks in `year` (52 or 53); `None` for a year outside the
/// range of chrono's dates.
pub fn week_number_of_year(year: i32) -> (r: Option<u8>)
    ensures
        r == (match week_count(year as int) {
            Some(w) => Some(w as u8),
            None => None,
        }),
{
    match weekday_of_new_year(year) {
        Some(w) => Some(weeks_in_year_from_weekday(year, w)),
        None => None,
    }
}

} // verus!
