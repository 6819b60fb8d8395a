//! Dates: a month, a hyphen and a two-digit day that the month has.
use vstd::prelude::*;
use crate::calendar::{days_in_month, max_days_in_month_year};
use crate::fields::{collect_day_and_validate, consume_char, day_field, outcome};
use crate::month::{parse_month_component, spec_month_component};
use crate::scan::char_at;
use vstd::string::StrSliceExecFns;

verus! {

/// A day of the proleptic Gregorian calendar.
#[derive(Debug, Clone, Copy, PartialEq, Eq, Structural)]
pub struct Date {
    pub year: u32,
    pub month: u8,
    pub day: u8,
}

impl Date {
    pub open spec fn wf(self) -> bool {
        &&& self.year >= 1
        &&& 1 <= self.month <= 12
        &&& days_in_month(self.month as int, self.year as int) matches Some(max)
        &&& 1 <= self.day <= max
    }

    /// The date with this year, month and day, if the calendar has it.
    pub fn from_ymd_opt(year: u32, month: u8, day: u8) -> (r: Option<Date>)
        ensures
            r == (if (Date { year, month, day }).wf() {
                Some(Date { year, month, day })
            } else {
                None
            }),
    {
        if year == 0 {
            return None;
        }
        let max = match max_days_in_month_year(month, year) {
            Some(m) => m,
            None => return None,
        };
        if day < 1 || day > max {
            return None;
        }
        Some(Date { year, month, day })
    }

    pub fn year(&self) -> (r: u32)
        ensures
            r == self.year,
    {
        self.year
    }

    pub fn month(&self) -> (r: u8)
        ensures
            r == self.month,
    {
        self.month
    }

    pub fn day(&self) -> (r: u8)
        ensures
            r == self.day,
    {
        self.day
    }
}

/// The date written at `p`: a month, a hyphen and a day of that month.
pub open spec fn spec_date_component(s: Seq<char>, p: int) -> Option<(Date, int)> {
    match spec_month_component(s, p) {
        Some((ym, e)) => if char_at(s, e) != Some('-') {
            None
        } else {
            match day_field(s, e + 1, ym.month as int, ym.year as int) {
                Some((d, de)) => Some((Date { year: ym.year, month: ym.month, day: d }, de)),
                None => None,
            }
        },
        None => None,
    }
}

/// The date that the whole of `s` writes.
pub open spec fn spec_parse_date(s: Seq<char>) -> Option<Date> {
    match spec_date_component(s, 0) {
        Some((v, e)) => if e == s.len() {
            Some(v)
        } else {
            None
        },
        None => None,
    }
}

/// Parses a date string: the whole input must be a date.
pub fn parse_date(s: &str) -> (r: Option<Date>)
    ensures
        r == spec_parse_date(s@),
        r matches Some(v) ==> v.wf(),
{
    let mut position: usize = 0;
    let r = match parse_date_component(s, &mut position) {
        Some(v) => v,
        None => return None,
    };
    if position < s.unicode_len() {
        return None;
    }
    Some(r)
}

/// Parses a date at `position` and moves the cursor past it.
pub fn parse_date_component(s: &str, position: &mut usize) -> (r: Option<Date>)
    ensures
        outcome(spec_date_component(s@, *old(position) as int), r, *final(position)),
        r matches Some(v) ==> v.wf() && *final(position) <= s@.len(),
{
    let year_month = match parse_month_component(s, position) {
        Some(ym) => ym,
        None => return None,
    };
    let year = year_month.year;
    let month = year_month.month;
    if !consume_char(s, position, '-') {
        return None;
    }
    let day = match collect_day_and_validate(s, position, month, year) {
        Some(d) => d,
        None => return None,
    };
    Some(Date { year, month, day })
}

} // verus!
