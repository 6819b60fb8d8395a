//! Yearless dates: a two-digit month and day, with an optional leading "--".
use vstd::prelude::*;
use crate::calendar::days_in_month;
use crate::fields::{
    collect_day_and_validate, collect_month_and_validate, consume_char, day_field, month_field,
    outcome,
};
use crate::scan::{char_at, collect_run, run_end, CharClass};
use vstd::string::StrSliceExecFns;

verus! {

/// The leap year against which a yearless day is checked, so that
/// February 29 is always accepted.
pub const REFERENCE_LEAP_YEAR: u32 = 4;

/// A month and a day of that month, in no particular year.
#[derive(Debug, Clone, Copy, PartialEq, Eq, Structural)]
pub struct YearlessDate {
    pub month: u8,
    pub day: u8,
}

impl YearlessDate {
    pub open spec fn wf(self) -> bool {
        &&& 1 <= self.month <= 12
        &&& days_in_month(self.month as int, REFERENCE_LEAP_YEAR as int) matches Some(max)
        &&& 1 <= self.day <= max
    }

    pub fn new(month: u8, day: u8) -> (r: Self)
        requires
            (YearlessDate { month, day }).wf(),
        ensures
            r == (YearlessDate { month, day }),
    {
        YearlessDate { month, day }
    }

    /// The month and day, if some year has that day: February has 29 days,
    /// April, June, September and November 30, and the other months 31.
    pub fn new_opt(month: u8, day: u8) -> (r: Option<Self>)
        ensures
            r == (if (YearlessDate { month, day }).wf() {
                Some(YearlessDate { month, day })
            } else {
                None
            }),
    {
        if !(1 <= month && month <= 12) {
            return None;
        }
        match month {
            2 => if !(1 <= day && day <= 29) {
                return None;
            },
            4 | 6 | 9 | 11 => if !(1 <= day && day <= 30) {
                return None;
            },
            _ => if !(1 <= day && day <= 31) {
                return None;
            },
        }
        Some(YearlessDate::new(month, day))
    }

    pub fn month(&self) -> (r: u8)
        ensures
            r == self.month,
    {
        self.month
    }

    pub fn day(&self) -> (r: u8)
        ensures
            r == self.day,
    {
        self.day
    }
}

/// The yearless date written at `p`: no hyphen or exactly two, a month, a
/// hyphen, and a day that the month has in a leap year.
pub open spec fn spec_yearless_date_component(s: Seq<char>, p: int) -> Option<(YearlessDate, int)> {
    let he = run_end(s, p, CharClass::Hyphen);
    if he - p != 0 && he - p != 2 {
        None
    } else {
        match month_field(s, he) {
            Some((m, me)) => if char_at(s, me) != Some('-') {
                None
            } else {
                match day_field(s, me + 1, m as int, REFERENCE_LEAP_YEAR as int) {
                    Some((d, de)) => Some((YearlessDate { month: m, day: d }, de)),
                    None => None,
                }
            },
            None => None,
        }
    }
}

/// The yearless date that the whole of `s` writes.
pub open spec fn spec_parse_yearless_date(s: Seq<char>) -> Option<YearlessDate> {
    match spec_yearless_date_component(s, 0) {
        Some((v, e)) => if e == s.len() {
            Some(v)
        } else {
            None
        },
        None => None,
    }
}

/// Parses a yearless date string: the whole input must be a yearless date.
pub fn parse_yearless_date(s: &str) -> (r: Option<YearlessDate>)
    ensures
        r == spec_parse_yearless_date(s@),
        r matches Some(v) ==> v.wf(),
{
    let mut position: usize = 0;
    let r = match parse_yearless_date_component(s, &mut position) {
        Some(v) => v,
        None => return None,
    };
    if position < s.unicode_len() {
        return None;
    }
    Some(r)
}

/// Parses a yearless date at `position` and moves the cursor past it.
pub fn parse_yearless_date_component(s: &str, position: &mut usize) -> (r: Option<YearlessDate>)
    ensures
        outcome(spec_yearless_date_component(s@, *old(position) as int), r, *final(position)),
        r matches Some(v) ==> v.wf() && *final(position) <= s@.len(),
{
    let start = *position;
    let _hyphens = collect_run(s, position, CharClass::Hyphen);
    let count = *position - start;
    if !(count == 0 || count == 2) {
        return None;
    }
    let month = match collect_month_and_validate(s, position) {
        Some(m) => m,
        None => return None,
    };
    if !consume_char(s, position, '-') {
        return None;
    }
    let day = match collect_day_and_validate(s, position, month, REFERENCE_LEAP_YEAR) {
        Some(d) => d,
        None => return None,
    };
    Some(YearlessDate { month, day })
}

} // verus!
