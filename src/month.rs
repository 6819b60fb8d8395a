//! Months: a year of four or more digits, a hyphen and a two-digit month.
use vstd::prelude::*;
use crate::fields::{collect_month_and_validate, consume_char, lemma_digit_run, month_field, outcome};
use crate::scan::{char_at, collect_ascii_digits, decimal_value, digits_value, run_end, CharClass};

verus! {

/// A year and a month of the proleptic Gregorian calendar.
#[derive(Debug, Clone, Copy, PartialEq, Eq, Structural)]
pub struct YearMonth {
    pub year: u32,
    pub month: u8,
}

impl YearMonth {
    pub open spec fn wf(self) -> bool {
        self.year >= 1 && 1 <= self.month <= 12
    }

    pub fn new(year: u32, month: u8) -> (r: Self)
        requires
            year >= 1,
            1 <= month <= 12,
        ensures
            r.year == year,
            r.month == month,
            r.wf(),
    {
        YearMonth { year, month }
    }

    pub fn year(&self) -> (r: u32)
        ensures
            r == self.year,
    {
        self.year
    }

    pub fn month(&self) -> (r: u8)
        ensures
            r == self.month,
    {
        self.month
    }
}

/// The month written at `p`: at least four digits of a year from 1 that fits
/// in `u32`, a hyphen, and a month from 01 to 12.
pub open spec fn spec_month_component(s: Seq<char>, p: int) -> Option<(YearMonth, int)> {
    let ye = run_end(s, p, CharClass::AsciiDigit);
    let year = digits_value(s.subrange(p, ye));
    if ye - p < 4 || year == 0 || year > u32::MAX || char_at(s, ye) != Some('-') {
        None
    } else {
        match month_field(s, ye + 1) {
            Some((m, me)) => Some((YearMonth { year: year as u32, month: m }, me)),
            None => None,
        }
    }
}

/// The month that the whole of `s` writes.
pub open spec fn spec_parse_month(s: Seq<char>) -> Option<YearMonth> {
    match spec_month_component(s, 0) {
        Some((v, e)) => if e == s.len() {
            Some(v)
        } else {
            None
        },
        None => None,
    }
}

/// Parses a month string: the whole input must be a year and a month.
pub fn parse_month(s: &str) -> (r: Option<YearMonth>)
    ensures
        r == spec_parse_month(s@),
        r matches Some(v) ==> v.wf(),
{
    let mut position: usize = 0;
    let r = match parse_month_component(s, &mut position) {
        Some(v) => v,
        None => return None,
    };
    if position < s.unicode_len() {
        return None;
    }
    Some(r)
}

/// Parses a month at `position` and moves the cursor past it.
pub fn parse_month_component(s: &str, position: &mut usize) -> (r: Option<YearMonth>)
    ensures
        outcome(spec_month_component(s@, *old(position) as int), r, *final(position)),
        r matches Some(v) ==> v.wf() && *final(position) <= s@.len(),
{
    let start = *position;
    let parsed_year = collect_ascii_digits(s, position);
    if *position - start < 4 {
        return None;
    }
    proof {
        lemma_digit_run(s@, start as int);
    }
    let year = match decimal_value(parsed_year.as_str(), u32::MAX as u64) {
        Some(y) => y as u32,
        None => return None,
    };
    if year == 0 {
        return None;
    }
    if !consume_char(s, position, '-') {
        return None;
    }
    let month = match collect_month_and_validate(s, position) {
        Some(m) => m,
        None => return None,
    };
    proof {
        crate::scan::lemma_run_end_bounds(s@, (start + parsed_year@.len() + 1) as int, CharClass::AsciiDigit);
    }
    Some(YearMonth::new(year, month))
}

} // verus!
