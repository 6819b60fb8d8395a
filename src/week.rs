//! Weeks: a year, a hyphen, a "W" and a two-digit week number.
use vstd::prelude::*;
use crate::calendar::{week_count, week_number_of_year};
use crate::fields::{collect_two_digit_field, consume_char, lemma_digit_run, outcome, two_digit_field};
use crate::scan::{char_at, collect_ascii_digits, decimal_value, digits_value, run_end, CharClass};
use vstd::string::StrSliceExecFns;

verus! {

/// A week-year and a week number within it.
#[derive(Debug, Clone, Copy, PartialEq, Eq, Structural)]
pub struct YearWeek {
    pub year: i32,
    pub week: u8,
}

impl YearWeek {
    /// A year from 1 and a week that the year has.
    pub open spec fn wf(self) -> bool {
        &&& self.year >= 1
        &&& week_count(self.year as int) matches Some(n)
        &&& 1 <= self.week <= n
    }

    pub fn new(year: i32, week: u8) -> (r: Self)
        requires
            year >= 1,
            1 <= week <= 53,
        ensures
            r == (YearWeek { year, week }),
    {
        YearWeek { year, week }
    }

    /// The week `week` of `year`, if the year is at least 1 and has that week.
    pub fn new_opt(year: i32, week: u8) -> (r: Option<Self>)
        ensures
            r == (if (YearWeek { year, week }).wf() {
                Some(YearWeek { year, week })
            } else {
                None
            }),
    {
        if year <= 0 {
            return None;
        }
        let max_weeks = match week_number_of_year(year) {
            Some(n) => n,
            None => return None,
        };
        if week < 1 || week > max_weeks {
            return None;
        }
        Some(YearWeek::new(year, week))
    }

    pub fn year(&self) -> (r: i32)
        ensures
            r == self.year,
    {
        self.year
    }

    pub fn week(&self) -> (r: u8)
        ensures
            r == self.week,
    {
        self.week
    }
}

/// The week written at `p`: one or more digits of a year from 1 that fits in
/// `i32`, "-W", and two digits of a week that the year has.
pub open spec fn spec_week_component(s: Seq<char>, p: int) -> Option<(YearWeek, int)> {
    let ye = run_end(s, p, CharClass::AsciiDigit);
    let year = digits_value(s.subrange(p, ye));
    if ye == p || year == 0 || year > i32::MAX || char_at(s, ye) != Some('-') || char_at(s, ye + 1)
        != Some('W') {
        None
    } else {
        match two_digit_field(s, ye + 2) {
            Some((w, we)) => match week_count(year as int) {
                Some(n) => if 1 <= w <= n {
                    Some((YearWeek { year: year as i32, week: w as u8 }, we))
                } else {
                    None
                },
                None => None,
            },
            None => None,
        }
    }
}

/// The week that the whole of `s` writes.
pub open spec fn spec_parse_week(s: Seq<char>) -> Option<YearWeek> {
    match spec_week_component(s, 0) {
        Some((v, e)) => if e == s.len() {
            Some(v)
        } else {
            None
        },
        None => None,
    }
}

/// Parses a week string: the whole input must be a week.
pub fn parse_week(input: &str) -> (r: Option<YearWeek>)
    ensures
        r == spec_parse_week(input@),
        r matches Some(v) ==> v.wf(),
{
    let mut position: usize = 0;
    let r = match parse_week_component(input, &mut position) {
        Some(v) => v,
        None => return None,
    };
    if position < input.unicode_len() {
        return None;
    }
    Some(r)
}

/// Parses a week at `position` and moves the cursor past it.
pub fn parse_week_component(input: &str, position: &mut usize) -> (r: Option<YearWeek>)
    ensures
        outcome(spec_week_component(input@, *old(position) as int), r, *final(position)),
        r matches Some(v) ==> v.wf() && *final(position) <= input@.len(),
{
    let start = *position;
    let year_string = collect_ascii_digits(input, position);
    if *position == start {
        return None;
    }
    proof {
        lemma_digit_run(input@, start as int);
    }
    let year = match decimal_value(year_string.as_str(), i32::MAX as u64) {
        Some(y) => y as i32,
        None => return None,
    };
    if year <= 0 {
        return None;
    }
    if !consume_char(input, position, '-') {
        return None;
    }
    if !consume_char(input, position, 'W') {
        return None;
    }
    let week = match collect_two_digit_field(input, position) {
        Some(w) => w,
        None => return None,
    };
    let max_weeks = match week_number_of_year(year) {
        Some(n) => n,
        None => return None,
    };
    if week < 1 || week > max_weeks {
        return None;
    }
    Some(YearWeek { year, week })
}

} // verus!
