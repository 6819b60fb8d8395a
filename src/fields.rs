//! Fields shared by several microsyntaxes: fixed-width numbers, months, days
//! and single separator code points.
use vstd::prelude::*;
use crate::calendar::{days_in_month, max_days_in_month_year};
use crate::scan::{
    all_digits, char_at, char_at_exec, collect_ascii_digits, decimal_value, digits_value,
    lemma_run_end_bounds, lemma_two_digits, run_end, CharClass,
};

verus! {

/// What a component parser owes its caller: on success, the value that the
/// grammar gives and the cursor just past what it consumed; `None` where the
/// grammar rejects.
pub open spec fn outcome<T>(expected: Option<(T, int)>, r: Option<T>, position: usize) -> bool {
    match expected {
        Some((v, e)) => r == Some(v) && position as int == e,
        None => r is None,
    }
}

/// A field of exactly two ASCII digits at `p` (a longer run of digits is no
/// such field): its value and the position after it.
pub open spec fn two_digit_field(s: Seq<char>, p: int) -> Option<(nat, int)> {
    let e = run_end(s, p, CharClass::AsciiDigit);
    if e - p == 2 {
        Some((digits_value(s.subrange(p, e)), e))
    } else {
        None
    }
}

/// A month number from 1 to 12 written in two digits.
pub open spec fn month_field(s: Seq<char>, p: int) -> Option<(u8, int)> {
    match two_digit_field(s, p) {
        Some((m, e)) => if 1 <= m <= 12 {
            Some((m as u8, e))
        } else {
            None
        },
        None => None,
    }
}

/// A day of `month` in `year`, written in two digits.
pub open spec fn day_field(s: Seq<char>, p: int, month: int, year: int) -> Option<(u8, int)> {
    match two_digit_field(s, p) {
        Some((d, e)) => match days_in_month(month, year) {
            Some(max) => if 1 <= d <= max {
                Some((d as u8, e))
            } else {
                None
            },
            None => None,
        },
        None => None,
    }
}

/// The digits of a run that starts at `p` are all ASCII digits.
pub proof fn lemma_digit_run(s: Seq<char>, p: int)
    requires
        0 <= p <= s.len(),
    ensures
        p <= run_end(s, p, CharClass::AsciiDigit) <= s.len(),
        all_digits(s.subrange(p, run_end(s, p, CharClass::AsciiDigit))),
{
    lemma_run_end_bounds(s, p, CharClass::AsciiDigit);
    let e = run_end(s, p, CharClass::AsciiDigit);
    assert forall|i: int| 0 <= i < e - p implies crate::scan::is_digit(
        #[trigger] s.subrange(p, e)[i],
    ) by {
        assert(CharClass::AsciiDigit.spec_accepts(s[p + i]));
    }
}

/// Consumes the code point `c` at `position`, if that is the one there.
pub fn consume_char(s: &str, position: &mut usize, c: char) -> (r: bool)
    ensures
        r == (char_at(s@, *old(position) as int) == Some(c)),
        r ==> *final(position) == *old(position) + 1,
        !r ==> *final(position) == *old(position),
{
    match char_at_exec(s, *position) {
        Some(x) => {
            if x == c {
                *position = *position + 1;
                true
            } else {
                false
            }
        },
        None => false,
    }
}

/// Collects a field of exactly two digits.
pub fn collect_two_digit_field(s: &str, position: &mut usize) -> (r: Option<u8>)
    ensures
        match two_digit_field(s@, *old(position) as int) {
            Some((v, e)) => r == Some(v as u8) && *final(position) as int == e && v <= 99,
            None => r is None,
        },
        r is Some ==> *final(position) <= s@.len(),
{
    let start = *position;
    let digits = collect_ascii_digits(s, position);
    if *position - start != 2 {
        return None;
    }
    proof {
        lemma_digit_run(s@, start as int);
        lemma_two_digits(digits@);
    }
    match decimal_value(digits.as_str(), 99) {
        Some(v) => Some(v as u8),
        None => None,
    }
}

/// Collects a two-digit month number from 1 to 12.
pub fn collect_month_and_validate(s: &str, position: &mut usize) -> (r: Option<u8>)
    ensures
        outcome(month_field(s@, *old(position) as int), r, *final(position)),
        r is Some ==> *final(position) <= s@.len(),
{
    let month = match collect_two_digit_field(s, position) {
        Some(m) => m,
        None => return None,
    };
    if !crate::calendar::is_valid_month(&month) {
        return None;
    }
    Some(month)
}

/// Collects a two-digit day number that `month` of `year` has.
pub fn collect_day_and_validate(s: &str, position: &mut usize, month: u8, year: u32) -> (r: Option<
    u8,
>)
    ensures
        outcome(day_field(s@, *old(position) as int, month as int, year as int), r, *final(position)),
        r is Some ==> *final(position) <= s@.len(),
{
    let day = match collect_two_digit_field(s, position) {
        Some(d) => d,
        None => return None,
    };
    let max_days = match max_days_in_month_year(month, year) {
        Some(m) => m,
        None => return None,
    };
    if !(1 <= day && day <= max_days) {
        return None;
    }
    Some(day)
}

} // verus!
