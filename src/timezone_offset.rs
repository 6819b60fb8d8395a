//! Time-zone offsets: "Z", or a sign with hours and minutes.
use vstd::prelude::*;
use crate::fields::{collect_two_digit_field, consume_char, lemma_digit_run, outcome, two_digit_field};
use crate::scan::{
    all_digits, char_at, char_at_exec, collect_ascii_digits, decimal_value, digits_value, is_digit,
    lemma_two_digits, run_end, CharClass,
};
use vstd::string::StrSliceExecFns;

verus! {

/// An offset from UTC as signed hours and minutes; the sign applies to both.
#[derive(Debug, Clone, Copy, PartialEq, Eq, Structural)]
pub struct TimeZoneOffset {
    pub hours: i32,
    pub minutes: i32,
}

impl TimeZoneOffset {
    /// Hours from -23 to 23 and minutes from -59 to 59.
    pub open spec fn wf(self) -> bool {
        &&& -23 <= self.hours <= 23
        &&& -59 <= self.minutes <= 59
    }

    pub fn new(hours: i32, minutes: i32) -> (r: Self)
        requires
            (TimeZoneOffset { hours, minutes }).wf(),
        ensures
            r == (TimeZoneOffset { hours, minutes }),
    {
        TimeZoneOffset { hours, minutes }
    }

    /// The offset of `hours` (from -23 to 23) and `minutes` (from 0 to 59).
    pub fn new_opt(hours: i32, minutes: i32) -> (r: Option<Self>)
        ensures
            r == (if -23 <= hours <= 23 && 0 <= minutes <= 59 {
                Some(TimeZoneOffset { hours, minutes })
            } else {
                None
            }),
    {
        if !(-23 <= hours && hours <= 23) {
            return None;
        }
        if !(0 <= minutes && minutes <= 59) {
            return None;
        }
        Some(TimeZoneOffset::new(hours, minutes))
    }

    pub fn hours(&self) -> (r: i32)
        ensures
            r == self.hours,
    {
        self.hours
    }

    pub fn minutes(&self) -> (r: i32)
        ensures
            r == self.minutes,
    {
        self.minutes
    }
}

/// The sign that starts a numeric offset.
#[derive(Debug, Clone, Copy, PartialEq, Eq, Structural)]
pub enum TimeZoneSign {
    Positive,
    Negative,
}

impl TimeZoneSign {
    /// The sign that `value` writes: `+` or `-`.
    pub fn try_from(value: char) -> (r: Result<TimeZoneSign, ()>)
        ensures
            r == (if value == '+' {
                Ok(TimeZoneSign::Positive)
            } else if value == '-' {
                Ok(TimeZoneSign::Negative)
            } else {
                Err(())
            }),
    {
        match value {
            '+' => Ok(TimeZoneSign::Positive),
            '-' => Ok(TimeZoneSign::Negative),
            _ => Err(()),
        }
    }
}

/// The unsigned hours and minutes written at `q`, after a sign: two digits, a
/// colon and two digits, or four digits; and the position after them.
pub open spec fn offset_fields(s: Seq<char>, q: int) -> Option<(nat, nat, int)> {
    let de = run_end(s, q, CharClass::AsciiDigit);
    if de - q == 2 {
        if char_at(s, de) != Some(':') {
            None
        } else {
            match two_digit_field(s, de + 1) {
                Some((m, me)) => Some((digits_value(s.subrange(q, de)), m, me)),
                None => None,
            }
        }
    } else if de - q == 4 {
        Some((digits_value(s.subrange(q, q + 2)), digits_value(s.subrange(q + 2, de)), de))
    } else {
        None
    }
}

/// The offset written at `p`: "Z" is no offset; a sign is followed by hours
/// up to 23 and minutes up to 59; anything else is no offset, with nothing
/// consumed.
pub open spec fn spec_timezone_offset_component(s: Seq<char>, p: int) -> Option<
    (TimeZoneOffset, int),
> {
    match char_at(s, p) {
        Some(c) => if c == 'Z' {
            Some((TimeZoneOffset { hours: 0, minutes: 0 }, p + 1))
        } else if c == '+' || c == '-' {
            match offset_fields(s, p + 1) {
                Some((h, m, e)) => if h > 23 || m > 59 {
                    None
                } else if c == '-' {
                    Some((TimeZoneOffset { hours: -h as i32, minutes: -m as i32 }, e))
                } else {
                    Some((TimeZoneOffset { hours: h as i32, minutes: m as i32 }, e))
                },
                None => None,
            }
        } else {
            Some((TimeZoneOffset { hours: 0, minutes: 0 }, p))
        },
        None => Some((TimeZoneOffset { hours: 0, minutes: 0 }, p)),
    }
}

/// The offset that the whole of `s` writes.
pub open spec fn spec_parse_timezone_offset(s: Seq<char>) -> Option<TimeZoneOffset> {
    match spec_timezone_offset_component(s, 0) {
        Some((v, e)) => if e == s.len() {
            Some(v)
        } else {
            None
        },
        None => None,
    }
}

/// Parses a time-zone offset string: the whole input must be an offset.
pub fn parse_timezone_offset(s: &str) -> (r: Option<TimeZoneOffset>)
    ensures
        r == spec_parse_timezone_offset(s@),
        r matches Some(v) ==> v.wf(),
{
    let mut position: usize = 0;
    let r = match parse_timezone_offset_component(s, &mut position) {
        Some(v) => v,
        None => return None,
    };
    if position < s.unicode_len() {
        return None;
    }
    Some(r)
}

/// Parses a time-zone offset at `position` and moves the cursor past it.
/// Where no offset begins there, it yields no offset and consumes nothing.
pub fn parse_timezone_offset_component(s: &str, position: &mut usize) -> (r: Option<
    TimeZoneOffset,
>)
    ensures
        outcome(spec_timezone_offset_component(s@, *old(position) as int), r, *final(position)),
        r matches Some(v) ==> v.wf() && (*old(position) <= s@.len() ==> *final(position)
            <= s@.len()),
{
    let char_at = char_at_exec(s, *position);
    let mut minutes: i32 = 0;
    let mut hours: i32 = 0;
    match char_at {
        Some(c) => {
            if c == 'Z' {
                *position = *position + 1;
            } else if c == '+' || c == '-' {
                let sign = match TimeZoneSign::try_from(c) {
                    Ok(sign) => sign,
                    Err(()) => return None,
                };
                *position = *position + 1;
                let start = *position;
                let collected = collect_ascii_digits(s, position);
                let collected_len = *position - start;
                proof {
                    lemma_digit_run(s@, start as int);
                }
                if collected_len == 2 {
                    proof {
                        lemma_two_digits(collected@);
                    }
                    hours = match decimal_value(collected.as_str(), 99) {
                        Some(h) => h as i32,
                        None => return None,
                    };
                    if !consume_char(s, position, ':') {
                        return None;
                    }
                    minutes = match collect_two_digit_field(s, position) {
                        Some(m) => m as i32,
                        None => return None,
                    };
                } else if collected_len == 4 {
                    let hour_str = collected.as_str().substring_char(0, 2);
                    let min_str = collected.as_str().substring_char(2, 4);
                    proof {
                        assert(hour_str@ =~= s@.subrange(start as int, start + 2));
                        assert(min_str@ =~= s@.subrange(start + 2, start + 4));
                        assert(all_digits(hour_str@)) by {
                            assert forall|i: int| 0 <= i < 2 implies is_digit(
                                #[trigger] hour_str@[i],
                            ) by {
                                assert(hour_str@[i] == collected@[i]);
                            }
                        }
                        assert(all_digits(min_str@)) by {
                            assert forall|i: int| 0 <= i < 2 implies is_digit(
                                #[trigger] min_str@[i],
                            ) by {
                                assert(min_str@[i] == collected@[i + 2]);
                            }
                        }
                        lemma_two_digits(hour_str@);
                        lemma_two_digits(min_str@);
                    }
                    hours = match decimal_value(hour_str, 99) {
                        Some(h) => h as i32,
                        None => return None,
                    };
                    minutes = match decimal_value(min_str, 99) {
                        Some(m) => m as i32,
                        None => return None,
                    };
                } else {
                    return None;
                }
                if !(0 <= hours && hours <= 23) {
                    return None;
                }
                if !(0 <= minutes && minutes <= 59) {
                    return None;
                }
                if sign == TimeZoneSign::Negative {
                    hours = -hours;
                    minutes = -minutes;
                }
            }
        },
        None => {},
    }
    Some(TimeZoneOffset { hours, minutes })
}

} // verus!
