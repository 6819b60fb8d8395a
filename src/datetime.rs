//! Local and global date-times: a date, "T" or a space, a time of day and,
//! for a global one, a time-zone offset.
use vstd::prelude::*;
use crate::date::{parse_date_component, spec_date_component, Date};
use crate::scan::{char_at, char_at_exec};
use crate::time::{parse_time_component, spec_time_component, TimeOfDay};
use crate::timezone_offset::{parse_timezone_offset_component, spec_timezone_offset_component, TimeZoneOffset};
use vstd::string::StrSliceExecFns;

verus! {

/// A date and a time of day, in no particular time zone.
#[derive(Debug, Clone, Copy, PartialEq, Eq, Structural)]
pub struct LocalDateTime {
    pub date: Date,
    pub time: TimeOfDay,
}

impl LocalDateTime {
    pub open spec fn wf(self) -> bool {
        self.date.wf() && self.time.wf()
    }

    pub fn new(date: Date, time: TimeOfDay) -> (r: Self)
        ensures
            r == (LocalDateTime { date, time }),
    {
        LocalDateTime { date, time }
    }

    pub fn date(&self) -> (r: Date)
        ensures
            r == self.date,
    {
        self.date
    }

    pub fn time(&self) -> (r: TimeOfDay)
        ensures
            r == self.time,
    {
        self.time
    }
}

/// A date and a time of day in UTC.
#[derive(Debug, Clone, Copy, PartialEq, Eq, Structural)]
pub struct GlobalDateTime {
    pub date: Date,
    pub time: TimeOfDay,
}

impl GlobalDateTime {
    pub open spec fn wf(self) -> bool {
        self.date.wf() && self.time.wf()
    }

    pub fn new(date: Date, time: TimeOfDay) -> (r: Self)
        ensures
            r == (GlobalDateTime { date, time }),
    {
        GlobalDateTime { date, time }
    }

    pub fn date(&self) -> (r: Date)
        ensures
            r == self.date,
    {
        self.date
    }

    pub fn time(&self) -> (r: TimeOfDay)
        ensures
            r == self.time,
    {
        self.time
    }
}

pub open spec fn is_datetime_delimiter(c: Option<char>) -> bool {
    c == Some('T') || c == Some(' ')
}

/// The local date-time written at `p`.
pub open spec fn spec_local_datetime_component(s: Seq<char>, p: int) -> Option<
    (LocalDateTime, int),
> {
    match spec_date_component(s, p) {
        Some((d, e)) => if !is_datetime_delimiter(char_at(s, e)) {
            None
        } else {
            match spec_time_component(s, e + 1) {
                Some((t, te)) => Some((LocalDateTime { date: d, time: t }, te)),
                None => None,
            }
        },
        None => None,
    }
}

/// The local date-time that the whole of `s` writes.
pub open spec fn spec_parse_local_datetime(s: Seq<char>) -> Option<LocalDateTime> {
    match spec_local_datetime_component(s, 0) {
        Some((v, e)) => if e == s.len() {
            Some(v)
        } else {
            None
        },
        None => None,
    }
}

/// Parses a local date-time string: the whole input must be a date, "T" or
/// a space, and a time of day.
pub fn parse_local_datetime(s: &str) -> (r: Option<LocalDateTime>)
    ensures
        r == spec_parse_local_datetime(s@),
        r matches Some(v) ==> v.wf(),
{
    let mut position: usize = 0;
    let date = match parse_date_component(s, &mut position) {
        Some(d) => d,
        None => return None,
    };
    let last_char = char_at_exec(s, position);
    if !(last_char == Some('T') || last_char == Some(' ')) {
        return None;
    }
    position = position + 1;
    let time = match parse_time_component(s, &mut position) {
        Some(t) => t,
        None => return None,
    };
    if position < s.unicode_len() {
        return None;
    }
    Some(LocalDateTime::new(date, time))
}

pub const MILLIS_PER_DAY: i64 = 86_400_000;

/// Milliseconds since midnight.
pub open spec fn millis_of_day(t: TimeOfDay) -> int {
    ((t.hour * 60 + t.minute) * 60 + t.second) * 1000 + t.millisecond
}

/// The time of day `x` milliseconds after midnight, for `x` within one day.
pub open spec fn time_from_millis(x: int) -> TimeOfDay {
    TimeOfDay {
        hour: (x / 3_600_000) as u8,
        minute: ((x / 60_000) % 60) as u8,
        second: ((x / 1000) % 60) as u8,
        millisecond: (x % 1000) as u16,
    }
}

/// The offset as a signed count of minutes.
pub open spec fn offset_minutes(offset: TimeZoneOffset) -> int {
    offset.hours * 60 + offset.minutes
}

/// The time of day `t` moved back by `offset`, wrapping around midnight;
/// the date is not changed.
pub open spec fn shift_time(t: TimeOfDay, offset: TimeZoneOffset) -> TimeOfDay {
    time_from_millis((millis_of_day(t) - offset_minutes(offset) * 60_000) % (MILLIS_PER_DAY as int))
}

/// The global date-time written at `p`: a local date-time followed by an
/// offset (no offset where none is written there), with the time of day
/// moved to UTC.
pub open spec fn spec_global_datetime_component(s: Seq<char>, p: int) -> Option<
    (GlobalDateTime, int),
> {
    match spec_local_datetime_component(s, p) {
        Some((l, te)) => match spec_timezone_offset_component(s, te) {
            Some((z, ze)) => Some(
                (GlobalDateTime { date: l.date, time: shift_time(l.time, z) }, ze),
            ),
            None => None,
        },
        None => None,
    }
}

/// The global date-time that the whole of `s` writes.
pub open spec fn spec_parse_global_datetime(s: Seq<char>) -> Option<GlobalDateTime> {
    match spec_global_datetime_component(s, 0) {
        Some((v, e)) => if e == s.len() {
            Some(v)
        } else {
            None
        },
        None => None,
    }
}

/// Moves a time of day back by a time-zone offset, wrapping around midnight.
pub fn subtract_offset(t: TimeOfDay, offset: TimeZoneOffset) -> (r: TimeOfDay)
    requires
        t.wf(),
        offset.wf(),
    ensures
        r == shift_time(t, offset),
        r.wf(),
{
    let ms: i64 = ((t.hour as i64 * 60 + t.minute as i64) * 60 + t.second as i64) * 1000
        + t.millisecond as i64;
    let delta: i64 = (offset.hours as i64 * 60 + offset.minutes as i64) * 60_000;
    let x = ms - delta;
    let w: i64 = if x < 0 {
        x + MILLIS_PER_DAY
    } else if x >= MILLIS_PER_DAY {
        x - MILLIS_PER_DAY
    } else {
        x
    };
    proof {
        let d = MILLIS_PER_DAY as int;
        assert(0 <= w < d);
        assert(w as int == (x as int) % d) by {
            if x < 0 {
                assert((x as int) % d == x + d);
            } else if x >= d {
                assert((x as int) % d == x - d);
            } else {
                assert((x as int) % d == x);
            }
        }
    }
    TimeOfDay {
        hour: (w / 3_600_000) as u8,
        minute: ((w / 60_000) % 60) as u8,
        second: ((w / 1000) % 60) as u8,
        millisecond: (w % 1000) as u16,
    }
}

/// Parses a global date-time string: the whole input must be a local
/// date-time and a time-zone offset. The time of day is moved to UTC by
/// subtracting the offset and wraps around midnight without changing the date.
pub fn parse_global_datetime(s: &str) -> (r: Option<GlobalDateTime>)
    ensures
        r == spec_parse_global_datetime(s@),
        r matches Some(v) ==> v.wf(),
{
    let mut position: usize = 0;
    let date = match parse_date_component(s, &mut position) {
        Some(d) => d,
        None => return None,
    };
    let last_char = char_at_exec(s, position);
    if !(last_char == Some('T') || last_char == Some(' ')) {
        return None;
    }
    position = position + 1;
    let time = match parse_time_component(s, &mut position) {
        Some(t) => t,
        None => return None,
    };
    let timezone_offset = match parse_timezone_offset_component(s, &mut position) {
        Some(z) => z,
        None => return None,
    };
    if position < s.unicode_len() {
        return None;
    }
    Some(GlobalDateTime::new(date, subtract_offset(time, timezone_offset)))
}

} // verus!
