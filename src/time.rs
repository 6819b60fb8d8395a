//! Times of day: hours and minutes, then optionally seconds with up to three
//! digits of a fraction.
use vstd::prelude::*;
use crate::calendar::{is_valid_hour, is_valid_min_or_sec};
use crate::fields::{collect_two_digit_field, consume_char, outcome, two_digit_field};
use crate::scan::{
    all_digits, char_at, collect_run, decimal_value, digits_value, is_digit, lemma_run_end_bounds,
    lemma_two_digits, run_end, CharClass,
};
use vstd::string::StrSliceExecFns;

verus! {

/// A time of day with millisecond precision.
#[derive(Debug, Clone, Copy, PartialEq, Eq, Structural)]
pub struct TimeOfDay {
    pub hour: u8,
    pub minute: u8,
    pub second: u8,
    pub millisecond: u16,
}

impl TimeOfDay {
    pub open spec fn wf(self) -> bool {
        self.hour <= 23 && self.minute <= 59 && self.second <= 59 && self.millisecond <= 999
    }

    /// The time with these fields, if each is in its range.
    pub fn from_hms_milli_opt(hour: u8, minute: u8, second: u8, millisecond: u16) -> (r: Option<
        TimeOfDay,
    >)
        ensures
            r == (if (TimeOfDay { hour, minute, second, millisecond }).wf() {
                Some(TimeOfDay { hour, minute, second, millisecond })
            } else {
                None
            }),
    {
        if hour <= 23 && minute <= 59 && second <= 59 && millisecond <= 999 {
            Some(TimeOfDay { hour, minute, second, millisecond })
        } else {
            None
        }
    }

    /// The time with these fields and no fraction of a second, if each is in its range.
    pub fn from_hms_opt(hour: u8, minute: u8, second: u8) -> (r: Option<TimeOfDay>)
        ensures
            r == (if (TimeOfDay { hour, minute, second, millisecond: 0 }).wf() {
                Some(TimeOfDay { hour, minute, second, millisecond: 0 })
            } else {
                None
            }),
    {
        TimeOfDay::from_hms_milli_opt(hour, minute, second, 0)
    }

    pub fn hour(&self) -> (r: u8)
        ensures
            r == self.hour,
    {
        self.hour
    }

    pub fn minute(&self) -> (r: u8)
        ensures
            r == self.minute,
    {
        self.minute
    }

    pub fn second(&self) -> (r: u8)
        ensures
            r == self.second,
    {
        self.second
    }

    pub fn millisecond(&self) -> (r: u16)
        ensures
            r == self.millisecond,
    {
        self.millisecond
    }
}

/// How many times `c` occurs in `s`.
pub open spec fn count_char(s: Seq<char>, c: char) -> nat
    decreases s.len(),
{
    if s.len() == 0 {
        0
    } else {
        count_char(s.drop_last(), c) + if s.last() == c {
            1nat
        } else {
            0nat
        }
    }
}

pub open spec fn pow10(n: nat) -> nat
    decreases n,
{
    if n == 0 {
        1
    } else {
        10 * pow10((n - 1) as nat)
    }
}

/// Milliseconds written by a fraction of one to three digits, each digit
/// weighted by its place: "9" is 900 and "929" is 929.
pub open spec fn fraction_millis(f: Seq<char>) -> nat {
    digits_value(f) * pow10((3 - f.len()) as nat)
}

/// Whole seconds and milliseconds written by the run of digits and points
/// `c` that follows the second colon: two digits, or two digits, a point and
/// one to three digits.
pub open spec fn seconds_field(c: Seq<char>) -> Option<(nat, nat)> {
    if c.len() == 2 && count_char(c, '.') == 0 {
        Some((digits_value(c), 0))
    } else if 4 <= c.len() <= 6 && c[2] == '.' && count_char(c, '.') == 1 {
        Some((digits_value(c.subrange(0, 2)), fraction_millis(c.subrange(3, c.len() as int))))
    } else {
        None
    }
}

/// The time of day written at `p`.
pub open spec fn spec_time_component(s: Seq<char>, p: int) -> Option<(TimeOfDay, int)> {
    match two_digit_field(s, p) {
        Some((h, he)) => if h > 23 || char_at(s, he) != Some(':') {
            None
        } else {
            match two_digit_field(s, he + 1) {
                Some((m, me)) => if m > 59 {
                    None
                } else if char_at(s, me) == Some(':') {
                    let ce = run_end(s, me + 1, CharClass::DigitOrDot);
                    match seconds_field(s.subrange(me + 1, ce)) {
                        Some((sec, ms)) => if sec > 59 {
                            None
                        } else {
                            Some(
                                (
                                    TimeOfDay {
                                        hour: h as u8,
                                        minute: m as u8,
                                        second: sec as u8,
                                        millisecond: ms as u16,
                                    },
                                    ce,
                                ),
                            )
                        },
                        None => None,
                    }
                } else {
                    Some((TimeOfDay { hour: h as u8, minute: m as u8, second: 0, millisecond: 0 }, me))
                },
                None => None,
            }
        },
        None => None,
    }
}

/// The time of day that the whole of `s` writes.
pub open spec fn spec_parse_time(s: Seq<char>) -> Option<TimeOfDay> {
    match spec_time_component(s, 0) {
        Some((v, e)) => if e == s.len() {
            Some(v)
        } else {
            None
        },
        None => None,
    }
}

pub proof fn lemma_count_split(s: Seq<char>, k: int, c: char)
    requires
        0 <= k <= s.len(),
    ensures
        count_char(s, c) == count_char(s.subrange(0, k), c) + count_char(
            s.subrange(k, s.len() as int),
            c,
        ),
    decreases s.len(),
{
    if k == s.len() {
        assert(s.subrange(0, k) =~= s);
        assert(s.subrange(k, s.len() as int) =~= Seq::<char>::empty());
    } else {
        lemma_count_split(s.drop_last(), k, c);
        assert(s.drop_last().subrange(0, k) =~= s.subrange(0, k));
        assert(s.subrange(k, s.len() as int).drop_last() =~= s.drop_last().subrange(
            k,
            s.drop_last().len() as int,
        ));
    }
}

pub proof fn lemma_count_zero(s: Seq<char>, c: char)
    requires
        count_char(s, c) == 0,
    ensures
        forall|i: int| 0 <= i < s.len() ==> s[i] != c,
    decreases s.len(),
{
    if s.len() > 0 {
        lemma_count_zero(s.drop_last(), c);
        assert forall|i: int| 0 <= i < s.len() implies s[i] != c by {
            if i < s.len() - 1 {
                assert(s[i] == s.drop_last()[i]);
            }
        }
    }
}

/// A run of digits and points with no point is a run of digits.
proof fn lemma_no_point_digits(c: Seq<char>)
    requires
        forall|i: int| 0 <= i < c.len() ==> #[trigger] CharClass::DigitOrDot.spec_accepts(c[i]),
        count_char(c, '.') == 0,
    ensures
        all_digits(c),
{
    lemma_count_zero(c, '.');
    assert forall|i: int| 0 <= i < c.len() implies is_digit(#[trigger] c[i]) by {
        assert(CharClass::DigitOrDot.spec_accepts(c[i]));
    }
}

pub proof fn lemma_digits_value_bound(d: Seq<char>)
    requires
        all_digits(d),
    ensures
        digits_value(d) < pow10(d.len()),
    decreases d.len(),
{
    if d.len() > 0 {
        assert(all_digits(d.drop_last())) by {
            assert forall|i: int| 0 <= i < d.drop_last().len() implies is_digit(
                #[trigger] d.drop_last()[i],
            ) by {
                assert(d.drop_last()[i] == d[i]);
            }
        }
        lemma_digits_value_bound(d.drop_last());
        assert(is_digit(d[d.len() - 1]));
    }
}

/// In a run of digits and points that holds one point, after two digits, the
/// parts before and after the point are digits, and the field it writes is
/// in range.
pub proof fn lemma_seconds_fraction_field(c: Seq<char>)
    requires
        forall|i: int| 0 <= i < c.len() ==> #[trigger] CharClass::DigitOrDot.spec_accepts(c[i]),
        4 <= c.len() <= 6,
        c[2] == '.',
        count_char(c, '.') == 1,
    ensures
        all_digits(c.subrange(0, 2)),
        all_digits(c.subrange(3, c.len() as int)),
        seconds_field(c) matches Some((sec, ms)) && sec <= 99 && ms <= 999,
{
    let n = c.len();
    let whole = c.subrange(0, 2);
    let fraction = c.subrange(3, n as int);
    lemma_count_split(c, 2, '.');
    let rest = c.subrange(2, n as int);
    lemma_count_split(rest, 1, '.');
    assert(rest.subrange(0, 1) =~= seq!['.']);
    reveal_with_fuel(count_char, 2);
    assert(count_char(seq!['.'], '.') == 1);
    assert(rest.subrange(1, rest.len() as int) =~= fraction);
    assert forall|i: int| 0 <= i < whole.len() implies #[trigger] CharClass::DigitOrDot.spec_accepts(
        whole[i],
    ) by {
        assert(whole[i] == c[i]);
    }
    assert forall|i: int| 0 <= i < fraction.len() implies #[trigger] CharClass::DigitOrDot.spec_accepts(
        fraction[i],
    ) by {
        assert(fraction[i] == c[i + 3]);
    }
    lemma_no_point_digits(whole);
    lemma_no_point_digits(fraction);
    lemma_two_digits(whole);
    lemma_digits_value_bound(fraction);
    reveal_with_fuel(pow10, 4);
    let f = digits_value(fraction);
    let w = pow10((3 - fraction.len()) as nat);
    assert(f * w <= 999) by (nonlinear_arith)
        requires
            (w == 100 && f < 10) || (w == 10 && f < 100) || (w == 1 && f < 1000),
    ;
}

/// A time of day that the grammar gives is in range.
pub proof fn lemma_time_component_wf(s: Seq<char>, p: int)
    requires
        0 <= p,
    ensures
        spec_time_component(s, p) matches Some((v, e)) ==> v.wf() && e <= s.len() || p > s.len(),
{
    if let Some((v, e)) = spec_time_component(s, p) {
        if p <= s.len() {
            let (h, he) = two_digit_field(s, p)->0;
            let (m, me) = two_digit_field(s, he + 1)->0;
            crate::fields::lemma_digit_run(s, p);
            lemma_two_digits(s.subrange(p, he));
            crate::fields::lemma_digit_run(s, he + 1);
            lemma_two_digits(s.subrange(he + 1, me));
            if char_at(s, me) == Some(':') {
                lemma_run_end_bounds(s, me + 1, CharClass::DigitOrDot);
                let ce = run_end(s, me + 1, CharClass::DigitOrDot);
                let c = s.subrange(me + 1, ce);
                assert forall|i: int| 0 <= i < c.len() implies #[trigger] CharClass::DigitOrDot.spec_accepts(c[i]) by {
                    assert(c[i] == s[me + 1 + i]);
                }
                if c.len() != 2 {
                    lemma_seconds_fraction_field(c);
                }
            }
        }
    }
}

/// Whether `c` occurs at least `n` times in `s`.
fn has_at_least_n_instances(s: &str, c: char, n: usize) -> (r: bool)
    ensures
        r == (count_char(s@, c) >= n),
{
    if n == 0 {
        return true;
    }
    let len = s.unicode_len();
    let mut count: usize = 0;
    let mut i: usize = 0;
    while i < len
        invariant
            0 <= i <= len,
            len == s@.len(),
            n > 0,
            count == count_char(s@.subrange(0, i as int), c),
            count < n,
            count <= i,
        decreases len - i,
    {
        proof {
            assert(s@.subrange(0, i + 1).drop_last() =~= s@.subrange(0, i as int));
        }
        if s.get_char(i) == c {
            count = count + 1;
            if count >= n {
                proof {
                    lemma_count_split(s@, i + 1, c);
                }
                return true;
            }
        }
        i = i + 1;
    }
    proof {
        assert(s@.subrange(0, len as int) =~= s@);
    }
    false
}

/// Splits the field after the second colon into whole seconds and milliseconds.
fn parse_seconds_milliseconds(c: &str) -> (r: Option<(u8, u16)>)
    requires
        forall|i: int| 0 <= i < c@.len() ==> #[trigger] CharClass::DigitOrDot.spec_accepts(c@[i]),
    ensures
        match seconds_field(c@) {
            Some((sec, ms)) => r == Some((sec as u8, ms as u16)) && sec <= 99 && ms <= 999,
            None => r is None,
        },
{
    let n = c.unicode_len();
    if n == 2 && !has_at_least_n_instances(c, '.', 1) {
        proof {
            lemma_no_point_digits(c@);
            lemma_two_digits(c@);
        }
        return match decimal_value(c, 99) {
            Some(v) => Some((v as u8, 0)),
            None => None,
        };
    }
    if n < 4 || n > 6 || c.get_char(2) != '.' || has_at_least_n_instances(c, '.', 2) {
        return None;
    }
    let whole = c.substring_char(0, 2);
    let fraction = c.substring_char(3, n);
    proof {
        if count_char(c@, '.') == 0 {
            lemma_count_zero(c@, '.');
        }
        lemma_seconds_fraction_field(c@);
        assert(c@.subrange(0, 2) =~= whole@);
        assert(c@.subrange(3, n as int) =~= fraction@);
        lemma_two_digits(whole@);
        lemma_digits_value_bound(fraction@);
        reveal_with_fuel(pow10, 4);
    }
    let seconds = match decimal_value(whole, 99) {
        Some(v) => v as u8,
        None => return None,
    };
    let digits = match decimal_value(fraction, 999) {
        Some(v) => v as u16,
        None => return None,
    };
    let weight: u16 = if n == 4 {
        100
    } else if n == 5 {
        10
    } else {
        1
    };
    proof {
        assert(digits * weight <= 999) by (nonlinear_arith)
            requires
                (weight == 100 && digits < 10) || (weight == 10 && digits < 100) || (weight == 1
                    && digits < 1000),
        ;
    }
    Some((seconds, digits * weight))
}

/// Parses a time string: the whole input must be a time of day.
pub fn parse_time(s: &str) -> (r: Option<TimeOfDay>)
    ensures
        r == spec_parse_time(s@),
        r matches Some(v) ==> v.wf(),
{
    let mut position: usize = 0;
    let r = match parse_time_component(s, &mut position) {
        Some(v) => v,
        None => return None,
    };
    if position < s.unicode_len() {
        return None;
    }
    Some(r)
}

/// Parses a time of day at `position` and moves the cursor past it.
pub fn parse_time_component(s: &str, position: &mut usize) -> (r: Option<TimeOfDay>)
    ensures
        outcome(spec_time_component(s@, *old(position) as int), r, *final(position)),
        r matches Some(v) ==> v.wf() && *final(position) <= s@.len(),
{
    let hour = match collect_two_digit_field(s, position) {
        Some(h) => h,
        None => return None,
    };
    if !is_valid_hour(&hour) {
        return None;
    }
    if !consume_char(s, position, ':') {
        return None;
    }
    let minute = match collect_two_digit_field(s, position) {
        Some(m) => m,
        None => return None,
    };
    if !is_valid_min_or_sec(&minute) {
        return None;
    }
    let mut second: u8 = 0;
    let mut millisecond: u16 = 0;
    if consume_char(s, position, ':') {
        let start = *position;
        let parsed_second = collect_run(s, position, CharClass::DigitOrDot);
        proof {
            lemma_run_end_bounds(s@, start as int, CharClass::DigitOrDot);
            assert forall|i: int| 0 <= i < parsed_second@.len() implies #[trigger] CharClass::DigitOrDot.spec_accepts(parsed_second@[i]) by {
                assert(parsed_second@[i] == s@[start + i]);
            }
        }
        let (sec, ms) = match parse_seconds_milliseconds(parsed_second.as_str()) {
            Some(p) => p,
            None => return None,
        };
        if !is_valid_min_or_sec(&sec) {
            return None;
        }
        second = sec;
        millisecond = ms;
    }
    Some(TimeOfDay { hour, minute, second, millisecond })
}

} // verus!
