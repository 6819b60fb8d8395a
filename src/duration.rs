//! Durations in the ISO 8601-like form, such as "P4DT12H30M5S", where the
//! letter M means months or minutes depending on what came before it.
use vstd::prelude::*;
use crate::scan::{
    all_digits, char_at, char_at_exec, collect_ascii_digits, decimal_value, digits_value, is_digit,
    is_whitespace, lemma_run_end_bounds, run_end, skip_ascii_whitespace, CharClass,
};
use crate::time::{lemma_digits_value_bound, pow10};
use vstd::string::StrSliceExecFns;

verus! {

/// An elapsed time with millisecond precision.
#[derive(Debug, Clone, Copy, PartialEq, Eq, Structural)]
pub struct Duration {
    pub milliseconds: u64,
}

impl Duration {
    /// The duration of `seconds` whole seconds.
    pub fn seconds(seconds: u64) -> (r: Duration)
        requires
            seconds <= u64::MAX / 1000,
        ensures
            r.milliseconds == seconds * 1000,
    {
        Duration { milliseconds: seconds * 1000 }
    }

    pub fn milliseconds(milliseconds: u64) -> (r: Duration)
        ensures
            r.milliseconds == milliseconds,
    {
        Duration { milliseconds }
    }

    /// The whole seconds of the duration.
    pub fn num_seconds(&self) -> (r: u64)
        ensures
            r == self.milliseconds / 1000,
    {
        self.milliseconds / 1000
    }

    pub fn num_milliseconds(&self) -> (r: u64)
        ensures
            r == self.milliseconds,
    {
        self.milliseconds
    }
}

/// Which unit the letter M stands for at the current point of a duration.
#[derive(Debug, Clone, Copy, PartialEq, Eq, Structural)]
pub enum MDisambig {
    Month,
    Minute,
}

#[derive(Debug, Clone, Copy, PartialEq, Eq, Structural)]
pub enum DurationUnit {
    Year,
    Month,
    Week,
    Day,
    Hour,
    Minute,
    Second,
}

/// The unit that a letter names, and what M means after it: a year makes
/// the next M a month, every other unit makes it a minute.
pub open spec fn spec_unit_of_letter(c: char, m_disambig: MDisambig) -> Option<
    (DurationUnit, MDisambig),
> {
    if c == 'Y' || c == 'y' {
        Some((DurationUnit::Year, MDisambig::Month))
    } else if c == 'M' || c == 'm' {
        if m_disambig == MDisambig::Month {
            Some((DurationUnit::Month, MDisambig::Minute))
        } else {
            Some((DurationUnit::Minute, MDisambig::Minute))
        }
    } else if c == 'W' || c == 'w' {
        Some((DurationUnit::Week, MDisambig::Minute))
    } else if c == 'D' || c == 'd' {
        Some((DurationUnit::Day, MDisambig::Minute))
    } else if c == 'H' || c == 'h' {
        Some((DurationUnit::Hour, MDisambig::Minute))
    } else if c == 'S' || c == 's' {
        Some((DurationUnit::Second, MDisambig::Minute))
    } else {
        None
    }
}

/// Months that `n` of `unit` add up to: a year is 12 months.
pub open spec fn unit_months(unit: DurationUnit, n: nat) -> nat {
    match unit {
        DurationUnit::Year => n * 12,
        DurationUnit::Month => n,
        _ => 0,
    }
}

/// Milliseconds that `n` of `unit` add up to: a week is 7 days, a day 24
/// hours, an hour 60 minutes and a minute 60 seconds.
pub open spec fn unit_millis(unit: DurationUnit, n: nat) -> nat {
    match unit {
        DurationUnit::Week => n * (7 * 24 * 60 * 60 * 1000),
        DurationUnit::Day => n * (24 * 60 * 60 * 1000),
        DurationUnit::Hour => n * (60 * 60 * 1000),
        DurationUnit::Minute => n * (60 * 1000),
        DurationUnit::Second => n * 1000,
        _ => 0,
    }
}

/// The number that starts a component at `p`: a run of digits, or zero
/// where a decimal point comes first; and the position after it.
pub open spec fn leading_number(s: Seq<char>, p: int) -> Option<(nat, int)> {
    match char_at(s, p) {
        Some(c) => if c == '.' {
            Some((0, p))
        } else if is_digit(c) {
            let e = run_end(s, p, CharClass::AsciiDigit);
            Some((digits_value(s.subrange(p, e)), e))
        } else {
            None
        },
        None => None,
    }
}

/// Milliseconds that the digits after a decimal point write; digits past
/// the third are dropped.
pub open spec fn fraction_to_millis(f: Seq<char>) -> nat {
    if f.len() >= 3 {
        digits_value(f.subrange(0, 3))
    } else {
        digits_value(f) * pow10((3 - f.len()) as nat)
    }
}

/// One component at `p`: the months and milliseconds it adds, what M means
/// after it, and the position after its unit letter. A number with a
/// fraction must be seconds.
pub open spec fn duration_component(s: Seq<char>, p: int, m_disambig: MDisambig) -> Option<
    (nat, nat, MDisambig, int),
> {
    match leading_number(s, p) {
        Some((n, q)) => match char_at(s, q) {
            Some(c) => if c == '.' {
                let fe = run_end(s, q + 1, CharClass::AsciiDigit);
                let we = run_end(s, fe, CharClass::AsciiWhitespace);
                if fe == q + 1 {
                    None
                } else if char_at(s, we) == Some('S') || char_at(s, we) == Some('s') {
                    Some(
                        (
                            0,
                            n * 1000 + fraction_to_millis(s.subrange(q + 1, fe)),
                            MDisambig::Minute,
                            we + 1,
                        ),
                    )
                } else {
                    None
                }
            } else {
                let ue = if is_whitespace(c) {
                    run_end(s, q, CharClass::AsciiWhitespace)
                } else {
                    q
                };
                match char_at(s, ue) {
                    Some(u) => match spec_unit_of_letter(u, m_disambig) {
                        Some((unit, next)) => Some(
                            (unit_months(unit, n), unit_millis(unit, n), next, ue + 1),
                        ),
                        None => None,
                    },
                    None => None,
                }
            },
            None => None,
        },
        None => None,
    }
}

pub proof fn lemma_component_advances(s: Seq<char>, p: int, m_disambig: MDisambig)
    requires
        0 <= p,
        duration_component(s, p, m_disambig) is Some,
    ensures
        duration_component(s, p, m_disambig) matches Some((_, _, _, e)) && p < e <= s.len(),
{
    lemma_run_end_bounds(s, p, CharClass::AsciiDigit);
    let (n, q) = leading_number(s, p)->0;
    lemma_run_end_bounds(s, q, CharClass::AsciiWhitespace);
    lemma_run_end_bounds(s, q + 1, CharClass::AsciiDigit);
    let fe = run_end(s, q + 1, CharClass::AsciiDigit);
    lemma_run_end_bounds(s, fe, CharClass::AsciiWhitespace);
}

/// The components from `p` on, with the months, milliseconds and number of
/// components gathered so far; `None` where the text breaks the grammar.
pub open spec fn duration_loop(
    s: Seq<char>,
    p: int,
    m_disambig: MDisambig,
    months: nat,
    millis: nat,
    count: nat,
) -> Option<(nat, nat, nat)>
    decreases s.len() - p,
{
    if p < 0 || p >= s.len() {
        Some((months, millis, count))
    } else if s[p] == 'T' {
        proof {
            lemma_run_end_bounds(s, p + 1, CharClass::AsciiWhitespace);
        }
        duration_loop(
            s,
            run_end(s, p + 1, CharClass::AsciiWhitespace),
            MDisambig::Minute,
            months,
            millis,
            count,
        )
    } else {
        match duration_component(s, p, m_disambig) {
            Some((dm, dms, next, e)) => {
                proof {
                    lemma_component_advances(s, p, m_disambig);
                    lemma_run_end_bounds(s, e, CharClass::AsciiWhitespace);
                }
                duration_loop(
                    s,
                    run_end(s, e, CharClass::AsciiWhitespace),
                    next,
                    months + dm,
                    millis + dms,
                    count + 1,
                )
            },
            None => None,
        }
    }
}

/// What the loop's totals come to: no component, or any month, is a rejection,
/// as is a total that does not fit in `u64` milliseconds.
pub open spec fn finish_duration(totals: Option<(nat, nat, nat)>) -> Option<Duration> {
    match totals {
        Some((months, millis, count)) => if count == 0 || months != 0 || millis > u64::MAX {
            None
        } else {
            Some(Duration { milliseconds: millis as u64 })
        },
        None => None,
    }
}

/// The duration that `s` writes. Leading whitespace is skipped; a leading P
/// is consumed and makes M a minute until a year is read; without it M
/// starts as a month.
pub open spec fn spec_parse_duration(s: Seq<char>) -> Option<Duration> {
    let p0 = run_end(s, 0, CharClass::AsciiWhitespace);
    if char_at(s, p0) == Some('P') {
        finish_duration(
            duration_loop(
                s,
                run_end(s, p0 + 1, CharClass::AsciiWhitespace),
                MDisambig::Minute,
                0,
                0,
                0,
            ),
        )
    } else {
        finish_duration(duration_loop(s, p0, MDisambig::Month, 0, 0, 0))
    }
}

/// The totals that the loop reaches are at least those it starts from.
pub proof fn lemma_loop_monotone(
    s: Seq<char>,
    p: int,
    m_disambig: MDisambig,
    months: nat,
    millis: nat,
    count: nat,
)
    ensures
        duration_loop(s, p, m_disambig, months, millis, count) matches Some((m, t, c)) ==> m
            >= months && t >= millis && c >= count,
    decreases s.len() - p,
{
    if p < 0 || p >= s.len() {
    } else if s[p] == 'T' {
        lemma_run_end_bounds(s, p + 1, CharClass::AsciiWhitespace);
        lemma_loop_monotone(
            s,
            run_end(s, p + 1, CharClass::AsciiWhitespace),
            MDisambig::Minute,
            months,
            millis,
            count,
        );
    } else {
        match duration_component(s, p, m_disambig) {
            Some((dm, dms, next, e)) => {
                lemma_component_advances(s, p, m_disambig);
                lemma_run_end_bounds(s, e, CharClass::AsciiWhitespace);
                lemma_loop_monotone(
                    s,
                    run_end(s, e, CharClass::AsciiWhitespace),
                    next,
                    months + dm,
                    millis + dms,
                    count + 1,
                );
            },
            None => {},
        }
    }
}

/// The largest number a component may hold: any larger one gives a month or
/// more milliseconds than `u64` holds.
pub const MAX_NUMBER: u64 = u64::MAX / 1000;

/// A component whose number exceeds `MAX_NUMBER` holds a month or more
/// milliseconds than `u64` holds.
proof fn lemma_large_number(s: Seq<char>, p: int, m_disambig: MDisambig)
    requires
        leading_number(s, p) matches Some((n, _)) && n > MAX_NUMBER,
    ensures
        duration_component(s, p, m_disambig) matches Some((dm, dms, _, _)) ==> dm > 0 || dms
            > u64::MAX,
{
    let (n, q) = leading_number(s, p)->0;
    assert(n * 1000 > u64::MAX);
    if let Some((dm, dms, next, e)) = duration_component(s, p, m_disambig) {
        let c = s[q];
        if c != '.' {
            let ue = if is_whitespace(c) {
                run_end(s, q, CharClass::AsciiWhitespace)
            } else {
                q
            };
            let (unit, nx) = spec_unit_of_letter(s[ue], m_disambig)->0;
            assert(dm == unit_months(unit, n));
            assert(dms == unit_millis(unit, n));
            match unit {
                DurationUnit::Year => assert(dm > 0),
                DurationUnit::Month => assert(dm > 0),
                DurationUnit::Week => {
                    assert(dms > u64::MAX) by (nonlinear_arith)
                        requires
                            dms == n * (7 * 24 * 60 * 60 * 1000), n * 1000 > u64::MAX,
                    ;
                },
                DurationUnit::Day => {
                    assert(dms > u64::MAX) by (nonlinear_arith)
                        requires
                            dms == n * (24 * 60 * 60 * 1000), n * 1000 > u64::MAX,
                    ;
                },
                DurationUnit::Hour => {
                    assert(dms > u64::MAX) by (nonlinear_arith)
                        requires
                            dms == n * (60 * 60 * 1000), n * 1000 > u64::MAX,
                    ;
                },
                DurationUnit::Minute => {
                    assert(dms > u64::MAX) by (nonlinear_arith)
                        requires
                            dms == n * (60 * 1000), n * 1000 > u64::MAX,
                    ;
                },
                DurationUnit::Second => assert(dms > u64::MAX),
            }
        }
    }
}

/// The unit that a letter names, and what M means after it.
pub fn unit_of_letter(c: char, m_disambig: MDisambig) -> (r: Option<(DurationUnit, MDisambig)>)
    ensures
        r == spec_unit_of_letter(c, m_disambig),
{
    match c {
        'Y' | 'y' => Some((DurationUnit::Year, MDisambig::Month)),
        'M' | 'm' => {
            if m_disambig == MDisambig::Month {
                Some((DurationUnit::Month, MDisambig::Minute))
            } else {
                Some((DurationUnit::Minute, MDisambig::Minute))
            }
        },
        'W' | 'w' => Some((DurationUnit::Week, MDisambig::Minute)),
        'D' | 'd' => Some((DurationUnit::Day, MDisambig::Minute)),
        'H' | 'h' => Some((DurationUnit::Hour, MDisambig::Minute)),
        'S' | 's' => Some((DurationUnit::Second, MDisambig::Minute)),
        _ => None,
    }
}

/// Milliseconds of the digits after a decimal point, from the first three.
fn fraction_millis_exec(f: &str) -> (r: u64)
    requires
        f@.len() >= 1,
        all_digits(f@),
    ensures
        r == fraction_to_millis(f@),
{
    let n = f.unicode_len();
    if n >= 3 {
        let head = f.substring_char(0, 3);
        proof {
            assert(all_digits(head@)) by {
                assert forall|i: int| 0 <= i < head@.len() implies is_digit(#[trigger] head@[i]) by {
                    assert(head@[i] == f@[i]);
                }
            }
            lemma_digits_value_bound(head@);
            reveal_with_fuel(pow10, 4);
        }
        match decimal_value(head, 999) {
            Some(v) => v,
            None => 0,
        }
    } else {
        proof {
            lemma_digits_value_bound(f@);
            reveal_with_fuel(pow10, 4);
        }
        let v = match decimal_value(f, 99) {
            Some(v) => v,
            None => 0,
        };
        if n == 1 {
            v * 100
        } else {
            v * 10
        }
    }
}

/// Parses one component at `position` (which holds neither the end nor a T)
/// and moves the cursor past its unit letter. `None` is a rejection of the
/// whole duration: either the text breaks the grammar, or the component
/// holds a month or more milliseconds than `u64` holds.
fn parse_duration_component(input: &str, position: &mut usize, m_disambig: MDisambig) -> (r:
    Option<(u64, u64, MDisambig)>)
    ensures
        match duration_component(input@, *old(position) as int, m_disambig) {
            Some((dm, dms, next, e)) => match r {
                Some((a, b, g)) => a == dm && b == dms && g == next && *final(position) as int == e,
                None => dm > 0 || dms > u64::MAX,
            },
            None => r is None,
        },
{
    let start = *position;
    let next_char = match char_at_exec(input, start) {
        Some(c) => c,
        None => return None,
    };
    let n: u64 = if next_char == '.' {
        0
    } else if CharClass::AsciiDigit.accepts(next_char) {
        let digits = collect_ascii_digits(input, position);
        proof {
            crate::fields::lemma_digit_run(input@, start as int);
        }
        match decimal_value(digits.as_str(), MAX_NUMBER) {
            Some(v) => v,
            None => {
                proof {
                    let nn = digits_value(digits@);
                    assert(leading_number(input@, start as int) == Some((nn, *position as int)));
                    lemma_large_number(input@, start as int, m_disambig);
                }
                return None;
            },
        }
    } else {
        return None;
    };
    let q = *position;
    proof {
        lemma_run_end_bounds(input@, start as int, CharClass::AsciiDigit);
    }
    let c = match char_at_exec(input, q) {
        Some(c) => c,
        None => return None,
    };
    *position = q + 1;
    if c == '.' {
        let fs = *position;
        let fraction = collect_ascii_digits(input, position);
        if *position == fs {
            return None;
        }
        proof {
            crate::fields::lemma_digit_run(input@, fs as int);
        }
        let fms = fraction_millis_exec(fraction.as_str());
        let _ = skip_ascii_whitespace(input, position);
        let u = char_at_exec(input, *position);
        if !(u == Some('S') || u == Some('s')) {
            return None;
        }
        *position = *position + 1;
        let ms = match (n * 1000).checked_add(fms) {
            Some(ms) => ms,
            None => return None,
        };
        Some((0, ms, MDisambig::Minute))
    } else {
        let mut unit_char = c;
        if CharClass::AsciiWhitespace.accepts(c) {
            let _ = skip_ascii_whitespace(input, position);
            unit_char = match char_at_exec(input, *position) {
                Some(u) => u,
                None => return None,
            };
            *position = *position + 1;
        }
        let (unit, next) = match unit_of_letter(unit_char, m_disambig) {
            Some(p) => p,
            None => return None,
        };
        let per_unit: u64 = match unit {
            DurationUnit::Year => return Some((n * 12, 0, next)),
            DurationUnit::Month => return Some((n, 0, next)),
            DurationUnit::Week => 7 * 24 * 60 * 60 * 1000,
            DurationUnit::Day => 24 * 60 * 60 * 1000,
            DurationUnit::Hour => 60 * 60 * 1000,
            DurationUnit::Minute => 60 * 1000,
            DurationUnit::Second => 1000,
        };
        match n.checked_mul(per_unit) {
            Some(ms) => Some((0, ms, next)),
            None => None,
        }
    }
}

/// Parses a duration string into the elapsed time it writes. A duration with
/// a nonzero number of years or months is rejected, since a month has no
/// fixed length.
pub fn parse_duration(input: &str) -> (r: Option<Duration>)
    ensures
        r == spec_parse_duration(input@),
{
    let len = input.unicode_len();
    let mut position: usize = 0;
    let _ = skip_ascii_whitespace(input, &mut position);
    let mut m_disambig = MDisambig::Minute;
    if char_at_exec(input, position) == Some('P') {
        position = position + 1;
        let _ = skip_ascii_whitespace(input, &mut position);
    } else {
        m_disambig = MDisambig::Month;
    }
    proof {
        lemma_run_end_bounds(input@, 0, CharClass::AsciiWhitespace);
    }
    let mut months: u64 = 0;
    let mut millis: u64 = 0;
    let mut components_count: usize = 0;
    while position < len
        invariant
            len == input@.len(),
            position <= len,
            components_count <= position,
            spec_parse_duration(input@) == finish_duration(
                duration_loop(
                    input@,
                    position as int,
                    m_disambig,
                    months as nat,
                    millis as nat,
                    components_count as nat,
                ),
            ),
        decreases len - position,
    {
        if input.get_char(position) == 'T' {
            m_disambig = MDisambig::Minute;
            position = position + 1;
            let _ = skip_ascii_whitespace(input, &mut position);
            continue;
        }
        let ghost p = position as int;
        let ghost (m0, t0, c0, f0) = (months as nat, millis as nat, components_count as nat, m_disambig);
        let step = parse_duration_component(input, &mut position, m_disambig);
        proof {
            if let Some((dm, dms, next, e)) = duration_component(input@, p, f0) {
                lemma_component_advances(input@, p, f0);
                lemma_run_end_bounds(input@, e, CharClass::AsciiWhitespace);
                lemma_loop_monotone(
                    input@,
                    run_end(input@, e, CharClass::AsciiWhitespace),
                    next,
                    m0 + dm,
                    t0 + dms,
                    c0 + 1,
                );
            }
        }
        let (dm, dms, next) = match step {
            Some(x) => x,
            None => return None,
        };
        months = match months.checked_add(dm) {
            Some(m) => m,
            None => return None,
        };
        millis = match millis.checked_add(dms) {
            Some(t) => t,
            None => return None,
        };
        components_count = components_count + 1;
        m_disambig = next;
        let _ = skip_ascii_whitespace(input, &mut position);
    }
    if components_count == 0 {
        return None;
    }
    if months != 0 {
        return None;
    }
    Some(Duration { milliseconds: millis })
}

} // verus!
