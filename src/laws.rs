//! Laws that relate the parsers to the canonical text of their values and
//! to the text that follows a value.
use vstd::prelude::*;
use vstd::arithmetic::div_mod::lemma_fundamental_div_mod_converse;
use crate::date::{spec_date_component, spec_parse_date, Date};
use crate::datetime::{
    millis_of_day, shift_time, spec_local_datetime_component, spec_parse_global_datetime,
    spec_parse_local_datetime, time_from_millis, GlobalDateTime, LocalDateTime,
};
use crate::duration::{duration_component, duration_loop, spec_parse_duration, Duration, MDisambig};
use crate::fields::two_digit_field;
use crate::month::{spec_month_component, spec_parse_month, YearMonth};
use crate::scan::{all_digits, char_at, is_digit, run_end, CharClass};
use crate::text::{
    lemma_number_in, lemma_padded_decimal, lemma_prefix_subrange, lemma_run_end_at,
    lemma_run_in_prefix, padded_decimal,
};
use crate::time::{
    count_char, lemma_count_split, lemma_time_component_wf, spec_parse_time, spec_time_component,
    TimeOfDay,
};
use crate::timezone_offset::{
    spec_parse_timezone_offset, spec_timezone_offset_component, TimeZoneOffset,
};
use crate::week::{spec_parse_week, YearWeek};
use crate::yearless_date::{spec_parse_yearless_date, YearlessDate};

verus! {

/// The canonical text of a month: "YYYY-MM", with more year digits where needed.
pub open spec fn month_text(v: YearMonth) -> Seq<char> {
    padded_decimal(v.year as nat, 4) + seq!['-'] + padded_decimal(v.month as nat, 2)
}

/// The canonical text of a date: "YYYY-MM-DD".
pub open spec fn date_text(v: Date) -> Seq<char> {
    padded_decimal(v.year as nat, 4) + seq!['-'] + padded_decimal(v.month as nat, 2) + seq!['-']
        + padded_decimal(v.day as nat, 2)
}

/// The canonical text of a yearless date: "MM-DD".
pub open spec fn yearless_date_text(v: YearlessDate) -> Seq<char> {
    padded_decimal(v.month as nat, 2) + seq!['-'] + padded_decimal(v.day as nat, 2)
}

/// The canonical text of a week: "YYYY-Www".
pub open spec fn week_text(v: YearWeek) -> Seq<char> {
    padded_decimal(v.year as nat, 4) + seq!['-', 'W'] + padded_decimal(v.week as nat, 2)
}

/// Every year from 1 written in at least four digits, a hyphen, and every
/// month from 1 to 12 written in two digits, make a month string that parses
/// back to that year and month.
pub proof fn law_month_text_parses(year: u32, month: u8)
    requires
        year >= 1,
        1 <= month <= 12,
    ensures
        spec_parse_month(
            padded_decimal(year as nat, 4) + seq!['-'] + padded_decimal(month as nat, 2),
        ) == Some(YearMonth { year, month }),
{
    let y = padded_decimal(year as nat, 4);
    let m = padded_decimal(month as nat, 2);
    let t = y + seq!['-'] + m;
    lemma_padded_decimal(year as nat, 4);
    lemma_padded_decimal(month as nat, 2);
    lemma_number_in(Seq::empty(), year as nat, 4, seq!['-'] + m);
    assert(Seq::<char>::empty() + y + (seq!['-'] + m) =~= t);
    lemma_number_in(y + seq!['-'], month as nat, 2, Seq::empty());
    assert(y + seq!['-'] + m + Seq::<char>::empty() =~= t);
    assert(t[y.len() as int] == '-');
    assert(char_at(t, y.len() as int) == Some('-'));
}

/// Re-parsing the canonical text of a parsed month gives the same month.
pub proof fn law_month_idempotent(s: Seq<char>)
    requires
        spec_parse_month(s) is Some,
    ensures
        spec_parse_month(month_text(spec_parse_month(s)->0)) == spec_parse_month(s),
{
    let v = spec_parse_month(s)->0;
    law_month_text_parses(v.year, v.month);
}

/// The canonical text of a valid date, followed by text that does not
/// continue its day, is read as that date and nothing more.
pub proof fn lemma_date_text_component(v: Date, rest: Seq<char>)
    requires
        v.wf(),
        rest.len() == 0 || !is_digit(rest[0]),
    ensures
        spec_date_component(date_text(v) + rest, 0) == Some((v, date_text(v).len() as int)),
{
    let y = padded_decimal(v.year as nat, 4);
    let m = padded_decimal(v.month as nat, 2);
    let d = padded_decimal(v.day as nat, 2);
    let t = date_text(v) + rest;
    lemma_padded_decimal(v.year as nat, 4);
    lemma_padded_decimal(v.month as nat, 2);
    lemma_padded_decimal(v.day as nat, 2);
    lemma_number_in(Seq::empty(), v.year as nat, 4, seq!['-'] + m + seq!['-'] + d + rest);
    assert(Seq::<char>::empty() + y + (seq!['-'] + m + seq!['-'] + d + rest) =~= t);
    lemma_number_in(y + seq!['-'], v.month as nat, 2, seq!['-'] + d + rest);
    assert(y + seq!['-'] + m + (seq!['-'] + d + rest) =~= t);
    lemma_number_in(y + seq!['-'] + m + seq!['-'], v.day as nat, 2, rest);
    assert(y + seq!['-'] + m + seq!['-'] + d + rest =~= t);
    assert(t[y.len() as int] == '-');
    assert(t[y.len() + 3int] == '-');
    assert(spec_month_component(t, 0) == Some(
        (YearMonth { year: v.year, month: v.month }, y.len() + 3int),
    ));
}

/// Re-parsing the canonical text of a parsed date gives the same date.
pub proof fn law_date_idempotent(s: Seq<char>)
    requires
        spec_parse_date(s) is Some,
    ensures
        spec_parse_date(date_text(spec_parse_date(s)->0)) == spec_parse_date(s),
{
    let v = spec_parse_date(s)->0;
    lemma_date_text_component(v, Seq::empty());
    assert(date_text(v) + Seq::<char>::empty() =~= date_text(v));
}

/// Re-parsing the canonical text of a parsed yearless date gives the same value.
pub proof fn law_yearless_date_idempotent(s: Seq<char>)
    requires
        spec_parse_yearless_date(s) is Some,
    ensures
        spec_parse_yearless_date(yearless_date_text(spec_parse_yearless_date(s)->0))
            == spec_parse_yearless_date(s),
{
    let v = spec_parse_yearless_date(s)->0;
    let m = padded_decimal(v.month as nat, 2);
    let d = padded_decimal(v.day as nat, 2);
    let t = yearless_date_text(v);
    lemma_padded_decimal(v.month as nat, 2);
    lemma_padded_decimal(v.day as nat, 2);
    lemma_number_in(Seq::empty(), v.month as nat, 2, seq!['-'] + d);
    assert(Seq::<char>::empty() + m + (seq!['-'] + d) =~= t);
    lemma_number_in(m + seq!['-'], v.day as nat, 2, Seq::empty());
    assert(m + seq!['-'] + d + Seq::<char>::empty() =~= t);
    assert(t[0] == m[0]);
    assert(is_digit(m[0]));
    assert(crate::scan::run_end(t, 0, crate::scan::CharClass::Hyphen) == 0);
    assert(t[2] == '-');
}

/// Re-parsing the canonical text of a parsed week gives the same week.
pub proof fn law_week_idempotent(s: Seq<char>)
    requires
        spec_parse_week(s) is Some,
    ensures
        spec_parse_week(week_text(spec_parse_week(s)->0)) == spec_parse_week(s),
{
    let v = spec_parse_week(s)->0;
    let y = padded_decimal(v.year as nat, 4);
    let w = padded_decimal(v.week as nat, 2);
    let t = week_text(v);
    lemma_padded_decimal(v.year as nat, 4);
    lemma_padded_decimal(v.week as nat, 2);
    lemma_number_in(Seq::empty(), v.year as nat, 4, seq!['-', 'W'] + w);
    assert(Seq::<char>::empty() + y + (seq!['-', 'W'] + w) =~= t);
    lemma_number_in(y + seq!['-', 'W'], v.week as nat, 2, Seq::empty());
    assert(y + seq!['-', 'W'] + w + Seq::<char>::empty() =~= t);
    assert(t[y.len() as int] == '-');
    assert(t[y.len() + 1int] == 'W');
}

/// The canonical text of a time of day: "hh:mm:ss.sss".
pub open spec fn time_text(v: TimeOfDay) -> Seq<char> {
    padded_decimal(v.hour as nat, 2) + seq![':'] + padded_decimal(v.minute as nat, 2) + seq![':']
        + padded_decimal(v.second as nat, 2) + seq!['.'] + padded_decimal(v.millisecond as nat, 3)
}

proof fn lemma_count_concat(a: Seq<char>, b: Seq<char>, c: char)
    ensures
        count_char(a + b, c) == count_char(a, c) + count_char(b, c),
{
    lemma_count_split(a + b, a.len() as int, c);
    assert((a + b).subrange(0, a.len() as int) =~= a);
    assert((a + b).subrange(a.len() as int, (a + b).len() as int) =~= b);
}

proof fn lemma_digits_have_no_point(d: Seq<char>)
    requires
        all_digits(d),
    ensures
        count_char(d, '.') == 0,
    decreases d.len(),
{
    if d.len() > 0 {
        assert(all_digits(d.drop_last())) by {
            assert forall|i: int| 0 <= i < d.drop_last().len() implies is_digit(
                #[trigger] d.drop_last()[i],
            ) by {
                assert(d.drop_last()[i] == d[i]);
            }
        }
        lemma_digits_have_no_point(d.drop_last());
        assert(is_digit(d[d.len() - 1]));
    }
}

/// The canonical text of a valid time of day, after any text and before text
/// that does not continue its seconds, is read as that time and nothing more.
pub proof fn lemma_time_text_component(pre: Seq<char>, v: TimeOfDay, rest: Seq<char>)
    requires
        v.wf(),
        rest.len() == 0 || !CharClass::DigitOrDot.spec_accepts(rest[0]),
    ensures
        spec_time_component(pre + time_text(v) + rest, pre.len() as int) == Some(
            (v, pre.len() + time_text(v).len() as int),
        ),
{
    let h = padded_decimal(v.hour as nat, 2);
    let m = padded_decimal(v.minute as nat, 2);
    let sec = padded_decimal(v.second as nat, 2);
    let ms = padded_decimal(v.millisecond as nat, 3);
    let t = pre + time_text(v) + rest;
    let p = pre.len() as int;
    lemma_padded_decimal(v.hour as nat, 2);
    lemma_padded_decimal(v.minute as nat, 2);
    lemma_padded_decimal(v.second as nat, 2);
    lemma_padded_decimal(v.millisecond as nat, 3);
    lemma_number_in(pre, v.hour as nat, 2, seq![':'] + m + seq![':'] + sec + seq!['.'] + ms + rest);
    assert(pre + h + (seq![':'] + m + seq![':'] + sec + seq!['.'] + ms + rest) =~= t);
    lemma_number_in(pre + h + seq![':'], v.minute as nat, 2, seq![':'] + sec + seq!['.'] + ms + rest);
    assert(pre + h + seq![':'] + m + (seq![':'] + sec + seq!['.'] + ms + rest) =~= t);
    assert(t[p + 2] == ':');
    assert(t[p + 5] == ':');
    let q = p + 6;
    let e = q + 6;
    let c = sec + seq!['.'] + ms;
    assert(t.subrange(q, e) =~= c);
    assert forall|i: int| q <= i < e implies #[trigger] CharClass::DigitOrDot.spec_accepts(t[i]) by {
        assert(t[i] == c[i - q]);
        if i - q < 2 {
            assert(c[i - q] == sec[i - q]);
        } else if i - q > 2 {
            assert(c[i - q] == ms[i - q - 3]);
        }
    }
    if rest.len() > 0 {
        assert(t[e] == rest[0]);
    }
    lemma_run_end_at(t, q, e, CharClass::DigitOrDot);
    lemma_digits_have_no_point(sec);
    lemma_digits_have_no_point(ms);
    lemma_count_concat(sec, seq!['.'], '.');
    lemma_count_concat(sec + seq!['.'], ms, '.');
    reveal_with_fuel(count_char, 2);
    assert(count_char(seq!['.'], '.') == 1) by {
        assert(seq!['.'].drop_last() =~= Seq::<char>::empty());
    }
    assert(c.subrange(0, 2) =~= sec);
    assert(c.subrange(3, 6) =~= ms);
    assert(count_char(c, '.') == 1);
    assert(c.len() == 6);
    assert(c[2] == '.');
    assert(ms.len() == 3);
    let w = crate::time::pow10((3 - ms.len()) as nat);
    assert(w == 1) by {
        assert((3 - ms.len()) as nat == 0);
        assert(crate::time::pow10(0) == 1);
    }
    let dv = crate::scan::digits_value(ms);
    assert(dv * w == dv) by (nonlinear_arith)
        requires
            w == 1,
    ;
    assert(crate::time::fraction_millis(ms) == v.millisecond);
    assert(crate::time::seconds_field(c) == Some((v.second as nat, v.millisecond as nat)));
    assert(crate::fields::two_digit_field(t, p) == Some((v.hour as nat, p + 2)));
    assert(crate::fields::two_digit_field(t, p + 3) == Some((v.minute as nat, p + 5)));
    assert(char_at(t, p + 5) == Some(':'));
}

/// Re-parsing the canonical text of a parsed time of day gives the same time.
pub proof fn law_time_idempotent(s: Seq<char>)
    requires
        spec_parse_time(s) is Some,
    ensures
        spec_parse_time(time_text(spec_parse_time(s)->0)) == spec_parse_time(s),
{
    let v = spec_parse_time(s)->0;
    lemma_time_component_wf(s, 0);
    lemma_time_text_component(Seq::empty(), v, Seq::empty());
    assert(Seq::<char>::empty() + time_text(v) + Seq::<char>::empty() =~= time_text(v));
}

/// The canonical text of an offset: a sign, two digits of hours, a colon
/// and two digits of minutes.
pub open spec fn offset_text(v: TimeZoneOffset) -> Seq<char> {
    if v.hours < 0 || v.minutes < 0 {
        seq!['-'] + padded_decimal((-v.hours) as nat, 2) + seq![':'] + padded_decimal(
            (-v.minutes) as nat,
            2,
        )
    } else {
        seq!['+'] + padded_decimal(v.hours as nat, 2) + seq![':'] + padded_decimal(
            v.minutes as nat,
            2,
        )
    }
}

/// Hours and minutes in range that share their sign.
pub open spec fn offset_in_range(v: TimeZoneOffset) -> bool {
    (0 <= v.hours <= 23 && 0 <= v.minutes <= 59) || (-23 <= v.hours <= 0 && -59 <= v.minutes
        <= 0)
}

/// The canonical text of an offset in range, before text that does not
/// continue its minutes, is read as that offset and nothing more.
pub proof fn lemma_offset_text_component(pre: Seq<char>, v: TimeZoneOffset, rest: Seq<char>)
    requires
        offset_in_range(v),
        rest.len() == 0 || !is_digit(rest[0]),
    ensures
        spec_timezone_offset_component(pre + offset_text(v) + rest, pre.len() as int) == Some(
            (v, pre.len() + 6int),
        ),
        offset_text(v).len() == 6,
{
    let neg = v.hours < 0 || v.minutes < 0;
    let sign = if neg {
        '-'
    } else {
        '+'
    };
    let hn: nat = if neg {
        (-v.hours) as nat
    } else {
        v.hours as nat
    };
    let mn: nat = if neg {
        (-v.minutes) as nat
    } else {
        v.minutes as nat
    };
    let h = padded_decimal(hn, 2);
    let m = padded_decimal(mn, 2);
    let t = pre + offset_text(v) + rest;
    let p = pre.len() as int;
    assert(offset_text(v) == seq![sign] + h + seq![':'] + m);
    lemma_padded_decimal(hn, 2);
    lemma_padded_decimal(mn, 2);
    lemma_number_in(pre + seq![sign], hn, 2, seq![':'] + m + rest);
    assert(pre + seq![sign] + h + (seq![':'] + m + rest) =~= t);
    lemma_number_in(pre + seq![sign] + h + seq![':'], mn, 2, rest);
    assert(pre + seq![sign] + h + seq![':'] + m + rest =~= t);
    assert(t[p] == sign);
    assert(t[p + 3] == ':');
    assert(crate::timezone_offset::offset_fields(t, p + 1) == Some((hn, mn, p + 6)));
}

/// Re-parsing the canonical text of a parsed offset gives the same offset.
pub proof fn law_timezone_offset_idempotent(s: Seq<char>)
    requires
        spec_parse_timezone_offset(s) is Some,
    ensures
        spec_parse_timezone_offset(offset_text(spec_parse_timezone_offset(s)->0))
            == spec_parse_timezone_offset(s),
{
    let v = spec_parse_timezone_offset(s)->0;
    assert(offset_in_range(v));
    lemma_offset_text_component(Seq::empty(), v, Seq::empty());
    assert(Seq::<char>::empty() + offset_text(v) + Seq::<char>::empty() =~= offset_text(v));
}

/// The canonical text of a local date-time: "YYYY-MM-DDThh:mm:ss.sss".
pub open spec fn local_datetime_text(v: LocalDateTime) -> Seq<char> {
    date_text(v.date) + seq!['T'] + time_text(v.time)
}

/// The canonical text of a global date-time, in UTC: "YYYY-MM-DDThh:mm:ss.sssZ".
pub open spec fn global_datetime_text(v: GlobalDateTime) -> Seq<char> {
    date_text(v.date) + seq!['T'] + time_text(v.time) + seq!['Z']
}

proof fn lemma_local_text_component(v: LocalDateTime, rest: Seq<char>)
    requires
        v.wf(),
        rest.len() == 0 || !CharClass::DigitOrDot.spec_accepts(rest[0]),
    ensures
        spec_local_datetime_component(local_datetime_text(v) + rest, 0) == Some(
            (v, local_datetime_text(v).len() as int),
        ),
{
    let d = date_text(v.date);
    let x = local_datetime_text(v) + rest;
    lemma_date_text_component(v.date, seq!['T'] + time_text(v.time) + rest);
    assert(d + (seq!['T'] + time_text(v.time) + rest) =~= x);
    assert(x[d.len() as int] == 'T');
    lemma_time_text_component(d + seq!['T'], v.time, rest);
    assert(d + seq!['T'] + time_text(v.time) + rest =~= x);
}

/// A date that the grammar gives is a valid date.
proof fn lemma_date_component_wf(s: Seq<char>, p: int)
    ensures
        spec_date_component(s, p) matches Some((v, _)) ==> v.wf(),
{
}

/// Re-parsing the canonical text of a parsed local date-time gives the same value.
pub proof fn law_local_datetime_idempotent(s: Seq<char>)
    requires
        spec_parse_local_datetime(s) is Some,
    ensures
        spec_parse_local_datetime(local_datetime_text(spec_parse_local_datetime(s)->0))
            == spec_parse_local_datetime(s),
{
    let v = spec_parse_local_datetime(s)->0;
    let (dv, de) = spec_date_component(s, 0)->0;
    lemma_date_component_wf(s, 0);
    lemma_time_component_wf(s, de + 1);
    lemma_local_text_component(v, Seq::empty());
    assert(local_datetime_text(v) + Seq::<char>::empty() =~= local_datetime_text(v));
}

/// A time of day in range is rebuilt from its milliseconds since midnight.
proof fn lemma_time_millis_round_trip(t: TimeOfDay)
    requires
        t.wf(),
    ensures
        0 <= millis_of_day(t) < 86_400_000,
        time_from_millis(millis_of_day(t)) == t,
{
    let h = t.hour as int;
    let m = t.minute as int;
    let sec = t.second as int;
    let ms = t.millisecond as int;
    let x = millis_of_day(t);
    lemma_fundamental_div_mod_converse(x, 3_600_000, h, m * 60_000 + sec * 1000 + ms);
    lemma_fundamental_div_mod_converse(x, 60_000, h * 60 + m, sec * 1000 + ms);
    lemma_fundamental_div_mod_converse(h * 60 + m, 60, h, m);
    lemma_fundamental_div_mod_converse(x, 1000, (h * 60 + m) * 60 + sec, ms);
    lemma_fundamental_div_mod_converse((h * 60 + m) * 60 + sec, 60, h * 60 + m, sec);
}

/// Moving a time of day by a zero offset leaves it as it is.
proof fn lemma_shift_by_zero(t: TimeOfDay)
    requires
        t.wf(),
    ensures
        shift_time(t, TimeZoneOffset { hours: 0, minutes: 0 }) == t,
{
    lemma_time_millis_round_trip(t);
    let x = millis_of_day(t);
    lemma_fundamental_div_mod_converse(x, 86_400_000, 0, x);
}

/// A time of day moved by an offset is in range.
proof fn lemma_shift_wf(t: TimeOfDay, z: TimeZoneOffset)
    ensures
        shift_time(t, z).wf(),
{
    let x = (millis_of_day(t) - crate::datetime::offset_minutes(z) * 60_000) % 86_400_000;
    assert(0 <= x < 86_400_000);
}

/// Re-parsing the canonical text of a parsed global date-time gives the same value.
pub proof fn law_global_datetime_idempotent(s: Seq<char>)
    requires
        spec_parse_global_datetime(s) is Some,
    ensures
        spec_parse_global_datetime(global_datetime_text(spec_parse_global_datetime(s)->0))
            == spec_parse_global_datetime(s),
{
    let v = spec_parse_global_datetime(s)->0;
    let (l, te) = spec_local_datetime_component(s, 0)->0;
    let (z, ze) = spec_timezone_offset_component(s, te)->0;
    lemma_date_component_wf(s, 0);
    lemma_shift_wf(l.time, z);
    let lv = LocalDateTime { date: v.date, time: v.time };
    let x = global_datetime_text(v);
    let n = local_datetime_text(lv).len() as int;
    lemma_local_text_component(lv, seq!['Z']);
    assert(local_datetime_text(lv) + seq!['Z'] =~= x);
    assert(x[n] == 'Z');
    lemma_shift_by_zero(v.time);
}

/// The canonical text of a duration: "PT", whole seconds, a point, three
/// digits of milliseconds and "S".
pub open spec fn duration_text(v: Duration) -> Seq<char> {
    seq!['P', 'T'] + padded_decimal((v.milliseconds / 1000) as nat, 1) + seq!['.']
        + padded_decimal((v.milliseconds % 1000) as nat, 3) + seq!['S']
}

/// Every duration's canonical text parses back to that duration.
pub proof fn law_duration_text_parses(v: Duration)
    ensures
        spec_parse_duration(duration_text(v)) == Some(v),
{
    let secs = (v.milliseconds / 1000) as nat;
    let frac = (v.milliseconds % 1000) as nat;
    let n = padded_decimal(secs, 1);
    let f = padded_decimal(frac, 3);
    let t = duration_text(v);
    lemma_padded_decimal(secs, 1);
    lemma_padded_decimal(frac, 3);
    lemma_number_in(seq!['P', 'T'], secs, 1, seq!['.'] + f + seq!['S']);
    assert(seq!['P', 'T'] + n + (seq!['.'] + f + seq!['S']) =~= t);
    let q = 2 + n.len() as int;
    lemma_number_in(seq!['P', 'T'] + n + seq!['.'], frac, 3, seq!['S']);
    assert(seq!['P', 'T'] + n + seq!['.'] + f + seq!['S'] =~= t);
    let fe = q + 4;
    assert(t[0] == 'P');
    assert(t[1] == 'T');
    assert(t[q] == '.');
    assert(t[fe] == 'S');
    assert(is_digit(t[2])) by {
        assert(t[2] == n[0]);
    }
    assert(run_end(t, 0, CharClass::AsciiWhitespace) == 0);
    assert(run_end(t, 1, CharClass::AsciiWhitespace) == 1);
    assert(run_end(t, 2, CharClass::AsciiWhitespace) == 2);
    assert(run_end(t, fe, CharClass::AsciiWhitespace) == fe);
    assert(run_end(t, t.len() as int, CharClass::AsciiWhitespace) == t.len());
    assert(f.subrange(0, 3) =~= f);
    assert(t.subrange(q + 1, fe) =~= f);
    assert(crate::duration::fraction_to_millis(t.subrange(q + 1, fe)) == frac);
    assert(duration_component(t, 2, MDisambig::Minute) == Some(
        (0nat, v.milliseconds as nat, MDisambig::Minute, fe + 1),
    ));
    assert(duration_loop(t, t.len() as int, MDisambig::Minute, 0, v.milliseconds as nat, 1)
        == Some((0nat, v.milliseconds as nat, 1nat)));
    assert(duration_loop(t, 2, MDisambig::Minute, 0, 0, 0) == Some(
        (0nat, v.milliseconds as nat, 1nat),
    ));
    assert(duration_loop(t, 1, MDisambig::Minute, 0, 0, 0) == Some(
        (0nat, v.milliseconds as nat, 1nat),
    ));
}

/// Re-parsing the canonical text of a parsed duration gives the same duration.
pub proof fn law_duration_idempotent(s: Seq<char>)
    requires
        spec_parse_duration(s) is Some,
    ensures
        spec_parse_duration(duration_text(spec_parse_duration(s)->0)) == spec_parse_duration(s),
{
    law_duration_text_parses(spec_parse_duration(s)->0);
}

/// A two-digit field that ends inside `s` reads the same in `s + u`.
proof fn lemma_field_prefix(s: Seq<char>, u: Seq<char>, p: int)
    requires
        0 <= p <= s.len(),
        run_end(s, p, CharClass::AsciiDigit) < s.len(),
    ensures
        two_digit_field(s + u, p) == two_digit_field(s, p),
{
    lemma_run_in_prefix(s, u, p, CharClass::AsciiDigit);
    crate::scan::lemma_run_end_bounds(s, p, CharClass::AsciiDigit);
    lemma_prefix_subrange(s, u, p, run_end(s, p, CharClass::AsciiDigit));
}

/// A two-digit field that ends at the end of `s` is spoiled by a digit after
/// it, and read the same otherwise.
proof fn lemma_field_at_end(s: Seq<char>, u: Seq<char>, p: int)
    requires
        0 <= p <= s.len(),
        run_end(s, p, CharClass::AsciiDigit) == s.len(),
        two_digit_field(s, p) is Some,
        u.len() > 0,
    ensures
        is_digit(u[0]) ==> two_digit_field(s + u, p) is None,
        !is_digit(u[0]) ==> two_digit_field(s + u, p) == two_digit_field(s, p),
{
    lemma_run_in_prefix(s, u, p, CharClass::AsciiDigit);
    lemma_prefix_subrange(s, u, p, s.len() as int);
}

/// The month at `p` in `s` reads the same in `s + u` where it ends inside
/// `s`; where it ends at the end of `s`, a digit after it spoils it.
proof fn lemma_month_component_prefix(s: Seq<char>, u: Seq<char>, p: int)
    requires
        0 <= p <= s.len(),
        spec_month_component(s, p) is Some,
        u.len() > 0,
    ensures
        spec_month_component(s, p) matches Some((v, e)) && (e < s.len() ==> spec_month_component(
            s + u,
            p,
        ) == spec_month_component(s, p)) && (e == s.len() && is_digit(u[0])
            ==> spec_month_component(s + u, p) is None) && (e == s.len() && !is_digit(u[0])
            ==> spec_month_component(s + u, p) == spec_month_component(s, p)) && e <= s.len(),
{
    let t = s + u;
    let ye = run_end(s, p, CharClass::AsciiDigit);
    crate::scan::lemma_run_end_bounds(s, p, CharClass::AsciiDigit);
    assert(ye < s.len());
    lemma_run_in_prefix(s, u, p, CharClass::AsciiDigit);
    lemma_prefix_subrange(s, u, p, ye);
    assert(t[ye] == s[ye]);
    let e = run_end(s, ye + 1, CharClass::AsciiDigit);
    crate::scan::lemma_run_end_bounds(s, ye + 1, CharClass::AsciiDigit);
    if e < s.len() {
        lemma_field_prefix(s, u, ye + 1);
    } else {
        lemma_field_at_end(s, u, ye + 1);
    }
}

/// Any text after a month string makes it fail.
pub proof fn law_month_rejects_trailing(s: Seq<char>, u: Seq<char>)
    requires
        spec_parse_month(s) is Some,
        u.len() > 0,
    ensures
        spec_parse_month(s + u) is None,
{
    lemma_month_component_prefix(s, u, 0);
}

/// Any text after a date string makes it fail: "2011-11-19" parses and
/// "2011-11-19extra" does not.
pub proof fn law_date_rejects_trailing(s: Seq<char>, u: Seq<char>)
    requires
        spec_parse_date(s) is Some,
        u.len() > 0,
    ensures
        spec_parse_date(s + u) is None,
{
    let t = s + u;
    lemma_month_component_prefix(s, u, 0);
    let (ym, me) = spec_month_component(s, 0)->0;
    assert(s[me] == '-');
    assert(t[me] == '-');
    crate::scan::lemma_run_end_bounds(s, me + 1, CharClass::AsciiDigit);
    lemma_field_at_end(s, u, me + 1);
}

/// Any text after a yearless date string makes it fail.
pub proof fn law_yearless_date_rejects_trailing(s: Seq<char>, u: Seq<char>)
    requires
        spec_parse_yearless_date(s) is Some,
        u.len() > 0,
    ensures
        spec_parse_yearless_date(s + u) is None,
{
    let t = s + u;
    let he = run_end(s, 0, CharClass::Hyphen);
    crate::scan::lemma_run_end_bounds(s, 0, CharClass::Hyphen);
    lemma_run_in_prefix(s, u, 0, CharClass::Hyphen);
    let me = run_end(s, he, CharClass::AsciiDigit);
    crate::scan::lemma_run_end_bounds(s, he, CharClass::AsciiDigit);
    assert(s[me] == '-');
    assert(t[me] == '-');
    lemma_field_prefix(s, u, he);
    crate::scan::lemma_run_end_bounds(s, me + 1, CharClass::AsciiDigit);
    lemma_field_at_end(s, u, me + 1);
}

/// Any text after a week string makes it fail.
pub proof fn law_week_rejects_trailing(s: Seq<char>, u: Seq<char>)
    requires
        spec_parse_week(s) is Some,
        u.len() > 0,
    ensures
        spec_parse_week(s + u) is None,
{
    let t = s + u;
    let ye = run_end(s, 0, CharClass::AsciiDigit);
    crate::scan::lemma_run_end_bounds(s, 0, CharClass::AsciiDigit);
    lemma_run_in_prefix(s, u, 0, CharClass::AsciiDigit);
    lemma_prefix_subrange(s, u, 0, ye);
    assert(t[ye] == s[ye]);
    assert(t[ye + 1] == s[ye + 1]);
    crate::scan::lemma_run_end_bounds(s, ye + 2, CharClass::AsciiDigit);
    lemma_field_at_end(s, u, ye + 2);
}

/// An offset that ends at the end of `s` reads the same in `s + u` when `u`
/// does not start with a digit, nor, where no offset was written, with a
/// sign or "Z".
proof fn lemma_offset_component_prefix(s: Seq<char>, u: Seq<char>, p: int)
    requires
        0 <= p <= s.len(),
        spec_timezone_offset_component(s, p) matches Some((_, e)) && e == s.len(),
        u.len() > 0,
        !is_digit(u[0]),
        p == s.len() ==> u[0] != 'Z' && u[0] != '+' && u[0] != '-',
    ensures
        spec_timezone_offset_component(s + u, p) == spec_timezone_offset_component(s, p),
{
    let t = s + u;
    if p < s.len() {
        assert(t[p] == s[p]);
        let c = s[p];
        if c == '+' || c == '-' {
            let de = run_end(s, p + 1, CharClass::AsciiDigit);
            crate::scan::lemma_run_end_bounds(s, p + 1, CharClass::AsciiDigit);
            lemma_run_in_prefix(s, u, p + 1, CharClass::AsciiDigit);
            if de - (p + 1) == 2 {
                assert(s[de] == ':');
                assert(t[de] == ':');
                lemma_prefix_subrange(s, u, p + 1, de);
                crate::scan::lemma_run_end_bounds(s, de + 1, CharClass::AsciiDigit);
                lemma_field_at_end(s, u, de + 1);
            } else {
                lemma_prefix_subrange(s, u, p + 1, p + 3);
                lemma_prefix_subrange(s, u, p + 3, de);
            }
        }
    } else {
        assert(t[p] == u[0]);
    }
}

/// Any text after a non-empty time-zone offset string makes it fail. (The
/// empty string reads as no offset, and "Z" after it is an offset.)
pub proof fn law_timezone_offset_rejects_trailing(s: Seq<char>, u: Seq<char>)
    requires
        spec_parse_timezone_offset(s) is Some,
        s.len() > 0,
        u.len() > 0,
    ensures
        spec_parse_timezone_offset(s + u) is None,
{
    let t = s + u;
    if is_digit(u[0]) {
        assert(t[0] == s[0]);
        let c = s[0];
        let de = run_end(s, 1, CharClass::AsciiDigit);
        crate::scan::lemma_run_end_bounds(s, 1, CharClass::AsciiDigit);
        lemma_run_in_prefix(s, u, 1, CharClass::AsciiDigit);
        if de - 1 == 2 {
            assert(s[de] == ':');
            assert(t[de] == ':');
            crate::scan::lemma_run_end_bounds(s, de + 1, CharClass::AsciiDigit);
            lemma_field_at_end(s, u, de + 1);
        }
    } else {
        lemma_offset_component_prefix(s, u, 0);
    }
}

/// The date at `p` in `s` reads the same in `s + u` where it ends inside `s`.
proof fn lemma_date_component_prefix(s: Seq<char>, u: Seq<char>, p: int)
    requires
        0 <= p <= s.len(),
        spec_date_component(s, p) matches Some((_, e)) && e < s.len(),
    ensures
        spec_date_component(s + u, p) == spec_date_component(s, p),
{
    let t = s + u;
    if u.len() == 0 {
        assert(t =~= s);
    } else {
        lemma_month_component_prefix(s, u, p);
        let (ym, me) = spec_month_component(s, p)->0;
        assert(s[me] == '-');
        assert(t[me] == '-');
        crate::scan::lemma_run_end_bounds(s, me + 1, CharClass::AsciiDigit);
        lemma_field_prefix(s, u, me + 1);
    }
}

/// The time of day at `p` in `s` reads the same in `s + u` where it ends
/// inside `s`, or at its end when `u` starts with no digit, point or colon.
proof fn lemma_time_component_prefix(s: Seq<char>, u: Seq<char>, p: int)
    requires
        0 <= p <= s.len(),
        spec_time_component(s, p) matches Some((_, e)) && (e < s.len() || (u.len() > 0
            && !CharClass::DigitOrDot.spec_accepts(u[0]) && u[0] != ':')),
    ensures
        spec_time_component(s + u, p) == spec_time_component(s, p),
{
    let t = s + u;
    lemma_time_component_wf(s, p);
    let he = run_end(s, p, CharClass::AsciiDigit);
    crate::scan::lemma_run_end_bounds(s, p, CharClass::AsciiDigit);
    assert(s[he] == ':');
    assert(t[he] == ':');
    lemma_field_prefix(s, u, p);
    let me = run_end(s, he + 1, CharClass::AsciiDigit);
    crate::scan::lemma_run_end_bounds(s, he + 1, CharClass::AsciiDigit);
    if me < s.len() {
        lemma_field_prefix(s, u, he + 1);
        assert(t[me] == s[me]);
        if s[me] == ':' {
            crate::scan::lemma_run_end_bounds(s, me + 1, CharClass::DigitOrDot);
            lemma_run_in_prefix(s, u, me + 1, CharClass::DigitOrDot);
            let ce = run_end(s, me + 1, CharClass::DigitOrDot);
            lemma_prefix_subrange(s, u, me + 1, ce);
        }
    } else {
        lemma_field_at_end(s, u, he + 1);
        assert(t[me] == u[0]);
    }
}

/// Text after a time string makes it fail, when it starts with anything but
/// a digit, a point or a colon (each of which can go on with the time, as
/// "12:31" goes on to "12:31:59").
pub proof fn law_time_rejects_trailing(s: Seq<char>, u: Seq<char>)
    requires
        spec_parse_time(s) is Some,
        u.len() > 0,
        !CharClass::DigitOrDot.spec_accepts(u[0]),
        u[0] != ':',
    ensures
        spec_parse_time(s + u) is None,
{
    lemma_time_component_prefix(s, u, 0);
}

/// Text after a local date-time string makes it fail, when it starts with
/// anything but a digit, a point or a colon.
pub proof fn law_local_datetime_rejects_trailing(s: Seq<char>, u: Seq<char>)
    requires
        spec_parse_local_datetime(s) is Some,
        u.len() > 0,
        !CharClass::DigitOrDot.spec_accepts(u[0]),
        u[0] != ':',
    ensures
        spec_parse_local_datetime(s + u) is None,
{
    let t = s + u;
    let (d, de) = spec_date_component(s, 0)->0;
    lemma_date_component_prefix(s, u, 0);
    assert(t[de] == s[de]);
    lemma_time_component_prefix(s, u, de + 1);
}

/// Text after a global date-time string makes it fail, when it starts with
/// anything but a digit, a point, a colon, a sign or "Z" (each of which can
/// go on with the time or begin an offset).
pub proof fn law_global_datetime_rejects_trailing(s: Seq<char>, u: Seq<char>)
    requires
        spec_parse_global_datetime(s) is Some,
        u.len() > 0,
        !CharClass::DigitOrDot.spec_accepts(u[0]),
        u[0] != ':' && u[0] != 'Z' && u[0] != '+' && u[0] != '-',
    ensures
        spec_parse_global_datetime(s + u) is None,
{
    let t = s + u;
    let (d, de) = spec_date_component(s, 0)->0;
    lemma_date_component_prefix(s, u, 0);
    assert(t[de] == s[de]);
    let (tm, te) = spec_time_component(s, de + 1)->0;
    lemma_time_component_wf(s, de + 1);
    lemma_time_component_prefix(s, u, de + 1);
    lemma_offset_component_prefix(s, u, te);
}

/// A duration component read from `s` reads the same in `s + u`: every run
/// in it is followed by a code point of `s`.
proof fn lemma_duration_component_prefix(s: Seq<char>, u: Seq<char>, p: int, f: MDisambig)
    requires
        0 <= p,
        duration_component(s, p, f) is Some,
    ensures
        duration_component(s + u, p, f) == duration_component(s, p, f),
{
    let t = s + u;
    assert(t[p] == s[p]);
    let c = s[p];
    let q = if c == '.' {
        p
    } else {
        run_end(s, p, CharClass::AsciiDigit)
    };
    crate::scan::lemma_run_end_bounds(s, p, CharClass::AsciiDigit);
    if c != '.' {
        lemma_run_in_prefix(s, u, p, CharClass::AsciiDigit);
        lemma_prefix_subrange(s, u, p, q);
    }
    assert(t[q] == s[q]);
    if s[q] == '.' {
        crate::scan::lemma_run_end_bounds(s, q + 1, CharClass::AsciiDigit);
        let fe = run_end(s, q + 1, CharClass::AsciiDigit);
        crate::scan::lemma_run_end_bounds(s, fe, CharClass::AsciiWhitespace);
        let we = run_end(s, fe, CharClass::AsciiWhitespace);
        assert(we < s.len());
        lemma_run_in_prefix(s, u, q + 1, CharClass::AsciiDigit);
        lemma_run_in_prefix(s, u, fe, CharClass::AsciiWhitespace);
        lemma_prefix_subrange(s, u, q + 1, fe);
        assert(t[we] == s[we]);
    } else if crate::scan::is_whitespace(s[q]) {
        crate::scan::lemma_run_end_bounds(s, q, CharClass::AsciiWhitespace);
        lemma_run_in_prefix(s, u, q, CharClass::AsciiWhitespace);
        let ue = run_end(s, q, CharClass::AsciiWhitespace);
        assert(t[ue] == s[ue]);
    }
}

/// Code points that cannot go on with a duration that is complete.
pub open spec fn ends_duration(c: char) -> bool {
    !is_digit(c) && c != '.' && c != 'T' && !crate::scan::is_whitespace(c)
}

/// The components of `s` from `p` on, followed by text that starts with a
/// code point that cannot go on with them, are a rejection.
proof fn lemma_duration_loop_prefix(
    s: Seq<char>,
    u: Seq<char>,
    p: int,
    f: MDisambig,
    months: nat,
    millis: nat,
    count: nat,
)
    requires
        0 <= p <= s.len(),
        duration_loop(s, p, f, months, millis, count) is Some,
        u.len() > 0,
        ends_duration(u[0]),
    ensures
        duration_loop(s + u, p, f, months, millis, count) is None,
    decreases s.len() - p,
{
    let t = s + u;
    if p == s.len() {
        assert(t[p] == u[0]);
        assert(crate::duration::leading_number(t, p) is None);
    } else if s[p] == 'T' {
        assert(t[p] == 'T');
        crate::scan::lemma_run_end_bounds(s, p + 1, CharClass::AsciiWhitespace);
        lemma_run_in_prefix(s, u, p + 1, CharClass::AsciiWhitespace);
        lemma_duration_loop_prefix(
            s,
            u,
            run_end(s, p + 1, CharClass::AsciiWhitespace),
            MDisambig::Minute,
            months,
            millis,
            count,
        );
    } else {
        assert(t[p] == s[p]);
        let (dm, dms, next, e) = duration_component(s, p, f)->0;
        crate::duration::lemma_component_advances(s, p, f);
        lemma_duration_component_prefix(s, u, p, f);
        crate::scan::lemma_run_end_bounds(s, e, CharClass::AsciiWhitespace);
        lemma_run_in_prefix(s, u, e, CharClass::AsciiWhitespace);
        lemma_duration_loop_prefix(
            s,
            u,
            run_end(s, e, CharClass::AsciiWhitespace),
            next,
            months + dm,
            millis + dms,
            count + 1,
        );
    }
}

/// Text after a duration string makes it fail, when it starts with anything
/// but a digit, a point, a T or whitespace (each of which can go on with the
/// duration, as "P1D" goes on to "P1DT2H").
pub proof fn law_duration_rejects_trailing(s: Seq<char>, u: Seq<char>)
    requires
        spec_parse_duration(s) is Some,
        u.len() > 0,
        ends_duration(u[0]),
    ensures
        spec_parse_duration(s + u) is None,
{
    let t = s + u;
    crate::scan::lemma_run_end_bounds(s, 0, CharClass::AsciiWhitespace);
    lemma_run_in_prefix(s, u, 0, CharClass::AsciiWhitespace);
    let p0 = run_end(s, 0, CharClass::AsciiWhitespace);
    // Whitespace alone holds no component, so something follows it.
    assert(p0 < s.len());
    assert(t[p0] == s[p0]);
    if s[p0] == 'P' {
        crate::scan::lemma_run_end_bounds(s, p0 + 1, CharClass::AsciiWhitespace);
        lemma_run_in_prefix(s, u, p0 + 1, CharClass::AsciiWhitespace);
        lemma_duration_loop_prefix(
            s,
            u,
            run_end(s, p0 + 1, CharClass::AsciiWhitespace),
            MDisambig::Minute,
            0,
            0,
            0,
        );
    } else {
        lemma_duration_loop_prefix(s, u, p0, MDisambig::Month, 0, 0, 0);
    }
}

} // verus!
