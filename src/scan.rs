//! Scanning over a sequence of code points with a cursor that counts code
//! points (not bytes).
use vstd::prelude::*;
use vstd::string::StrSliceExecFns;

verus! {

/// The classes of code points that the parsers collect runs of.
#[derive(Clone, Copy, Debug, PartialEq, Eq, Structural)]
pub enum CharClass {
    AsciiDigit,
    AsciiWhitespace,
    Hyphen,
    DigitOrDot,
}

pub open spec fn is_digit(c: char) -> bool {
    '0' <= c && c <= '9'
}

pub open spec fn is_whitespace(c: char) -> bool {
    c == ' ' || c == '\t' || c == '\n' || c == '\x0C' || c == '\r'
}

impl CharClass {
    pub open spec fn spec_accepts(self, c: char) -> bool {
        match self {
            CharClass::AsciiDigit => is_digit(c),
            CharClass::AsciiWhitespace => is_whitespace(c),
            CharClass::Hyphen => c == '-',
            CharClass::DigitOrDot => is_digit(c) || c == '.',
        }
    }

    /// Whether `c` belongs to the class; every class holds ASCII code points only.
    #[verifier::when_used_as_spec(spec_accepts)]
    pub fn accepts(self, c: char) -> (r: bool)
        ensures
            r == self.spec_accepts(c),
            r ==> (c as u32) < 128,
    {
        match self {
            CharClass::AsciiDigit => '0' <= c && c <= '9',
            CharClass::AsciiWhitespace => c == ' ' || c == '\t' || c == '\n' || c == '\x0C'
                || c == '\r',
            CharClass::Hyphen => c == '-',
            CharClass::DigitOrDot => ('0' <= c && c <= '9') || c == '.',
        }
    }
}

/// The position just past the longest run of code points of `class` that
/// starts at `p`.
pub open spec fn run_end(s: Seq<char>, p: int, class: CharClass) -> int
    decreases s.len() - p,
{
    if 0 <= p < s.len() && class.spec_accepts(s[p]) {
        run_end(s, p + 1, class)
    } else {
        p
    }
}

/// The code point at `p`, if there is one.
pub open spec fn char_at(s: Seq<char>, p: int) -> Option<char> {
    if 0 <= p < s.len() {
        Some(s[p])
    } else {
        None
    }
}

pub proof fn lemma_run_end_bounds(s: Seq<char>, p: int, class: CharClass)
    requires
        0 <= p,
    ensures
        p <= run_end(s, p, class),
        p <= s.len() ==> run_end(s, p, class) <= s.len(),
        forall|i: int| p <= i < run_end(s, p, class) ==> #[trigger] class.spec_accepts(s[i]),
        run_end(s, p, class) < s.len() ==> !class.spec_accepts(s[run_end(s, p, class)]),
    decreases s.len() - p,
{
    if 0 <= p < s.len() && class.spec_accepts(s[p]) {
        lemma_run_end_bounds(s, p + 1, class);
    }
}

/// A run measured in a suffix ends where the same run ends in the whole sequence.
pub proof fn lemma_run_end_suffix(s: Seq<char>, p: int, q: int, class: CharClass)
    requires
        0 <= p <= q <= s.len(),
    ensures
        run_end(s.subrange(p, s.len() as int), q - p, class) == run_end(s, q, class) - p,
    decreases s.len() - q,
{
    let t = s.subrange(p, s.len() as int);
    if q < s.len() {
        assert(t[q - p] == s[q]);
        if class.spec_accepts(s[q]) {
            lemma_run_end_suffix(s, p, q + 1, class);
        }
    }
}

/// Relies on whatwg_infra::collect_codepoints: from the start of `s` it gathers
/// the longest run of code points for which the predicate holds. The classes
/// hold ASCII code points only, so the run's code point count is also its byte
/// length, which the function uses to slice.
#[verifier::external_body]
fn collect_leading(s: &str, class: CharClass) -> (r: String)
    ensures
        r@ == s@.subrange(0, run_end(s@, 0, class)),
{
    let mut position: usize = 0;
    whatwg_infra::collect_codepoints(s, &mut position, |c| class.accepts(c))
}

/// Advances `position` past the longest run of code points of `class` that
/// starts there, and returns that run. A position at or past the end is left
/// where it is, with an empty run.
pub fn collect_run(s: &str, position: &mut usize, class: CharClass) -> (r: String)
    ensures
        *final(position) as int == run_end(s@, *old(position) as int, class),
        *old(position) <= *final(position),
        *old(position) <= s@.len() ==> *final(position) <= s@.len(),
        *old(position) <= s@.len() ==> r@ == s@.subrange(
            *old(position) as int,
            *final(position) as int,
        ),
{
    let len = s.unicode_len();
    if *position >= len {
        return String::new();
    }
    let start = *position;
    let rest = s.substring_char(start, len);
    let r = collect_leading(rest, class);
    proof {
        lemma_run_end_suffix(s@, start as int, start as int, class);
        lemma_run_end_bounds(s@, start as int, class);
        assert(r@ =~= s@.subrange(start as int, run_end(s@, start as int, class)));
    }
    let n = r.as_str().unicode_len();
    *position = start + n;
    r
}

/// Collects a run of ASCII digits.
pub fn collect_ascii_digits(s: &str, position: &mut usize) -> (r: String)
    ensures
        *final(position) as int == run_end(s@, *old(position) as int, CharClass::AsciiDigit),
        *old(position) <= *final(position),
        *old(position) <= s@.len() ==> *final(position) <= s@.len(),
        *old(position) <= s@.len() ==> r@ == s@.subrange(
            *old(position) as int,
            *final(position) as int,
        ),
{
    collect_run(s, position, CharClass::AsciiDigit)
}

/// Skips a run of ASCII whitespace and returns what was skipped.
pub fn skip_ascii_whitespace(s: &str, position: &mut usize) -> (r: String)
    ensures
        *final(position) as int == run_end(s@, *old(position) as int, CharClass::AsciiWhitespace),
        *old(position) <= *final(position),
        *old(position) <= s@.len() ==> *final(position) <= s@.len(),
        *old(position) <= s@.len() ==> r@ == s@.subrange(
            *old(position) as int,
            *final(position) as int,
        ),
{
    collect_run(s, position, CharClass::AsciiWhitespace)
}

/// The code point at `position`, if there is one.
pub fn char_at_exec(s: &str, position: usize) -> (r: Option<char>)
    ensures
        r == char_at(s@, position as int),
        s@.len() <= usize::MAX,
{
    if position < s.unicode_len() {
        Some(s.get_char(position))
    } else {
        None
    }
}

/// The value of an ASCII digit (zero for any other code point).
pub open spec fn digit_value(c: char) -> nat {
    if is_digit(c) {
        (c as u32 - '0' as u32) as nat
    } else {
        0
    }
}

/// The base-ten number that a sequence of digits writes.
pub open spec fn digits_value(d: Seq<char>) -> nat
    decreases d.len(),
{
    if d.len() == 0 {
        0
    } else {
        digits_value(d.drop_last()) * 10 + digit_value(d.last())
    }
}

pub open spec fn all_digits(d: Seq<char>) -> bool {
    forall|i: int| 0 <= i < d.len() ==> is_digit(#[trigger] d[i])
}

/// A digit sequence is worth at least as much as any of its prefixes.
pub proof fn lemma_digits_value_prefix(d: Seq<char>, i: int)
    requires
        0 <= i <= d.len(),
    ensures
        digits_value(d.subrange(0, i)) <= digits_value(d),
    decreases d.len() - i,
{
    if i < d.len() {
        lemma_digits_value_prefix(d, i + 1);
        assert(d.subrange(0, i + 1).drop_last() =~= d.subrange(0, i));
    } else {
        assert(d.subrange(0, i) =~= d);
    }
}

/// Two digits are worth their tens and their units.
pub proof fn lemma_two_digits(d: Seq<char>)
    requires
        d.len() == 2,
    ensures
        digits_value(d) == digit_value(d[0]) * 10 + digit_value(d[1]),
        all_digits(d) ==> digits_value(d) <= 99,
{
    reveal_with_fuel(digits_value, 3);
    assert(d.drop_last().drop_last() =~= Seq::<char>::empty());
    if all_digits(d) {
        assert(is_digit(d[0]) && is_digit(d[1]));
    }
}

/// The number that the digits `d` write, if it is at most `limit`.
pub fn decimal_value(d: &str, limit: u64) -> (r: Option<u64>)
    requires
        all_digits(d@),
    ensures
        r == (if digits_value(d@) <= limit {
            Some(digits_value(d@) as u64)
        } else {
            None
        }),
{
    let n = d.unicode_len();
    let mut v: u64 = 0;
    let mut i: usize = 0;
    while i < n
        invariant
            0 <= i <= n,
            n == d@.len(),
            all_digits(d@),
            v == digits_value(d@.subrange(0, i as int)),
            v <= limit,
        decreases n - i,
    {
        let c = d.get_char(i);
        assert(is_digit(d@[i as int]));
        let dig = (c as u32 - '0' as u32) as u64;
        proof {
            assert(d@.subrange(0, i + 1).drop_last() =~= d@.subrange(0, i as int));
            assert(d@.subrange(0, i + 1).last() == c);
            lemma_digits_value_prefix(d@, i + 1);
        }
        let t = match v.checked_mul(10) {
            Some(t) => t,
            None => return None,
        };
        let w = match t.checked_add(dig) {
            Some(w) => w,
            None => return None,
        };
        if w > limit {
            return None;
        }
        v = w;
        i = i + 1;
    }
    proof {
        assert(d@.subrange(0, n as int) =~= d@);
    }
    Some(v)
}

} // verus!
