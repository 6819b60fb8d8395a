//! The canonical text of the values: decimal numbers padded with zeros, and
//! facts about how the scanners read such text back.
use vstd::prelude::*;
use crate::scan::{all_digits, digit_value, digits_value, is_digit, run_end, CharClass};

verus! {

pub open spec fn digit_char(d: nat) -> char {
    (d + '0' as u32) as char
}

/// The decimal digits of `n`, without leading zeros.
pub open spec fn decimal_digits(n: nat) -> Seq<char>
    decreases n,
{
    if n < 10 {
        seq![digit_char(n)]
    } else {
        decimal_digits(n / 10).push(digit_char(n % 10))
    }
}

pub open spec fn zeros(k: nat) -> Seq<char> {
    Seq::new(k, |i: int| '0')
}

/// The decimal digits of `n`, with zeros in front up to `width` digits.
pub open spec fn padded_decimal(n: nat, width: nat) -> Seq<char> {
    let d = decimal_digits(n);
    if d.len() >= width {
        d
    } else {
        zeros((width - d.len()) as nat) + d
    }
}

pub proof fn lemma_digit_char(d: nat)
    requires
        d < 10,
    ensures
        is_digit(digit_char(d)),
        digit_value(digit_char(d)) == d,
{
}

pub proof fn lemma_decimal_digits(n: nat)
    ensures
        all_digits(decimal_digits(n)),
        digits_value(decimal_digits(n)) == n,
        1 <= decimal_digits(n).len(),
        n < 10 ==> decimal_digits(n).len() == 1,
        n < 100 ==> decimal_digits(n).len() <= 2,
        n < 1000 ==> decimal_digits(n).len() <= 3,
    decreases n,
{
    if n < 10 {
        lemma_digit_char(n);
        reveal_with_fuel(digits_value, 2);
        assert(seq![digit_char(n)].drop_last() =~= Seq::<char>::empty());
    } else {
        lemma_decimal_digits(n / 10);
        lemma_digit_char(n % 10);
        let d = decimal_digits(n / 10);
        assert(d.push(digit_char(n % 10)).drop_last() =~= d);
        assert forall|i: int| 0 <= i < d.len() + 1 implies is_digit(
            #[trigger] d.push(digit_char(n % 10))[i],
        ) by {
            if i < d.len() {
                assert(d.push(digit_char(n % 10))[i] == d[i]);
            }
        }
    }
}

proof fn lemma_zeros_value(k: nat)
    ensures
        digits_value(zeros(k)) == 0,
        all_digits(zeros(k)),
    decreases k,
{
    if k > 0 {
        lemma_zeros_value((k - 1) as nat);
        assert(zeros(k).drop_last() =~= zeros((k - 1) as nat));
    }
}

proof fn lemma_leading_zeros(k: nat, d: Seq<char>)
    ensures
        digits_value(zeros(k) + d) == digits_value(d),
    decreases d.len(),
{
    if d.len() == 0 {
        assert(zeros(k) + d =~= zeros(k));
        lemma_zeros_value(k);
    } else {
        assert((zeros(k) + d).drop_last() =~= zeros(k) + d.drop_last());
        lemma_leading_zeros(k, d.drop_last());
    }
}

pub proof fn lemma_padded_decimal(n: nat, width: nat)
    ensures
        all_digits(padded_decimal(n, width)),
        digits_value(padded_decimal(n, width)) == n,
        padded_decimal(n, width).len() >= width,
        padded_decimal(n, width).len() >= 1,
        n < 100 && width == 2 ==> padded_decimal(n, width).len() == 2,
        n < 1000 && width == 3 ==> padded_decimal(n, width).len() == 3,
{
    lemma_decimal_digits(n);
    let d = decimal_digits(n);
    if d.len() < width {
        let k = (width - d.len()) as nat;
        lemma_leading_zeros(k, d);
        lemma_zeros_value(k);
        assert forall|i: int| 0 <= i < (zeros(k) + d).len() implies is_digit(
            #[trigger] (zeros(k) + d)[i],
        ) by {
            if i >= k {
                assert((zeros(k) + d)[i] == d[i - k]);
            }
        }
    }
}

/// A run of a class covers exactly a stretch of code points of that class
/// that ends at the end of the text or at one outside the class.
pub proof fn lemma_run_end_at(t: Seq<char>, p: int, e: int, class: CharClass)
    requires
        0 <= p <= e <= t.len(),
        forall|i: int| p <= i < e ==> #[trigger] class.spec_accepts(t[i]),
        e == t.len() || !class.spec_accepts(t[e]),
    ensures
        run_end(t, p, class) == e,
    decreases e - p,
{
    if p < e {
        lemma_run_end_at(t, p + 1, e, class);
    }
}

/// The run of digits at `p` in `a + b`, where `a` ends in digits from `p` on
/// and `b` does not start with one, covers the rest of `a`.
pub proof fn lemma_digits_then(a: Seq<char>, b: Seq<char>, p: int)
    requires
        0 <= p <= a.len(),
        forall|i: int| p <= i < a.len() ==> is_digit(#[trigger] a[i]),
        b.len() == 0 || !is_digit(b[0]),
    ensures
        run_end(a + b, p, CharClass::AsciiDigit) == a.len(),
        (a + b).subrange(p, a.len() as int) == a.subrange(p, a.len() as int),
{
    let t = a + b;
    assert forall|i: int| p <= i < a.len() implies #[trigger] CharClass::AsciiDigit.spec_accepts(
        t[i],
    ) by {
        assert(t[i] == a[i]);
    }
    if b.len() > 0 {
        assert(t[a.len() as int] == b[0]);
    }
    lemma_run_end_at(t, p, a.len() as int, CharClass::AsciiDigit);
    assert(t.subrange(p, a.len() as int) =~= a.subrange(p, a.len() as int));
}

/// A number written with zeros up to `width` digits, between text that does
/// not continue it, is read back as one run of digits worth that number.
pub proof fn lemma_number_in(pre: Seq<char>, n: nat, width: nat, post: Seq<char>)
    requires
        post.len() == 0 || !is_digit(post[0]),
    ensures
        run_end(pre + padded_decimal(n, width) + post, pre.len() as int, CharClass::AsciiDigit)
            == pre.len() + padded_decimal(n, width).len(),
        digits_value(
            (pre + padded_decimal(n, width) + post).subrange(
                pre.len() as int,
                pre.len() + padded_decimal(n, width).len() as int,
            ),
        ) == n,
{
    let d = padded_decimal(n, width);
    lemma_padded_decimal(n, width);
    let a = pre + d;
    assert forall|i: int| pre.len() <= i < a.len() implies is_digit(#[trigger] a[i]) by {
        assert(a[i] == d[i - pre.len()]);
    }
    lemma_digits_then(a, post, pre.len() as int);
    assert(a.subrange(pre.len() as int, a.len() as int) =~= d);
}

/// A run in `s + u` that starts in `s` ends where it ends in `s`, unless it
/// reaches the end of `s` and `u` continues it.
pub proof fn lemma_run_in_prefix(s: Seq<char>, u: Seq<char>, p: int, class: CharClass)
    requires
        0 <= p <= s.len(),
    ensures
        run_end(s, p, class) < s.len() ==> run_end(s + u, p, class) == run_end(s, p, class),
        run_end(s, p, class) == s.len() && (u.len() == 0 || !class.spec_accepts(u[0]))
            ==> run_end(s + u, p, class) == s.len(),
        run_end(s, p, class) == s.len() && u.len() > 0 && class.spec_accepts(u[0]) ==> run_end(
            s + u,
            p,
            class,
        ) > s.len(),
        run_end(s, p, class) <= s.len(),
    decreases s.len() - p,
{
    let t = s + u;
    crate::scan::lemma_run_end_bounds(s, p, class);
    if p < s.len() {
        assert(t[p] == s[p]);
        if class.spec_accepts(s[p]) {
            lemma_run_in_prefix(s, u, p + 1, class);
        }
    } else if u.len() > 0 {
        assert(t[p] == u[0]);
        if class.spec_accepts(u[0]) {
            crate::scan::lemma_run_end_bounds(t, p + 1, class);
        }
    }
}

/// Positions inside `s` read the same in `s + u`.
pub proof fn lemma_prefix_subrange(s: Seq<char>, u: Seq<char>, a: int, b: int)
    requires
        0 <= a <= b <= s.len(),
    ensures
        (s + u).subrange(a, b) == s.subrange(a, b),
{
    assert((s + u).subrange(a, b) =~= s.subrange(a, b));
}

} // verus!
