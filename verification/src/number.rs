//! Numeric literals: which character sequences are numbers.
//!
//! A number is written as an optional sign, decimal digits with at most one
//! point among them (at least one digit), and an optional exponent: `e` or
//! `E`, an optional sign, and at least one digit. Its value must be one that
//! a double holds.

use crate::digits::{all_digits, all_digits_in, digits_value, is_digit};
use crate::double::{fits_double, fits_double_in, lemma_short_decimal_fits};
use crate::text::{chars_of, find_from, lemma_find_from_bounds, lemma_find_from_is};
use vstd::prelude::*;
use vstd::slice::slice_subrange;

verus! {

/// Whether `c` is a plus or a minus sign.
pub open spec fn is_sign(c: char) -> bool {
    c == '+' || c == '-'
}

/// `s` without a leading sign.
pub open spec fn unsigned(s: Seq<char>) -> Seq<char> {
    if s.len() > 0 && is_sign(s[0]) {
        s.subrange(1, s.len() as int)
    } else {
        s
    }
}

/// The index of the first decimal point of `s`, or the length of `s`.
pub open spec fn point_index(s: Seq<char>) -> int {
    find_from(s, |c: char| c == '.', 0)
}

/// What stands before the first decimal point of `s`.
pub open spec fn whole_part(s: Seq<char>) -> Seq<char> {
    s.subrange(0, point_index(s))
}

/// What stands after the first decimal point of `s`; empty where `s` has none.
pub open spec fn fraction_part(s: Seq<char>) -> Seq<char> {
    if point_index(s) < s.len() {
        s.subrange(point_index(s) + 1, s.len() as int)
    } else {
        Seq::empty()
    }
}

/// Whether `s` is a plain decimal: digits with at most one point among them,
/// and at least one digit.
pub open spec fn is_decimal(s: Seq<char>) -> bool {
    &&& all_digits(whole_part(s))
    &&& all_digits(fraction_part(s))
    &&& whole_part(s).len() + fraction_part(s).len() > 0
}

/// The index of the first `e` or `E` of `s`, or the length of `s`.
pub open spec fn exponent_index(s: Seq<char>) -> int {
    find_from(s, |c: char| c == 'e' || c == 'E', 0)
}

/// Whether `s` can follow the `e` of a number: an optional sign and at least
/// one digit.
pub open spec fn is_exponent(s: Seq<char>) -> bool {
    unsigned(s).len() > 0 && all_digits(unsigned(s))
}

/// What the literal `s` holds before its exponent, without its sign.
pub open spec fn significand_text(s: Seq<char>) -> Seq<char> {
    unsigned(s).subrange(0, exponent_index(unsigned(s)))
}

/// Whether the literal `s` has an `e` or `E`.
pub open spec fn has_exponent(s: Seq<char>) -> bool {
    exponent_index(unsigned(s)) < unsigned(s).len()
}

/// What follows the first `e` or `E` of the literal `s`; empty where `s` has
/// none.
pub open spec fn exponent_text(s: Seq<char>) -> Seq<char> {
    if has_exponent(s) {
        unsigned(s).subrange(exponent_index(unsigned(s)) + 1, unsigned(s).len() as int)
    } else {
        Seq::empty()
    }
}

/// Whether `s` has the form of a number: an optional sign, a plain decimal,
/// and an optional exponent.
pub open spec fn is_literal(s: Seq<char>) -> bool {
    &&& is_decimal(significand_text(s))
    &&& has_exponent(s) ==> is_exponent(exponent_text(s))
}

/// Whether `s` is a number: it has the form of one, and its value is not too
/// large for a double.
pub open spec fn is_number_text(s: Seq<char>) -> bool {
    is_literal(s) && fits_double(s)
}

/// The digits of the plain decimal `s`, without its point.
pub open spec fn digits_of(s: Seq<char>) -> Seq<char> {
    whole_part(s) + fraction_part(s)
}

/// The plain decimal `s` as a whole number of units of its last place: its
/// value is `mantissa(s)` divided by ten to the power `scale(s)`.
pub open spec fn mantissa(s: Seq<char>) -> nat {
    digits_value(digits_of(s))
}

/// The number of digits that the plain decimal `s` has after its point.
pub open spec fn scale(s: Seq<char>) -> nat {
    fraction_part(s).len()
}

/// The whole number that the exponent text `t` writes; zero for no text.
pub open spec fn exponent_value(t: Seq<char>) -> int {
    if t.len() > 0 && t[0] == '-' {
        -(digits_value(unsigned(t)) as int)
    } else {
        digits_value(unsigned(t)) as int
    }
}

/// The power of ten that the mantissa of the literal `s` is multiplied by:
/// its exponent, less the number of digits after its point.
pub open spec fn decimal_power(s: Seq<char>) -> int {
    exponent_value(exponent_text(s)) - scale(significand_text(s))
}

/// A plain decimal has the form of a number, without sign or exponent.
pub proof fn lemma_decimal_is_literal(s: Seq<char>)
    requires
        is_decimal(s),
    ensures
        is_literal(s),
        significand_text(s) == s,
        !has_exponent(s),
        exponent_text(s) == Seq::<char>::empty(),
        decimal_power(s) == -scale(s),
{
    let p = point_index(s);
    lemma_find_from_bounds(s, |c: char| c == '.', 0);
    assert forall|i: int| 0 <= i < s.len() implies is_digit(#[trigger] s[i]) || s[i] == '.' by {
        if i < p {
            assert(whole_part(s)[i] == s[i]);
        } else if i > p {
            assert(fraction_part(s)[i - p - 1] == s[i]);
        }
    }
    assert(s.len() > 0);
    assert(is_digit(s[0]) || s[0] == '.');
    assert(unsigned(s) == s);
    lemma_find_from_is(s, |c: char| c == 'e' || c == 'E', 0, s.len() as int);
    assert(s.subrange(0, s.len() as int) =~= s);
    assert(unsigned(Seq::<char>::empty()) =~= Seq::<char>::empty());
}

/// What has the form of a number begins with a digit, a sign or a point.
pub proof fn lemma_literal_starts(s: Seq<char>)
    requires
        is_literal(s),
    ensures
        s.len() > 0,
        is_digit(s[0]) || is_sign(s[0]) || s[0] == '.',
{
    let u = unsigned(s);
    let e = exponent_index(u);
    lemma_find_from_bounds(u, |c: char| c == 'e' || c == 'E', 0);
    let m = significand_text(s);
    let p = point_index(m);
    lemma_find_from_bounds(m, |c: char| c == '.', 0);
    assert(m.len() > 0);
    if p > 0 {
        assert(whole_part(m)[0] == m[0]);
        assert(is_digit(whole_part(m)[0]));
    }
    assert(m[0] == u[0]);
}

/// Digits alone are a plain decimal without a fraction.
pub proof fn lemma_whole_number(s: Seq<char>)
    requires
        all_digits(s),
        s.len() > 0,
    ensures
        is_decimal(s),
        mantissa(s) == digits_value(s),
        scale(s) == 0,
{
    assert forall|i: int| 0 <= i < s.len() implies #[trigger] s[i] != '.' by {
        assert(is_digit(s[i]));
    }
    lemma_find_from_is(s, |c: char| c == '.', 0, s.len() as int);
    assert(whole_part(s) =~= s);
    assert(digits_of(s) =~= s);
}

/// Up to 308 digits alone are a number.
pub proof fn lemma_digits_are_number(s: Seq<char>)
    requires
        all_digits(s),
        0 < s.len() <= 308,
    ensures
        is_number_text(s),
        is_decimal(s),
        fits_double(s),
{
    lemma_whole_number(s);
    lemma_decimal_is_literal(s);
    lemma_find_from_bounds(s, |c: char| c == '.', 0);
    lemma_short_decimal_fits(s);
}

/// Decides `is_decimal`.
pub fn is_decimal_in(s: &[char]) -> (r: bool)
    ensures
        r == is_decimal(s@),
{
    let n = s.len();
    let mut p: usize = 0;
    while p < n && s[p] != '.'
        invariant
            n == s.len(),
            p <= n,
            forall|j: int| 0 <= j < p ==> s@[j] != '.',
        decreases n - p,
    {
        p += 1;
    }
    proof {
        lemma_find_from_is(s@, |c: char| c == '.', 0, p as int);
    }
    let whole = slice_subrange(s, 0, p);
    if !all_digits_in(whole) {
        return false;
    }
    if p < n {
        let fraction = slice_subrange(s, p + 1, n);
        all_digits_in(fraction) && n > 1
    } else {
        n > 0
    }
}

/// Decides `is_exponent`.
pub fn is_exponent_in(s: &[char]) -> (r: bool)
    ensures
        r == is_exponent(s@),
{
    let n = s.len();
    if n > 0 && (s[0] == '+' || s[0] == '-') {
        n > 1 && all_digits_in(slice_subrange(s, 1, n))
    } else {
        n > 0 && all_digits_in(s)
    }
}

/// The parts of `s` as a literal: what stands before the exponent, without
/// the sign; what follows the `e`; and whether there is an `e`.
pub fn literal_parts<'a>(s: &'a [char]) -> (r: (&'a [char], &'a [char], bool))
    ensures
        r.0@ == significand_text(s@),
        r.1@ == exponent_text(s@),
        r.2 == has_exponent(s@),
{
    let n = s.len();
    let u = if n > 0 && (s[0] == '+' || s[0] == '-') {
        slice_subrange(s, 1, n)
    } else {
        s
    };
    assert(u@ == unsigned(s@));
    let m = u.len();
    let mut e: usize = 0;
    while e < m && u[e] != 'e' && u[e] != 'E'
        invariant
            m == u.len(),
            e <= m,
            forall|j: int| 0 <= j < e ==> u@[j] != 'e' && u@[j] != 'E',
        decreases m - e,
    {
        e += 1;
    }
    proof {
        lemma_find_from_is(u@, |c: char| c == 'e' || c == 'E', 0, e as int);
    }
    if e < m {
        (slice_subrange(u, 0, e), slice_subrange(u, e + 1, m), true)
    } else {
        let nothing = slice_subrange(u, m, m);
        assert(nothing@ =~= Seq::<char>::empty());
        (slice_subrange(u, 0, e), nothing, false)
    }
}

/// Decides `is_literal`.
pub fn is_literal_in(s: &[char]) -> (r: bool)
    ensures
        r == is_literal(s@),
{
    let (significand, exponent, with_exponent) = literal_parts(s);
    is_decimal_in(significand) && (!with_exponent || is_exponent_in(exponent))
}

/// Decides `is_number_text`.
pub fn is_number_in(s: &[char]) -> (r: bool)
    ensures
        r == is_number_text(s@),
{
    is_literal_in(s) && fits_double_in(s)
}

/// Whether `s` is a number, such as `8`, `-0.5` or `1.5e3`.
pub fn is_number(s: &str) -> (r: bool)
    ensures
        r == is_number_text(s@),
{
    let chars = chars_of(s);
    is_number_in(chars.as_slice())
}

} // verus!
