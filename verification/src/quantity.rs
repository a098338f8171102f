//! Quantity phrases such as `8oz`, `1 bar` or `250`: a number and a unit.

use crate::digits::{all_digits, digits_value, is_digit, lemma_digits_value_zero};
use crate::double::{fits_double, fits_double_in, lemma_short_decimal_fits};
use crate::number::{
    digits_of, fraction_part, is_decimal, is_decimal_in, lemma_decimal_is_literal,
    lemma_whole_number, mantissa, point_index, scale, whole_part,
};
use crate::text::{
    chars_of, find_from, is_ascii, is_space, lemma_cut_back_is, lemma_find_from_bounds,
    lemma_find_from_is, lemma_lowercase_is_identity, lemma_trim_is_identity, lowercase,
    string_of, to_lowercase, trim, trim_bounds,
};
use vstd::prelude::*;
use vstd::slice::slice_subrange;

verus! {

/// What `char::is_numeric` returns for `c`: whether Unicode puts `c` in one of
/// its general categories for numbers.
pub uninterp spec fn unicode_numeric(c: char) -> bool;

/// Whether `c` counts as part of a number: a decimal digit where `c` is
/// ASCII, a numeric character of Unicode otherwise.
pub open spec fn is_numeric(c: char) -> bool {
    if is_ascii(c) {
        is_digit(c)
    } else {
        unicode_numeric(c)
    }
}

/// Calls `char::is_numeric`. Nothing is claimed of the result but that it
/// depends on `c` alone.
#[verifier::external_body]
fn is_unicode_numeric(c: char) -> (r: bool)
    ensures
        r == unicode_numeric(c),
{
    c.is_numeric()
}

/// Decides `is_numeric`.
pub fn is_numeric_char(c: char) -> (r: bool)
    ensures
        r == is_numeric(c),
{
    if (c as u32) <= 0x7F {
        '0' <= c && c <= '9'
    } else {
        is_unicode_numeric(c)
    }
}

/// Where the number at the start of `t` ends: the index of the first
/// character that is neither numeric nor a decimal point, or the length of `t`.
pub open spec fn number_end(t: Seq<char>) -> int {
    find_from(t, |c: char| !is_numeric(c) && c != '.', 0)
}

/// A quantity phrase, split: the text of its number and its unit.
pub struct Phrase {
    pub number: Seq<char>,
    pub unit: Seq<char>,
}

/// Whether `t` can be the number of a quantity: a plain decimal that a
/// double holds.
pub open spec fn is_amount_number(t: Seq<char>) -> bool {
    is_decimal(t) && fits_double(t)
}

/// How the quantity phrase `s` splits, if it begins with a number. A phrase
/// that is a number and nothing else is in grams.
pub open spec fn split_quantity(s: Seq<char>) -> Option<Phrase> {
    let t = lowercase(trim(s));
    let e = number_end(t);
    if !is_amount_number(t.subrange(0, e)) {
        None
    } else if e < t.len() {
        Some(Phrase { number: t.subrange(0, e), unit: trim(t.subrange(e, t.len() as int)) })
    } else {
        Some(Phrase { number: t, unit: "g"@ })
    }
}

/// A number, any spaces and then small letters of ASCII split into the number
/// and the letters.
pub proof fn lemma_split_spaced(number: Seq<char>, gap: Seq<char>, unit: Seq<char>)
    requires
        is_amount_number(number),
        forall|i: int| 0 <= i < gap.len() ==> #[trigger] gap[i] == ' ',
        unit.len() > 0,
        forall|i: int| 0 <= i < unit.len() ==> 'a' <= #[trigger] unit[i] <= 'z',
    ensures
        split_quantity(number + gap + unit) == Some(Phrase { number, unit }),
{
    let s = number + gap + unit;
    let n = number.len() as int;
    let g = gap.len() as int;
    let p = point_index(number);
    lemma_find_from_bounds(number, |c: char| c == '.', 0);
    assert forall|i: int| 0 <= i < n implies is_digit(#[trigger] number[i]) || number[i] == '.' by {
        if i < p {
            assert(whole_part(number)[i] == number[i]);
        } else if i > p {
            assert(fraction_part(number)[i - p - 1] == number[i]);
        }
    }
    assert(n > 0);
    assert forall|i: int| 0 <= i < s.len() implies is_ascii(#[trigger] s[i]) && !('A' <= s[i] <= 'Z') by {
        if i < n {
            assert(s[i] == number[i]);
        } else if i < n + g {
            assert(s[i] == gap[i - n]);
        } else {
            assert(s[i] == unit[i - n - g]);
        }
    }
    assert(s[0] == number[0]);
    assert(s[s.len() - 1] == unit[unit.len() - 1]);
    lemma_trim_is_identity(s);
    lemma_lowercase_is_identity(s);
    assert forall|i: int| 0 <= i < n implies !(!is_numeric(#[trigger] s[i]) && s[i] != '.') by {
        assert(s[i] == number[i]);
    }
    assert(s[n] == if g > 0 {
        gap[0]
    } else {
        unit[0]
    });
    lemma_find_from_is(s, |c: char| !is_numeric(c) && c != '.', 0, n);
    assert(s.subrange(0, n) =~= number);
    let rest = s.subrange(n, s.len() as int);
    assert(rest =~= gap + unit);
    assert forall|i: int| 0 <= i < g implies is_space(#[trigger] rest[i]) by {
        assert(rest[i] == gap[i]);
    }
    assert(rest[g] == unit[0]);
    assert(rest[rest.len() - 1] == unit[unit.len() - 1]);
    lemma_find_from_is(rest, |c: char| !is_space(c), 0, g);
    lemma_cut_back_is(rest, |c: char| is_space(c), rest.len() as int, rest.len() as int);
    assert(rest.subrange(g, rest.len() as int) =~= unit);
}

/// Digits with small letters of ASCII behind them are a quantity: the digits
/// are its number, a whole one, and the letters its unit.
pub proof fn lemma_whole_quantity(number: Seq<char>, unit: Seq<char>)
    requires
        all_digits(number),
        0 < number.len() <= 308,
        unit.len() > 0,
        forall|i: int| 0 <= i < unit.len() ==> 'a' <= #[trigger] unit[i] <= 'z',
    ensures
        split_quantity(number + unit) == Some(Phrase { number, unit }),
        mantissa(number) == digits_value(number),
        scale(number) == 0,
{
    lemma_whole_number(number);
    lemma_find_from_bounds(number, |c: char| c == '.', 0);
    lemma_short_decimal_fits(number);
    lemma_split_spaced(number, Seq::empty(), unit);
    assert(number + Seq::<char>::empty() + unit =~= number + unit);
}

/// A number that is not negative, kept as the plain decimal that wrote it.
#[derive(Debug)]
pub struct Decimal {
    pub text: String,
}

impl Decimal {
    /// The text is a plain decimal that a double holds.
    pub open spec fn wf(&self) -> bool {
        is_amount_number(self.text@)
    }

    /// The number is `mantissa()` divided by ten to the power `scale()`.
    pub open spec fn mantissa(&self) -> nat {
        mantissa(self.text@)
    }

    /// The number of digits after the point.
    pub open spec fn scale(&self) -> nat {
        fraction_part(self.text@).len()
    }

    /// The number that `text` writes, where it writes one.
    pub fn new(text: &str) -> (r: Option<Decimal>)
        ensures
            match r {
                Some(d) => d.text@ == text@ && d.wf(),
                None => !is_amount_number(text@),
            },
    {
        let chars = chars_of(text);
        if !is_decimal_in(chars.as_slice()) {
            return None;
        }
        proof {
            lemma_decimal_is_literal(chars@);
        }
        if !fits_double_in(chars.as_slice()) {
            return None;
        }
        Some(Decimal { text: text.to_owned() })
    }

    /// Whether the number is zero.
    pub fn is_zero(&self) -> (r: bool)
        requires
            self.wf(),
        ensures
            r == (self.mantissa() == 0),
    {
        let chars = chars_of(self.text.as_str());
        let n = chars.len();
        let ghost s = chars@;
        let ghost p = point_index(s);
        let ghost d = digits_of(s);
        proof {
            lemma_find_from_bounds(s, |c: char| c == '.', 0);
            lemma_digits_value_zero(d);
        }
        let mut i: usize = 0;
        while i < n
            invariant
                n == chars.len(),
                s == chars@,
                s == self.text@,
                i <= n,
                0 <= p <= n,
                p == point_index(s),
                p < n ==> s[p] == '.',
                d == digits_of(s),
                all_digits(d),
                digits_value(d) == 0 <==> forall|j: int| 0 <= j < d.len() ==> #[trigger] d[j] == '0',
                forall|j: int| 0 <= j < i ==> s[j] == '0' || s[j] == '.',
            decreases n - i,
        {
            if chars[i] != '0' && chars[i] != '.' {
                proof {
                    if i < p {
                        assert(d[i as int] == s[i as int]);
                    } else {
                        assert(d[i as int - 1] == s[i as int]);
                    }
                }
                return false;
            }
            i += 1;
        }
        proof {
            assert forall|j: int| 0 <= j < d.len() implies #[trigger] d[j] == '0' by {
                assert(is_digit(d[j]));
                if j < p {
                    assert(d[j] == s[j]);
                } else {
                    assert(d[j] == s[j + 1]);
                }
            }
        }
        true
    }
}

/// A parsed quantity: a number and the lower-case unit that follows it.
#[derive(Debug)]
pub struct Quantity {
    pub value: Decimal,
    pub unit: String,
}

impl Quantity {
    /// The quantity as the two texts that it holds.
    pub open spec fn view(&self) -> Phrase {
        Phrase { number: self.value.text@, unit: self.unit@ }
    }
}

/// The view of an optional quantity.
pub open spec fn phrase_of(q: Option<Quantity>) -> Option<Phrase> {
    match q {
        Some(q) => Some(q@),
        None => None,
    }
}

/// Parses a quantity phrase: a number, then whatever follows it as the unit,
/// in lower case and without the white space around it.
pub fn parse_quantity(s: &str) -> (r: Option<Quantity>)
    ensures
        phrase_of(r) == split_quantity(s@),
        r matches Some(q) ==> q.value.wf(),
{
    let chars = chars_of(s);
    let (a, b) = trim_bounds(chars.as_slice());
    let lowered = to_lowercase(slice_subrange(chars.as_slice(), a, b));
    let t = lowered.as_slice();
    let n = t.len();
    let mut e: usize = 0;
    while e < n && (is_numeric_char(t[e]) || t[e] == '.')
        invariant
            n == t.len(),
            e <= n,
            forall|j: int| 0 <= j < e ==> is_numeric(#[trigger] t@[j]) || t@[j] == '.',
        decreases n - e,
    {
        e += 1;
    }
    proof {
        lemma_find_from_is(t@, |c: char| !is_numeric(c) && c != '.', 0, e as int);
    }
    let number = slice_subrange(t, 0, e);
    if !is_decimal_in(number) {
        return None;
    }
    proof {
        lemma_decimal_is_literal(number@);
    }
    if !fits_double_in(number) {
        return None;
    }
    if e < n {
        let rest = slice_subrange(t, e, n);
        let (ua, ub) = trim_bounds(rest);
        let unit = string_of(slice_subrange(rest, ua, ub));
        Some(Quantity { value: Decimal { text: string_of(number) }, unit })
    } else {
        assert(number@ =~= t@);
        Some(Quantity { value: Decimal { text: string_of(number) }, unit: "g".to_owned() })
    }
}

} // verus!
