//! Which numbers a double holds.
//!
//! A literal stands for a number only where its value is below the limit from
//! which a double rounds to infinity. The value is compared exactly, digit by
//! digit, and never computed.

use crate::digits::{
    all_digits, digits_value, is_digit, lemma_digits_value_at_least, lemma_digits_value_below,
    lemma_digits_value_concat, lemma_digits_value_order, lemma_digits_value_pad,
    lemma_digits_value_skip_zeros, zeros,
};
use crate::number::{
    decimal_power, digits_of, exponent_value, fraction_part, is_decimal, is_exponent, is_literal,
    lemma_decimal_is_literal, literal_parts, mantissa, point_index, scale, significand_text,
    unsigned, whole_part,
};
use crate::text::{chars_of, lemma_find_from_bounds};
use vstd::arithmetic::power::{
    lemma_pow0, lemma_pow_adds, lemma_pow_increases, lemma_pow_positive, pow,
};
use vstd::prelude::*;
use vstd::slice::slice_subrange;

verus! {

/// The digits of `double_limit()`.
pub const DOUBLE_LIMIT_DIGITS: &'static str =
    "179769313486231580793728971405303415079934132710037826936173778980444968292764750946649017977587207096330286416692887910946555547851940402630657488671505820681908902000708383676273854845817711531764475730270069855571366959622842914819860834936475292719074168444365510704342711559699508093042880177904174497792";

/// How many digits `double_limit()` has.
pub const DOUBLE_LIMIT_LEN: usize = 309;

/// The least number that is too large for a double: two to the power 1024,
/// less two to the power 970. A value below it rounds to a finite double,
/// and any other to infinity.
pub open spec fn double_limit() -> nat {
    digits_value(DOUBLE_LIMIT_DIGITS@)
}

/// Whether `n` times ten to the power `p` is below `double_limit()`.
pub open spec fn below_limit(n: nat, p: int) -> bool {
    if p >= 0 {
        n * pow(10, p as nat) < double_limit()
    } else {
        n < double_limit() * pow(10, (-p) as nat)
    }
}

/// The limit's digits: 309 of them, the first not zero.
pub proof fn lemma_limit_digits()
    ensures
        DOUBLE_LIMIT_DIGITS@.len() == DOUBLE_LIMIT_LEN,
        all_digits(DOUBLE_LIMIT_DIGITS@),
        DOUBLE_LIMIT_DIGITS@[0] == '1',
{
    reveal_strlit(
        "179769313486231580793728971405303415079934132710037826936173778980444968292764750946649017977587207096330286416692887910946555547851940402630657488671505820681908902000708383676273854845817711531764475730270069855571366959622842914819860834936475292719074168444365510704342711559699508093042880177904174497792",
    );
}

/// Whether the value of the literal `s` is below `double_limit()`.
pub open spec fn fits_double(s: Seq<char>) -> bool {
    below_limit(mantissa(significand_text(s)), decimal_power(s))
}

/// The limit has 309 digits: it lies between ten to the power 308 and ten to
/// the power 309.
pub proof fn lemma_limit_bounds()
    ensures
        pow(10, 308) <= double_limit() < pow(10, 309),
{
    lemma_limit_digits();
    lemma_digits_value_at_least(DOUBLE_LIMIT_DIGITS@);
    lemma_digits_value_below(DOUBLE_LIMIT_DIGITS@);
}

/// A number of `k` digits at most, times ten to the power `p`, is below the
/// limit where `k + p` is at most 308.
pub proof fn lemma_below_when_short(n: nat, k: nat, p: int)
    requires
        n < pow(10, k),
        k + p <= 308,
    ensures
        below_limit(n, p),
{
    lemma_limit_bounds();
    let limit = double_limit() as int;
    if p >= 0 {
        let tp = pow(10, p as nat);
        lemma_pow_positive(10, p as nat);
        lemma_pow_adds(10, k, p as nat);
        lemma_pow_increases(10, (k + p) as nat, 308);
        assert(n * tp < pow(10, k) * tp) by (nonlinear_arith)
            requires
                n < pow(10, k),
                tp > 0,
        ;
    } else {
        let q = (-p) as nat;
        let tq = pow(10, q);
        lemma_pow_positive(10, q);
        lemma_pow_adds(10, 308, q);
        lemma_pow_increases(10, k, 308 + q);
        assert(pow(10, 308) * tq <= limit * tq) by (nonlinear_arith)
            requires
                pow(10, 308) <= limit,
                tq > 0,
        ;
    }
}

/// A number of `k` digits, times ten to the power `p`, is not below the limit
/// where `k + p` is at least 310.
pub proof fn lemma_not_below_when_long(n: nat, k: nat, p: int)
    requires
        k >= 1,
        n >= pow(10, (k - 1) as nat),
        k + p >= 310,
    ensures
        !below_limit(n, p),
{
    lemma_limit_bounds();
    let limit = double_limit() as int;
    let low = pow(10, (k - 1) as nat);
    if p >= 0 {
        let tp = pow(10, p as nat);
        lemma_pow_positive(10, p as nat);
        lemma_pow_adds(10, (k - 1) as nat, p as nat);
        lemma_pow_increases(10, 309, (k - 1 + p) as nat);
        assert(n * tp >= low * tp) by (nonlinear_arith)
            requires
                n >= low,
                tp > 0,
        ;
    } else {
        let q = (-p) as nat;
        let tq = pow(10, q);
        lemma_pow_positive(10, q);
        lemma_pow_adds(10, 309, q);
        lemma_pow_increases(10, 309 + q, (k - 1) as nat);
        assert(limit * tq < pow(10, 309) * tq) by (nonlinear_arith)
            requires
                limit < pow(10, 309),
                tq > 0,
        ;
    }
}

/// The first 309 digits of `sig`, with zeros where `sig` has fewer.
pub open spec fn leading_digits(sig: Seq<char>) -> Seq<char> {
    Seq::new(
        DOUBLE_LIMIT_LEN as nat,
        |i: int|
            if i < sig.len() {
                sig[i]
            } else {
                '0'
            },
    )
}

/// A number whose digits, shifted by `p`, fill 309 places is below the limit
/// exactly where its first 309 digits write a number below it.
pub proof fn lemma_below_when_level(sig: Seq<char>, p: int)
    requires
        all_digits(sig),
        sig.len() + p == DOUBLE_LIMIT_LEN,
    ensures
        all_digits(leading_digits(sig)),
        below_limit(digits_value(sig), p) <==> digits_value(leading_digits(sig)) < double_limit(),
{
    let c = leading_digits(sig);
    let limit = double_limit() as int;
    assert(all_digits(c));
    if p >= 0 {
        assert(c =~= sig + zeros(p as nat));
        lemma_digits_value_pad(sig, p as nat);
    } else {
        let q = (-p) as nat;
        let tq = pow(10, q);
        let rest = sig.skip(DOUBLE_LIMIT_LEN as int);
        assert(c =~= sig.take(DOUBLE_LIMIT_LEN as int));
        assert(sig =~= c + rest);
        lemma_digits_value_concat(c, rest);
        assert(all_digits(rest));
        lemma_digits_value_below(rest);
        lemma_pow_positive(10, q);
        let vc = digits_value(c) as int;
        let vr = digits_value(rest) as int;
        if vc < limit {
            assert(vc * tq + vr < limit * tq) by (nonlinear_arith)
                requires
                    vc + 1 <= limit,
                    0 <= vr < tq,
            ;
        } else {
            assert(vc * tq + vr >= limit * tq) by (nonlinear_arith)
                requires
                    vc >= limit,
                    vr >= 0,
                    tq > 0,
            ;
        }
    }
}

/// A plain decimal with at most 308 digits before its point fits a double.
pub proof fn lemma_short_decimal_fits(t: Seq<char>)
    requires
        is_decimal(t),
        whole_part(t).len() <= 308,
    ensures
        fits_double(t),
{
    lemma_decimal_is_literal(t);
    let d = digits_of(t);
    assert(all_digits(d)) by {
        assert forall|k: int| 0 <= k < d.len() implies is_digit(#[trigger] d[k]) by {
            if k < whole_part(t).len() {
                assert(d[k] == whole_part(t)[k]);
            } else {
                assert(d[k] == fraction_part(t)[k - whole_part(t).len()]);
            }
        }
    }
    lemma_digits_value_below(d);
    lemma_below_when_short(digits_value(d), d.len(), -(scale(t) as int));
}

/// The most that an exponent counts for: beyond it the sign alone decides.
pub const EXPONENT_CAP: u128 = 1_000_000_000_000_000_000_000_000;

/// `value`, held between `-EXPONENT_CAP` and `EXPONENT_CAP`.
pub open spec fn capped(value: int) -> int {
    if value > EXPONENT_CAP {
        EXPONENT_CAP as int
    } else if value < -EXPONENT_CAP {
        -(EXPONENT_CAP as int)
    } else {
        value
    }
}

/// The digits of the plain decimal `m`, without its point, and how many of
/// them stand after the point.
pub fn decimal_digits(m: &[char]) -> (r: (Vec<char>, usize))
    requires
        is_decimal(m@),
    ensures
        r.0@ == digits_of(m@),
        r.1 == scale(m@),
        all_digits(r.0@),
{
    let n = m.len();
    let ghost p = point_index(m@);
    proof {
        lemma_find_from_bounds(m@, |c: char| c == '.', 0);
    }
    let mut digits: Vec<char> = Vec::new();
    let mut i: usize = 0;
    while i < n && m[i] != '.'
        invariant
            n == m.len(),
            i <= n,
            i <= p <= n,
            p == point_index(m@),
            p < n ==> m@[p] == '.',
            digits@ == m@.subrange(0, i as int),
        decreases n - i,
    {
        digits.push(m[i]);
        assert(digits@ =~= m@.subrange(0, i as int + 1));
        i += 1;
    }
    assert(i == p);
    let mut after: usize = 0;
    if i < n {
        let mut j = i + 1;
        while j < n
            invariant
                n == m.len(),
                i < j <= n,
                i == p,
                p == point_index(m@),
                after == j - i - 1,
                digits@ == m@.subrange(0, i as int) + m@.subrange(i as int + 1, j as int),
            decreases n - j,
        {
            digits.push(m[j]);
            assert(digits@ =~= m@.subrange(0, i as int) + m@.subrange(i as int + 1, j as int + 1));
            j += 1;
            after += 1;
        }
    } else {
        assert(digits@ =~= digits_of(m@));
    }
    proof {
        let d = digits_of(m@);
        assert forall|k: int| 0 <= k < d.len() implies is_digit(#[trigger] d[k]) by {
            if k < p {
                assert(d[k] == whole_part(m@)[k]);
            } else {
                assert(d[k] == fraction_part(m@)[k - p]);
            }
        }
    }
    (digits, after)
}

/// The exponent that `x` writes, held within `EXPONENT_CAP`.
pub fn exponent_capped(x: &[char]) -> (r: i128)
    requires
        x@.len() == 0 || is_exponent(x@),
    ensures
        r == capped(exponent_value(x@)),
{
    let n = x.len();
    if n == 0 {
        assert(unsigned(x@) =~= Seq::<char>::empty());
        return 0;
    }
    let negative = x[0] == '-';
    let start: usize = if x[0] == '+' || x[0] == '-' {
        1
    } else {
        0
    };
    let ghost d = unsigned(x@);
    assert(d == x@.subrange(start as int, n as int));
    let mut total: u128 = 0;
    let mut i: usize = start;
    while i < n
        invariant
            n == x.len(),
            start <= i <= n,
            d == x@.subrange(start as int, n as int),
            all_digits(d),
            total <= EXPONENT_CAP,
            total == if digits_value(d.take(i - start)) > EXPONENT_CAP {
                EXPONENT_CAP as int
            } else {
                digits_value(d.take(i - start)) as int
            },
        decreases n - i,
    {
        let c = x[i];
        assert(c == d[i - start]);
        assert(is_digit(d[i - start]));
        let digit: u128 = (c as u32 - '0' as u32) as u128;
        proof {
            let next = d.take(i - start + 1);
            assert(next.drop_last() =~= d.take(i - start));
            assert(next.last() == c);
        }
        total = total * 10 + digit;
        if total > EXPONENT_CAP {
            total = EXPONENT_CAP;
        }
        i += 1;
    }
    assert(d.take(n - start) =~= d);
    if negative {
        -(total as i128)
    } else {
        total as i128
    }
}

/// Whether the digits `sig`, or as many of them as the limit has, write a
/// number below the limit.
fn leading_digits_below_limit(sig: &[char]) -> (r: bool)
    requires
        all_digits(sig@),
    ensures
        r == (digits_value(leading_digits(sig@)) < double_limit()),
{
    let limit = chars_of(DOUBLE_LIMIT_DIGITS);
    let k = sig.len();
    let ghost c = leading_digits(sig@);
    proof {
        lemma_limit_digits();
        assert(all_digits(c));
    }
    let mut i: usize = 0;
    while i < DOUBLE_LIMIT_LEN
        invariant
            k == sig.len(),
            i <= DOUBLE_LIMIT_LEN,
            limit@ == DOUBLE_LIMIT_DIGITS@,
            limit@.len() == DOUBLE_LIMIT_LEN,
            all_digits(limit@),
            all_digits(c),
            c == leading_digits(sig@),
            forall|j: int| 0 <= j < i ==> c[j] == limit@[j],
        decreases DOUBLE_LIMIT_LEN - i,
    {
        let digit = if i < k {
            sig[i]
        } else {
            '0'
        };
        assert(digit == c[i as int]);
        if digit < limit[i] {
            proof {
                lemma_digits_value_order(c, limit@, i as int);
            }
            return true;
        }
        if digit > limit[i] {
            proof {
                lemma_digits_value_order(limit@, c, i as int);
            }
            return false;
        }
        i += 1;
    }
    assert(c =~= limit@);
    false
}

/// Decides `fits_double` for a literal.
pub fn fits_double_in(s: &[char]) -> (r: bool)
    requires
        is_literal(s@),
    ensures
        r == fits_double(s@),
{
    let (significand, exponent, with_exponent) = literal_parts(s);
    let (digits, after) = decimal_digits(significand);
    let n = digits.len();
    let ghost d = digits@;
    let ghost power = decimal_power(s@);
    let mut z: usize = 0;
    while z < n && digits[z] == '0'
        invariant
            n == digits.len(),
            z <= n,
            forall|j: int| 0 <= j < z ==> digits@[j] == '0',
        decreases n - z,
    {
        z += 1;
    }
    proof {
        lemma_digits_value_skip_zeros(d, z as int);
    }
    if z == n {
        proof {
            assert(d.skip(n as int) =~= Seq::<char>::empty());
            assert(digits_value(d) == 0);
            lemma_pow0(10);
            lemma_below_when_short(0, 0, if power <= 0 {
                power
            } else {
                0
            });
            lemma_limit_bounds();
            lemma_pow_positive(10, 308);
            if power >= 0 {
                assert(0 * pow(10, power as nat) == 0);
            } else {
                lemma_pow_positive(10, (-power) as nat);
                assert(0 < double_limit() * pow(10, (-power) as nat)) by (nonlinear_arith)
                    requires
                        double_limit() > 0,
                        pow(10, (-power) as nat) > 0,
                ;
            }
        }
        return true;
    }
    let sig = slice_subrange(digits.as_slice(), z, n);
    let k = n - z;
    assert(sig@ == d.skip(z as int));
    assert(all_digits(sig@));
    assert(sig@[0] != '0');
    let e = exponent_capped(exponent);
    let places: i128 = (k as i128) - (after as i128) + e;
    proof {
        lemma_digits_value_below(sig@);
        lemma_digits_value_at_least(sig@);
    }
    if places < 309 {
        proof {
            lemma_below_when_short(digits_value(sig@), k as nat, power);
        }
        true
    } else if places > 309 {
        proof {
            lemma_not_below_when_long(digits_value(sig@), k as nat, power);
        }
        false
    } else {
        proof {
            lemma_below_when_level(sig@, power);
        }
        leading_digits_below_limit(sig)
    }
}

} // verus!
