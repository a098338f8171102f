//! Normalizing quantities to grams and scaling an amount against a serving.
//!
//! Nothing here rounds: a weight is kept as the decimal that wrote the amount
//! and the factor of its unit, and the contracts speak of exact fractions.

use crate::digits::lemma_three_digits;
use crate::number::mantissa;
use crate::quantity::{lemma_whole_quantity, parse_quantity, split_quantity, Decimal, Quantity};
use crate::text::{chars_of, lemma_lowercase_is_identity, lowercase, to_lowercase};
use crate::units::{factor_of, grams_factor, FACTOR_SCALE};
use vstd::arithmetic::power::{lemma_pow0, lemma_pow_positive, pow};
use vstd::prelude::*;

verus! {

/// A weight in grams: `value` units, each of `factor` parts of a gram, where
/// `FACTOR_SCALE` parts make one gram.
#[derive(Debug)]
pub struct Grams {
    pub value: Decimal,
    pub factor: u32,
}

impl Grams {
    /// The value is a plain decimal and one unit weighs something.
    pub open spec fn wf(&self) -> bool {
        self.value.wf() && self.factor > 0
    }

    /// The weight in grams is `numerator()` divided by `denominator()`.
    pub open spec fn numerator(&self) -> nat {
        self.value.mantissa() * self.factor as nat
    }

    /// What `numerator()` is divided by; never zero.
    pub open spec fn denominator(&self) -> nat {
        (pow(10, self.value.scale()) * FACTOR_SCALE) as nat
    }

    /// Whether the weight is zero.
    pub fn is_zero(&self) -> (r: bool)
        requires
            self.wf(),
        ensures
            r == (self.numerator() == 0),
    {
        let zero = self.value.is_zero();
        proof {
            let m = self.value.mantissa() as int;
            let f = self.factor as int;
            assert(m == 0 ==> m * f == 0);
            assert(m > 0 && f > 0 ==> m * f > 0) by (nonlinear_arith);
        }
        zero
    }
}

/// By how much to multiply what a serving holds: the weight of an amount
/// divided by the weight of the serving.
#[derive(Debug)]
pub struct Multiplier {
    pub amount: Grams,
    pub serving: Grams,
}

impl Multiplier {
    /// Both weights are well formed and the serving weighs something.
    pub open spec fn wf(&self) -> bool {
        self.amount.wf() && self.serving.wf() && self.serving.numerator() > 0
    }

    /// The multiplier is `numerator()` divided by `denominator()`.
    pub open spec fn numerator(&self) -> nat {
        self.amount.numerator() * self.serving.denominator()
    }

    /// What `numerator()` is divided by; not zero where the multiplier is well formed.
    pub open spec fn denominator(&self) -> nat {
        self.amount.denominator() * self.serving.numerator()
    }
}

/// The weight of `value` units of `unit`, whatever the case of `unit`. A unit
/// that the vocabulary gives no weight counts as one gram; there is always a
/// result.
pub fn to_grams(value: Decimal, unit: &str) -> (r: Option<Grams>)
    requires
        value.wf(),
    ensures
        r == Some(Grams { value, factor: grams_factor(lowercase(unit@)) as u32 }),
        r->0.wf(),
{
    let chars = chars_of(unit);
    let lowered = to_lowercase(chars.as_slice());
    let factor = factor_of(lowered.as_slice());
    Some(Grams { value, factor })
}

/// Whether an amount can be scaled against a serving: both are quantity
/// phrases, and the serving is not zero.
pub open spec fn scalable(amount: Seq<char>, serving: Seq<char>) -> bool {
    &&& split_quantity(amount) is Some
    &&& split_quantity(serving) is Some
    &&& mantissa(split_quantity(serving)->0.number) > 0
}

/// Whether `g` is the weight that the quantity phrase `s` states.
pub open spec fn weighs(g: Grams, s: Seq<char>) -> bool {
    &&& split_quantity(s) matches Some(phrase)
    &&& g.value.text@ == phrase.number
    &&& g.factor == grams_factor(lowercase(phrase.unit))
}

/// The multiplier for `amount` of a food whose values are given per
/// `serving`: `None` where either is no quantity phrase or the serving
/// weighs nothing.
pub fn parse_amount_multiplier(amount: &str, serving: &str) -> (r: Option<Multiplier>)
    ensures
        r is Some <==> scalable(amount@, serving@),
        r matches Some(m) ==> m.wf() && weighs(m.amount, amount@) && weighs(m.serving, serving@),
{
    let amount_quantity = match parse_quantity(amount) {
        Some(q) => q,
        None => {
            return None;
        },
    };
    let serving_quantity = match parse_quantity(serving) {
        Some(q) => q,
        None => {
            return None;
        },
    };
    let Quantity { value: amount_value, unit: amount_unit } = amount_quantity;
    let Quantity { value: serving_value, unit: serving_unit } = serving_quantity;
    let amount_grams = match to_grams(amount_value, amount_unit.as_str()) {
        Some(g) => g,
        None => {
            return None;
        },
    };
    let serving_grams = match to_grams(serving_value, serving_unit.as_str()) {
        Some(g) => g,
        None => {
            return None;
        },
    };
    if serving_grams.is_zero() {
        proof {
            let m = serving_grams.value.mantissa() as int;
            let f = serving_grams.factor as int;
            assert(m > 0 && f > 0 ==> m * f > 0) by (nonlinear_arith);
        }
        return None;
    }
    proof {
        let m = serving_grams.value.mantissa() as int;
        let f = serving_grams.factor as int;
        assert(m == 0 ==> m * f == 0);
    }
    Some(Multiplier { amount: amount_grams, serving: serving_grams })
}

/// Grams stay what they are: the weight of a value in `g` is the value.
pub proof fn law_grams_stay(value: Decimal)
    requires
        value.wf(),
    ensures
        ({
            let grams = Grams { value, factor: grams_factor(lowercase("g"@)) as u32 };
            &&& grams.factor == FACTOR_SCALE
            &&& grams.numerator() * pow(10, value.scale()) == value.mantissa() * grams.denominator()
        }),
{
    reveal_strlit("g");
    lemma_lowercase_is_identity("g"@);
    let m = value.mantissa() as int;
    let t = pow(10, value.scale());
    lemma_pow_positive(10, value.scale());
    assert((m * 10_000) * t == m * (t * 10_000)) by (nonlinear_arith);
}

/// An amount that is the serving itself scales by exactly one.
pub proof fn law_serving_scales_by_one(m: Multiplier, serving: Seq<char>)
    requires
        m.wf(),
        weighs(m.amount, serving),
        weighs(m.serving, serving),
    ensures
        m.numerator() == m.denominator(),
{
    let a = m.amount.numerator() as int;
    let b = m.serving.denominator() as int;
    assert(m.amount.value.text@ == m.serving.value.text@);
    assert(a * b == b * a) by (nonlinear_arith);
}

/// In one unit and with as many decimals, the multiplier is the number of the
/// amount divided by the number of the serving.
pub proof fn law_same_unit_scales_by_ratio(m: Multiplier)
    requires
        m.wf(),
        m.amount.factor == m.serving.factor,
        m.amount.value.scale() == m.serving.value.scale(),
    ensures
        m.numerator() * m.serving.value.mantissa() == m.denominator() * m.amount.value.mantissa(),
{
    let a = m.amount.value.mantissa() as int;
    let s = m.serving.value.mantissa() as int;
    let f = m.amount.factor as int;
    let d = m.serving.denominator() as int;
    assert(m.amount.denominator() == m.serving.denominator());
    assert(((a * f) * d) * s == (d * (s * f)) * a) by (nonlinear_arith);
}

/// For a food whose values are given per `100g`, an amount of `100g` scales
/// by exactly one and an amount of `200g` by exactly two.
pub proof fn law_hundred_grams(one: Multiplier, two: Multiplier)
    requires
        weighs(one.amount, "100g"@),
        weighs(one.serving, "100g"@),
        weighs(two.amount, "200g"@),
        weighs(two.serving, "100g"@),
    ensures
        scalable("100g"@, "100g"@),
        scalable("200g"@, "100g"@),
        one.numerator() == one.denominator(),
        two.numerator() == 2 * two.denominator(),
{
    reveal_strlit("100g");
    reveal_strlit("200g");
    reveal_strlit("g");
    let g = seq!['g'];
    let hundred = seq!['1', '0', '0'];
    let two_hundred = seq!['2', '0', '0'];
    assert("g"@ =~= g);
    assert("100g"@ =~= hundred + g);
    assert("200g"@ =~= two_hundred + g);
    lemma_whole_quantity(hundred, g);
    lemma_whole_quantity(two_hundred, g);
    lemma_three_digits('1', '0', '0');
    lemma_three_digits('2', '0', '0');
    lemma_lowercase_is_identity(g);
    lemma_pow0(10);
    assert(one.amount.numerator() == 100 * 10_000);
    assert(one.serving.numerator() == 100 * 10_000);
    assert(two.amount.numerator() == 200 * 10_000);
    assert(two.serving.numerator() == 100 * 10_000);
    assert(one.amount.denominator() == 10_000);
    assert(two.amount.denominator() == 10_000);
}

} // verus!
