//! Rows of decimal digits and the natural numbers that they write.

use vstd::arithmetic::power::{lemma_pow0, lemma_pow1, lemma_pow_adds, pow};
use vstd::prelude::*;

verus! {

/// Whether `c` is one of the ten decimal digits.
pub open spec fn is_digit(c: char) -> bool {
    '0' <= c <= '9'
}

/// Whether every character of `s` is a decimal digit.
pub open spec fn all_digits(s: Seq<char>) -> bool {
    forall|i: int| 0 <= i < s.len() ==> is_digit(#[trigger] s[i])
}

/// The value of the digit `c`.
pub open spec fn digit_of(c: char) -> nat {
    (c as u32 - '0' as u32) as nat
}

/// The natural number that the digits `s` write, the most significant first.
pub open spec fn digits_value(s: Seq<char>) -> nat
    decreases s.len(),
{
    if s.len() == 0 {
        0
    } else {
        digits_value(s.drop_last()) * 10 + digit_of(s.last())
    }
}

/// `n` zeros.
pub open spec fn zeros(n: nat) -> Seq<char> {
    Seq::new(n, |i: int| '0')
}

/// One more digit behind multiplies by ten and adds the digit.
pub proof fn lemma_digits_value_push(s: Seq<char>, c: char)
    ensures
        digits_value(s.push(c)) == digits_value(s) * 10 + digit_of(c),
{
    assert(s.push(c).drop_last() =~= s);
    assert(s.push(c).last() == c);
}

/// What three digits write.
pub proof fn lemma_three_digits(a: char, b: char, c: char)
    ensures
        digits_value(seq![a, b, c]) == (digit_of(a) * 10 + digit_of(b)) * 10 + digit_of(c),
{
    let none = Seq::<char>::empty();
    lemma_digits_value_push(none, a);
    lemma_digits_value_push(none.push(a), b);
    lemma_digits_value_push(none.push(a).push(b), c);
    assert(none.push(a).push(b).push(c) =~= seq![a, b, c]);
}

/// Digits that are split in two write the first part, shifted by the length
/// of the second, plus the second.
pub proof fn lemma_digits_value_concat(x: Seq<char>, y: Seq<char>)
    ensures
        digits_value(x + y) == digits_value(x) * pow(10, y.len()) + digits_value(y),
    decreases y.len(),
{
    if y.len() == 0 {
        assert(x + y =~= x);
        lemma_pow0(10);
    } else {
        let front = y.drop_last();
        assert((x + y).drop_last() =~= x + front);
        assert((x + y).last() == y.last());
        lemma_digits_value_concat(x, front);
        let a = digits_value(x) as int;
        let b = pow(10, front.len());
        assert(pow(10, y.len()) == 10 * b) by {
            lemma_pow_adds(10, 1, front.len());
            lemma_pow1(10);
        }
        assert((a * b + digits_value(front)) * 10 == a * (10 * b) + digits_value(front) * 10)
            by (nonlinear_arith);
    }
}

/// Digits write zero exactly where each of them is `0`.
pub proof fn lemma_digits_value_zero(s: Seq<char>)
    requires
        all_digits(s),
    ensures
        digits_value(s) == 0 <==> forall|i: int| 0 <= i < s.len() ==> #[trigger] s[i] == '0',
    decreases s.len(),
{
    if s.len() > 0 {
        let front = s.drop_last();
        assert(all_digits(front)) by {
            assert forall|i: int| 0 <= i < front.len() implies is_digit(#[trigger] front[i]) by {
                assert(front[i] == s[i]);
            }
        }
        lemma_digits_value_zero(front);
        assert(is_digit(s[s.len() - 1]));
        if digits_value(s) == 0 {
            assert(s.last() == '0');
            assert forall|i: int| 0 <= i < s.len() implies #[trigger] s[i] == '0' by {
                if i < s.len() - 1 {
                    assert(front[i] == s[i]);
                }
            }
        }
        if forall|i: int| 0 <= i < s.len() ==> #[trigger] s[i] == '0' {
            assert forall|i: int| 0 <= i < front.len() implies #[trigger] front[i] == '0' by {
                assert(front[i] == s[i]);
            }
        }
    }
}

/// Digits write less than ten to the power of their number.
pub proof fn lemma_digits_value_below(y: Seq<char>)
    requires
        all_digits(y),
    ensures
        digits_value(y) < pow(10, y.len()),
    decreases y.len(),
{
    if y.len() == 0 {
        lemma_pow0(10);
    } else {
        let front = y.drop_last();
        assert forall|i: int| 0 <= i < front.len() implies is_digit(#[trigger] front[i]) by {
            assert(front[i] == y[i]);
        }
        lemma_digits_value_below(front);
        assert(is_digit(y[y.len() - 1]));
        assert(pow(10, y.len()) == 10 * pow(10, front.len())) by {
            lemma_pow_adds(10, 1, front.len());
            lemma_pow1(10);
        }
    }
}

/// Digits of which the first is not zero write at least ten to the power of
/// their number less one.
pub proof fn lemma_digits_value_at_least(y: Seq<char>)
    requires
        all_digits(y),
        y.len() > 0,
        y[0] != '0',
    ensures
        digits_value(y) >= pow(10, (y.len() - 1) as nat),
    decreases y.len(),
{
    let front = y.drop_last();
    assert(is_digit(y[0]));
    if y.len() == 1 {
        assert(front =~= Seq::<char>::empty());
        assert(digits_value(front) == 0);
        lemma_pow0(10);
    } else {
        assert forall|i: int| 0 <= i < front.len() implies is_digit(#[trigger] front[i]) by {
            assert(front[i] == y[i]);
        }
        assert(front[0] == y[0]);
        lemma_digits_value_at_least(front);
        assert(pow(10, (y.len() - 1) as nat) == 10 * pow(10, (front.len() - 1) as nat)) by {
            lemma_pow_adds(10, 1, (front.len() - 1) as nat);
            lemma_pow1(10);
        }
    }
}

/// Of two rows of digits of one length, the one with the lesser digit where
/// they first differ writes the lesser number.
pub proof fn lemma_digits_value_order(a: Seq<char>, b: Seq<char>, at: int)
    requires
        a.len() == b.len(),
        all_digits(a),
        all_digits(b),
        0 <= at < a.len(),
        forall|j: int| 0 <= j < at ==> a[j] == b[j],
        a[at] < b[at],
    ensures
        digits_value(a) < digits_value(b),
    decreases a.len(),
{
    let fa = a.drop_last();
    let fb = b.drop_last();
    assert(is_digit(a[a.len() - 1]) && is_digit(b[b.len() - 1]));
    if at == a.len() - 1 {
        assert(fa =~= fb);
    } else {
        assert forall|i: int| 0 <= i < fa.len() implies is_digit(#[trigger] fa[i]) by {
            assert(fa[i] == a[i]);
        }
        assert forall|i: int| 0 <= i < fb.len() implies is_digit(#[trigger] fb[i]) by {
            assert(fb[i] == b[i]);
        }
        assert(forall|j: int| 0 <= j < at ==> fa[j] == fb[j]);
        lemma_digits_value_order(fa, fb, at);
    }
}

/// Zeros in front change nothing.
pub proof fn lemma_digits_value_skip_zeros(d: Seq<char>, z: int)
    requires
        all_digits(d),
        0 <= z <= d.len(),
        forall|j: int| 0 <= j < z ==> d[j] == '0',
    ensures
        digits_value(d) == digits_value(d.skip(z)),
{
    let head = d.take(z);
    let tail = d.skip(z);
    assert(d =~= head + tail);
    lemma_digits_value_concat(head, tail);
    assert(all_digits(head));
    lemma_digits_value_zero(head);
    assert(digits_value(head) == 0);
    assert(0 * pow(10, tail.len()) == 0);
}

/// Zeros behind multiply by ten for each.
pub proof fn lemma_digits_value_pad(x: Seq<char>, n: nat)
    ensures
        digits_value(x + zeros(n)) == digits_value(x) * pow(10, n),
{
    lemma_digits_value_concat(x, zeros(n));
    assert(all_digits(zeros(n)));
    lemma_digits_value_zero(zeros(n));
}

/// Decides `all_digits`.
pub fn all_digits_in(s: &[char]) -> (r: bool)
    ensures
        r == all_digits(s@),
{
    let n = s.len();
    let mut i: usize = 0;
    while i < n
        invariant
            n == s.len(),
            i <= n,
            forall|j: int| 0 <= j < i ==> is_digit(#[trigger] s@[j]),
        decreases n - i,
    {
        if !('0' <= s[i] && s[i] <= '9') {
            return false;
        }
        i += 1;
    }
    true
}

} // verus!
