//! Worked examples: what a few commands and quantities come to, proved from
//! the definitions. They show how the lemmas of the other modules are used.

use crate::digits::{lemma_digits_value_push, lemma_three_digits};
use crate::number::{
    is_literal, lemma_digits_are_number, lemma_literal_starts, lemma_whole_number, mantissa, scale,
};
use crate::quantity::{lemma_split_spaced, lemma_whole_quantity, split_quantity, Phrase};
use crate::scale::{scalable, weighs, Multiplier};
use crate::text::{
    lemma_lowercase_is_identity, lemma_trim_is_identity, lemma_words_end, lemma_words_step, words,
};
use crate::tokenize::{split_command, Command};
use crate::units::{is_amount_word, lemma_amount_starts, lemma_vocabulary, splits_as_amount};
use vstd::arithmetic::power::lemma_pow0;
use vstd::prelude::*;

verus! {

/// `ribeye 8oz` is ribeye, `8oz` of it: the last word is a number with its
/// unit attached.
pub proof fn example_attached_unit()
    ensures
        split_command("ribeye 8oz"@) == (Command { name: "ribeye"@, amount: Some("8oz"@) }),
{
    reveal_strlit("ribeye 8oz");
    reveal_strlit("ribeye");
    reveal_strlit("8oz");
    let s = "ribeye 8oz"@;
    lemma_words_step(s, 0, 0, 6);
    lemma_words_step(s, 6, 7, 10);
    lemma_words_end(s, 10);
    assert(s.subrange(0, 6) =~= "ribeye"@);
    assert(s.subrange(7, 10) =~= "8oz"@);
    let ws = words(s);
    assert(ws =~= seq!["ribeye"@, "8oz"@]);
    if is_literal("ribeye"@) {
        lemma_literal_starts("ribeye"@);
    }
    lemma_lowercase_is_identity("8oz"@);
    lemma_vocabulary();
    assert("8oz"@.subrange(0, 1) =~= seq!['8']);
    assert("8oz"@.subrange(1, 3) =~= seq!['o', 'z']);
    lemma_digits_are_number(seq!['8']);
    assert(splits_as_amount("8oz"@, 1));
    assert(ws.subrange(0, 1) =~= seq!["ribeye"@]);
}

/// `salmon 4 oz` is salmon, `4 oz` of it: the last two words are a number and
/// a unit.
pub proof fn example_number_and_unit()
    ensures
        split_command("salmon 4 oz"@) == (Command { name: "salmon"@, amount: Some("4 oz"@) }),
{
    reveal_strlit("salmon 4 oz");
    reveal_strlit("salmon");
    reveal_strlit("4 oz");
    let s = "salmon 4 oz"@;
    lemma_words_step(s, 0, 0, 6);
    lemma_words_step(s, 6, 7, 8);
    lemma_words_step(s, 8, 9, 11);
    lemma_words_end(s, 11);
    let four = seq!['4'];
    let oz = seq!['o', 'z'];
    assert(s.subrange(0, 6) =~= "salmon"@);
    assert(s.subrange(7, 8) =~= four);
    assert(s.subrange(9, 11) =~= oz);
    let ws = words(s);
    assert(ws =~= seq!["salmon"@, four, oz]);
    lemma_digits_are_number(four);
    lemma_lowercase_is_identity(oz);
    lemma_vocabulary();
    assert(ws.subrange(0, 1) =~= seq!["salmon"@]);
    assert(four + seq![' '] + oz =~= "4 oz"@);
}

/// `bare bar` is a bare bar and no amount: `bare` is no number, and `bar`
/// alone has no number before the unit.
pub proof fn example_no_amount()
    ensures
        split_command("bare bar"@) == (Command { name: "bare bar"@, amount: None }),
{
    reveal_strlit("bare bar");
    let s = "bare bar"@;
    lemma_words_step(s, 0, 0, 4);
    lemma_words_step(s, 4, 5, 8);
    lemma_words_end(s, 8);
    let bare = seq!['b', 'a', 'r', 'e'];
    let bar = seq!['b', 'a', 'r'];
    assert(s.subrange(0, 4) =~= bare);
    assert(s.subrange(5, 8) =~= bar);
    let ws = words(s);
    assert(ws =~= seq![bare, bar]);
    if is_literal(bare) {
        lemma_literal_starts(bare);
    }
    lemma_lowercase_is_identity(bar);
    if is_amount_word(bar) {
        lemma_amount_starts(bar);
    }
    lemma_trim_is_identity(s);
}

/// `2 eggs` is eggs, `2` of them: the first word is a number, and `eggs` is
/// no unit.
pub proof fn example_leading_number()
    ensures
        split_command("2 eggs"@) == (Command { name: "eggs"@, amount: Some("2"@) }),
{
    reveal_strlit("2 eggs");
    reveal_strlit("eggs");
    reveal_strlit("2");
    let s = "2 eggs"@;
    lemma_words_step(s, 0, 0, 1);
    lemma_words_step(s, 1, 2, 6);
    lemma_words_end(s, 6);
    assert(s.subrange(0, 1) =~= "2"@);
    assert(s.subrange(2, 6) =~= "eggs"@);
    let ws = words(s);
    assert(ws =~= seq!["2"@, "eggs"@]);
    lemma_digits_are_number("2"@);
    lemma_lowercase_is_identity("eggs"@);
    lemma_vocabulary();
    if is_amount_word("eggs"@) {
        lemma_amount_starts("eggs"@);
    }
    assert(ws.subrange(1, 2) =~= seq!["eggs"@]);
}

/// `100g` is a hundred grams, and `1 bar` is one bar.
pub proof fn example_quantities()
    ensures
        split_quantity("100g"@) == Some(Phrase { number: "100"@, unit: "g"@ }),
        split_quantity("1 bar"@) == Some(Phrase { number: "1"@, unit: "bar"@ }),
        mantissa("100"@) == 100,
        scale("100"@) == 0,
        mantissa("1"@) == 1,
        scale("1"@) == 0,
{
    reveal_strlit("100g");
    reveal_strlit("100");
    reveal_strlit("g");
    reveal_strlit("1 bar");
    reveal_strlit("1");
    reveal_strlit("bar");
    let none = Seq::<char>::empty();
    lemma_digits_are_number("100"@);
    lemma_digits_are_number("1"@);
    lemma_split_spaced("100"@, none, "g"@);
    lemma_split_spaced("1"@, seq![' '], "bar"@);
    assert("100"@ + none + "g"@ =~= "100g"@);
    assert("1"@ + seq![' '] + "bar"@ =~= "1 bar"@);
    lemma_whole_number("100"@);
    lemma_whole_number("1"@);
    lemma_digits_value_push(none, '1');
    lemma_digits_value_push(none.push('1'), '0');
    lemma_digits_value_push(none.push('1').push('0'), '0');
    assert(none.push('1') =~= "1"@);
    assert(none.push('1').push('0').push('0') =~= "100"@);
}

/// For a food whose values are given per `100g`, an amount of `8oz` scales by
/// exactly 2.26796: eight times 28.3495, divided by a hundred.
pub proof fn example_ounces_against_grams(m: Multiplier)
    requires
        weighs(m.amount, "8oz"@),
        weighs(m.serving, "100g"@),
    ensures
        scalable("8oz"@, "100g"@),
        m.numerator() * 100_000 == m.denominator() * 226_796,
{
    reveal_strlit("100g");
    reveal_strlit("8oz");
    reveal_strlit("g");
    reveal_strlit("gram");
    reveal_strlit("grams");
    reveal_strlit("oz");
    let g = seq!['g'];
    let oz = seq!['o', 'z'];
    let hundred = seq!['1', '0', '0'];
    let eight = seq!['8'];
    assert("g"@ =~= g);
    assert("oz"@ =~= oz);
    assert("100g"@ =~= hundred + g);
    assert("8oz"@ =~= eight + oz);
    lemma_whole_quantity(hundred, g);
    lemma_whole_quantity(eight, oz);
    lemma_three_digits('1', '0', '0');
    lemma_digits_value_push(Seq::empty(), '8');
    assert(Seq::<char>::empty().push('8') =~= eight);
    lemma_lowercase_is_identity(g);
    lemma_lowercase_is_identity(oz);
    lemma_pow0(10);
    assert(m.amount.numerator() == 8 * 283_495);
    assert(m.serving.numerator() == 100 * 10_000);
    assert(m.amount.denominator() == 10_000);
    assert(m.serving.denominator() == 10_000);
}

} // verus!
