//! Splitting a log command such as `salmon 4 oz` into the name of a food and
//! an optional quantity phrase.
//!
//! The rules are tried in a fixed order, and the first that matches decides:
//! a number and a unit as the last two words; a number with its unit attached
//! as the last word; a number as the first word; else no quantity at all.

use crate::number::{is_number_in, is_number_text};
use crate::text::{
    chars_of, is_space, join, join_spans, lemma_one_word_is_trimmed, lemma_single_word,
    lemma_trim_is_identity, string_of, to_lowercase, trim, trim_bounds, word_spans, words,
};
use crate::units::{classify, is_amount_in, names_amount, names_unit};
use vstd::prelude::*;
use vstd::slice::slice_subrange;

verus! {

/// A log command, split: the name of the food, and the quantity phrase if the
/// command gave one.
pub struct Command {
    pub name: Seq<char>,
    pub amount: Option<Seq<char>>,
}

/// How the command `input` splits.
pub open spec fn split_command(input: Seq<char>) -> Command {
    let ws = words(input);
    let n = ws.len() as int;
    if n == 0 {
        Command { name: Seq::empty(), amount: None }
    } else if n == 1 {
        Command { name: ws[0], amount: None }
    } else if is_number_text(ws[n - 2]) && names_unit(ws[n - 1]) {
        Command {
            name: join(ws.subrange(0, n - 2)),
            amount: Some(ws[n - 2] + seq![' '] + ws[n - 1]),
        }
    } else if names_amount(ws[n - 1]) {
        Command { name: join(ws.subrange(0, n - 1)), amount: Some(ws[n - 1]) }
    } else if is_number_text(ws[0]) {
        Command { name: join(ws.subrange(1, n)), amount: Some(ws[0]) }
    } else {
        Command { name: trim(input), amount: None }
    }
}

/// The view of an optional string.
pub open spec fn text_of(s: Option<String>) -> Option<Seq<char>> {
    match s {
        Some(t) => Some(t@),
        None => None,
    }
}

/// Splits a log command into the name of the food and the quantity phrase, if
/// it has one.
pub fn parse_input(input: &str) -> (r: (String, Option<String>))
    ensures
        r.0@ == split_command(input@).name,
        text_of(r.1) == split_command(input@).amount,
{
    let chars = chars_of(input);
    let s = chars.as_slice();
    let spans = word_spans(s);
    let n = spans.len();
    let ghost ws = words(input@);
    assert(ws.len() == n);
    assert(forall|i: int| 0 <= i < n ==> ws[i] == (#[trigger] spans[i]).of(s@));
    if n == 0 {
        return (String::new(), None);
    }
    if n == 1 {
        let only = spans[0];
        return (string_of(slice_subrange(s, only.start, only.end)), None);
    }
    let last = spans[n - 1];
    let last_word = slice_subrange(s, last.start, last.end);
    let last_lower = to_lowercase(last_word);
    let before = spans[n - 2];
    let before_word = slice_subrange(s, before.start, before.end);
    assert(last_word@ == ws[n - 1]);
    assert(before_word@ == ws[n - 2]);
    if is_number_in(before_word) && classify(last_lower.as_slice()).is_some() {
        let name = join_spans(s, &spans, 0, n - 2);
        let mut amount: Vec<char> = Vec::new();
        amount.extend_from_slice(before_word);
        amount.push(' ');
        amount.extend_from_slice(last_word);
        assert(amount@ =~= ws[n - 2] + seq![' '] + ws[n - 1]);
        return (string_of(name.as_slice()), Some(string_of(amount.as_slice())));
    }
    if is_amount_in(last_lower.as_slice()) {
        let name = join_spans(s, &spans, 0, n - 1);
        return (string_of(name.as_slice()), Some(string_of(last_word)));
    }
    let first = spans[0];
    let first_word = slice_subrange(s, first.start, first.end);
    assert(first_word@ == ws[0]);
    if is_number_in(first_word) {
        let name = join_spans(s, &spans, 1, n);
        return (string_of(name.as_slice()), Some(string_of(first_word)));
    }
    let (a, b) = trim_bounds(s);
    (string_of(slice_subrange(s, a, b)), None)
}

/// A command of a single word names a food and gives no amount: the name is
/// the command without the white space around it.
pub proof fn law_single_word(input: Seq<char>)
    requires
        words(input).len() == 1,
    ensures
        split_command(input) == (Command { name: trim(input), amount: None }),
{
    lemma_one_word_is_trimmed(input);
}

/// A command without any white space, if it is not empty, is the name of a
/// food as it stands.
pub proof fn law_unbroken_word(input: Seq<char>)
    requires
        input.len() > 0,
        forall|i: int| 0 <= i < input.len() ==> !is_space(#[trigger] input[i]),
    ensures
        split_command(input) == (Command { name: input, amount: None }),
{
    lemma_single_word(input);
    lemma_trim_is_identity(input);
    law_single_word(input);
}

} // verus!
