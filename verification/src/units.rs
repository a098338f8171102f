//! The unit vocabulary: which words name a unit, and how many grams one unit
//! stands for.

use crate::digits::is_digit;
use crate::number::{is_number_in, is_number_text, is_sign, lemma_literal_starts};
use crate::text::{chars_of, lowercase, same_chars, to_lowercase};
use vstd::prelude::*;
use vstd::slice::slice_subrange;

verus! {

/// The units that the vocabulary knows.
#[derive(Clone, Copy, Debug, PartialEq, Eq, Structural)]
pub enum Unit {
    Gram,
    Ounce,
    Pound,
    Kilogram,
    Milliliter,
    Liter,
    Cup,
    Tablespoon,
    Teaspoon,
    /// A discrete item: a bar, a piece, a serving or a scoop.
    Item,
    Slice,
}

/// How many parts of a gram the conversion factors count in.
pub const FACTOR_SCALE: u32 = 10_000;

/// The longest word of the vocabulary, in characters.
pub const LONGEST_UNIT_WORD: usize = 11;

/// The unit that the lower-case word `w` names, if it names one.
pub open spec fn unit_of(w: Seq<char>) -> Option<Unit> {
    if w == "g"@ || w == "gram"@ || w == "grams"@ {
        Some(Unit::Gram)
    } else if w == "oz"@ || w == "ounce"@ || w == "ounces"@ {
        Some(Unit::Ounce)
    } else if w == "lb"@ || w == "lbs"@ || w == "pound"@ || w == "pounds"@ {
        Some(Unit::Pound)
    } else if w == "kg"@ || w == "kilogram"@ || w == "kilograms"@ {
        Some(Unit::Kilogram)
    } else if w == "ml"@ || w == "milliliter"@ || w == "milliliters"@ {
        Some(Unit::Milliliter)
    } else if w == "l"@ || w == "liter"@ || w == "liters"@ {
        Some(Unit::Liter)
    } else if w == "cup"@ || w == "cups"@ {
        Some(Unit::Cup)
    } else if w == "tbsp"@ || w == "tablespoon"@ || w == "tablespoons"@ {
        Some(Unit::Tablespoon)
    } else if w == "tsp"@ || w == "teaspoon"@ || w == "teaspoons"@ {
        Some(Unit::Teaspoon)
    } else if w == "bar"@ || w == "bars"@ || w == "piece"@ || w == "pieces"@ || w == "serving"@
        || w == "servings"@ || w == "scoop"@ || w == "scoops"@ {
        Some(Unit::Item)
    } else if w == "slice"@ || w == "slices"@ {
        Some(Unit::Slice)
    } else {
        None
    }
}

/// Whether the lower-case word `w` is in the vocabulary.
pub open spec fn is_unit_word(w: Seq<char>) -> bool {
    unit_of(w) is Some
}

/// Whether `s` names a unit, whatever its case.
pub open spec fn names_unit(s: Seq<char>) -> bool {
    is_unit_word(lowercase(s))
}

/// Whether the lower-case `t` is a number up to index `k` and a unit word from there.
pub open spec fn splits_as_amount(t: Seq<char>, k: int) -> bool {
    &&& 0 <= k <= t.len()
    &&& is_number_text(t.subrange(0, k))
    &&& is_unit_word(t.subrange(k, t.len() as int))
}

/// Whether the lower-case `t` is a number with a unit word right behind it.
pub open spec fn is_amount_word(t: Seq<char>) -> bool {
    exists|k: int| splits_as_amount(t, k)
}

/// Whether `s` is a number with a unit right behind it, whatever its case.
pub open spec fn names_amount(s: Seq<char>) -> bool {
    is_amount_word(lowercase(s))
}

/// Grams in one of the unit that the lower-case word `w` names, counted in
/// parts of `FACTOR_SCALE`. A word that names no unit of mass or volume with a
/// known weight counts as grams.
pub open spec fn grams_factor(w: Seq<char>) -> nat {
    match unit_of(w) {
        Some(Unit::Gram) => 10_000,
        Some(Unit::Ounce) => 283_495,
        Some(Unit::Pound) => 4_535_920,
        Some(Unit::Kilogram) => 10_000_000,
        Some(Unit::Milliliter) => 10_000,
        Some(Unit::Cup) => 2_400_000,
        Some(Unit::Tablespoon) => 150_000,
        Some(Unit::Teaspoon) => 50_000,
        Some(Unit::Item) => 1_000_000,
        Some(Unit::Liter) | Some(Unit::Slice) | None => 10_000,
    }
}

/// The words of the vocabulary, letter by letter.
pub proof fn lemma_vocabulary()
    ensures
        "g"@ == seq!['g'],
        "gram"@ == seq!['g', 'r', 'a', 'm'],
        "grams"@ == seq!['g', 'r', 'a', 'm', 's'],
        "oz"@ == seq!['o', 'z'],
        "ounce"@ == seq!['o', 'u', 'n', 'c', 'e'],
        "ounces"@ == seq!['o', 'u', 'n', 'c', 'e', 's'],
        "lb"@ == seq!['l', 'b'],
        "lbs"@ == seq!['l', 'b', 's'],
        "pound"@ == seq!['p', 'o', 'u', 'n', 'd'],
        "pounds"@ == seq!['p', 'o', 'u', 'n', 'd', 's'],
        "kg"@ == seq!['k', 'g'],
        "kilogram"@ == seq!['k', 'i', 'l', 'o', 'g', 'r', 'a', 'm'],
        "kilograms"@ == seq!['k', 'i', 'l', 'o', 'g', 'r', 'a', 'm', 's'],
        "ml"@ == seq!['m', 'l'],
        "milliliter"@ == seq!['m', 'i', 'l', 'l', 'i', 'l', 'i', 't', 'e', 'r'],
        "milliliters"@ == seq!['m', 'i', 'l', 'l', 'i', 'l', 'i', 't', 'e', 'r', 's'],
        "l"@ == seq!['l'],
        "liter"@ == seq!['l', 'i', 't', 'e', 'r'],
        "liters"@ == seq!['l', 'i', 't', 'e', 'r', 's'],
        "cup"@ == seq!['c', 'u', 'p'],
        "cups"@ == seq!['c', 'u', 'p', 's'],
        "tbsp"@ == seq!['t', 'b', 's', 'p'],
        "tablespoon"@ == seq!['t', 'a', 'b', 'l', 'e', 's', 'p', 'o', 'o', 'n'],
        "tablespoons"@ == seq!['t', 'a', 'b', 'l', 'e', 's', 'p', 'o', 'o', 'n', 's'],
        "tsp"@ == seq!['t', 's', 'p'],
        "teaspoon"@ == seq!['t', 'e', 'a', 's', 'p', 'o', 'o', 'n'],
        "teaspoons"@ == seq!['t', 'e', 'a', 's', 'p', 'o', 'o', 'n', 's'],
        "bar"@ == seq!['b', 'a', 'r'],
        "bars"@ == seq!['b', 'a', 'r', 's'],
        "piece"@ == seq!['p', 'i', 'e', 'c', 'e'],
        "pieces"@ == seq!['p', 'i', 'e', 'c', 'e', 's'],
        "serving"@ == seq!['s', 'e', 'r', 'v', 'i', 'n', 'g'],
        "servings"@ == seq!['s', 'e', 'r', 'v', 'i', 'n', 'g', 's'],
        "scoop"@ == seq!['s', 'c', 'o', 'o', 'p'],
        "scoops"@ == seq!['s', 'c', 'o', 'o', 'p', 's'],
        "slice"@ == seq!['s', 'l', 'i', 'c', 'e'],
        "slices"@ == seq!['s', 'l', 'i', 'c', 'e', 's'],
{
    reveal_strlit("g");
    reveal_strlit("gram");
    reveal_strlit("grams");
    reveal_strlit("oz");
    reveal_strlit("ounce");
    reveal_strlit("ounces");
    reveal_strlit("lb");
    reveal_strlit("lbs");
    reveal_strlit("pound");
    reveal_strlit("pounds");
    reveal_strlit("kg");
    reveal_strlit("kilogram");
    reveal_strlit("kilograms");
    reveal_strlit("ml");
    reveal_strlit("milliliter");
    reveal_strlit("milliliters");
    reveal_strlit("l");
    reveal_strlit("liter");
    reveal_strlit("liters");
    reveal_strlit("cup");
    reveal_strlit("cups");
    reveal_strlit("tbsp");
    reveal_strlit("tablespoon");
    reveal_strlit("tablespoons");
    reveal_strlit("tsp");
    reveal_strlit("teaspoon");
    reveal_strlit("teaspoons");
    reveal_strlit("bar");
    reveal_strlit("bars");
    reveal_strlit("piece");
    reveal_strlit("pieces");
    reveal_strlit("serving");
    reveal_strlit("servings");
    reveal_strlit("scoop");
    reveal_strlit("scoops");
    reveal_strlit("slice");
    reveal_strlit("slices");
    assert("g"@ =~= seq!['g']);
    assert("gram"@ =~= seq!['g', 'r', 'a', 'm']);
    assert("grams"@ =~= seq!['g', 'r', 'a', 'm', 's']);
    assert("oz"@ =~= seq!['o', 'z']);
    assert("ounce"@ =~= seq!['o', 'u', 'n', 'c', 'e']);
    assert("ounces"@ =~= seq!['o', 'u', 'n', 'c', 'e', 's']);
    assert("lb"@ =~= seq!['l', 'b']);
    assert("lbs"@ =~= seq!['l', 'b', 's']);
    assert("pound"@ =~= seq!['p', 'o', 'u', 'n', 'd']);
    assert("pounds"@ =~= seq!['p', 'o', 'u', 'n', 'd', 's']);
    assert("kg"@ =~= seq!['k', 'g']);
    assert("kilogram"@ =~= seq!['k', 'i', 'l', 'o', 'g', 'r', 'a', 'm']);
    assert("kilograms"@ =~= seq!['k', 'i', 'l', 'o', 'g', 'r', 'a', 'm', 's']);
    assert("ml"@ =~= seq!['m', 'l']);
    assert("milliliter"@ =~= seq!['m', 'i', 'l', 'l', 'i', 'l', 'i', 't', 'e', 'r']);
    assert("milliliters"@ =~= seq!['m', 'i', 'l', 'l', 'i', 'l', 'i', 't', 'e', 'r', 's']);
    assert("l"@ =~= seq!['l']);
    assert("liter"@ =~= seq!['l', 'i', 't', 'e', 'r']);
    assert("liters"@ =~= seq!['l', 'i', 't', 'e', 'r', 's']);
    assert("cup"@ =~= seq!['c', 'u', 'p']);
    assert("cups"@ =~= seq!['c', 'u', 'p', 's']);
    assert("tbsp"@ =~= seq!['t', 'b', 's', 'p']);
    assert("tablespoon"@ =~= seq!['t', 'a', 'b', 'l', 'e', 's', 'p', 'o', 'o', 'n']);
    assert("tablespoons"@ =~= seq!['t', 'a', 'b', 'l', 'e', 's', 'p', 'o', 'o', 'n', 's']);
    assert("tsp"@ =~= seq!['t', 's', 'p']);
    assert("teaspoon"@ =~= seq!['t', 'e', 'a', 's', 'p', 'o', 'o', 'n']);
    assert("teaspoons"@ =~= seq!['t', 'e', 'a', 's', 'p', 'o', 'o', 'n', 's']);
    assert("bar"@ =~= seq!['b', 'a', 'r']);
    assert("bars"@ =~= seq!['b', 'a', 'r', 's']);
    assert("piece"@ =~= seq!['p', 'i', 'e', 'c', 'e']);
    assert("pieces"@ =~= seq!['p', 'i', 'e', 'c', 'e', 's']);
    assert("serving"@ =~= seq!['s', 'e', 'r', 'v', 'i', 'n', 'g']);
    assert("servings"@ =~= seq!['s', 'e', 'r', 'v', 'i', 'n', 'g', 's']);
    assert("scoop"@ =~= seq!['s', 'c', 'o', 'o', 'p']);
    assert("scoops"@ =~= seq!['s', 'c', 'o', 'o', 'p', 's']);
    assert("slice"@ =~= seq!['s', 'l', 'i', 'c', 'e']);
    assert("slices"@ =~= seq!['s', 'l', 'i', 'c', 'e', 's']);
}

/// Every word of the vocabulary has between one and `LONGEST_UNIT_WORD` characters.
pub proof fn lemma_unit_word_len(w: Seq<char>)
    requires
        is_unit_word(w),
    ensures
        1 <= w.len() <= LONGEST_UNIT_WORD,
{
    lemma_vocabulary();
}

/// A number with a unit behind it begins as a number does: with a digit, a
/// sign or a point.
pub proof fn lemma_amount_starts(t: Seq<char>)
    requires
        is_amount_word(t),
    ensures
        t.len() > 0,
        is_digit(t[0]) || is_sign(t[0]) || t[0] == '.',
{
    let k = choose|k: int| splits_as_amount(t, k);
    lemma_literal_starts(t.subrange(0, k));
}

/// The unit that the lower-case word `w` names.
pub fn classify(w: &[char]) -> (r: Option<Unit>)
    ensures
        r == unit_of(w@),
{
    if same_chars(w, "g") || same_chars(w, "gram") || same_chars(w, "grams") {
        Some(Unit::Gram)
    } else if same_chars(w, "oz") || same_chars(w, "ounce") || same_chars(w, "ounces") {
        Some(Unit::Ounce)
    } else if same_chars(w, "lb") || same_chars(w, "lbs") || same_chars(w, "pound") || same_chars(
        w,
        "pounds",
    ) {
        Some(Unit::Pound)
    } else if same_chars(w, "kg") || same_chars(w, "kilogram") || same_chars(w, "kilograms") {
        Some(Unit::Kilogram)
    } else if same_chars(w, "ml") || same_chars(w, "milliliter") || same_chars(w, "milliliters") {
        Some(Unit::Milliliter)
    } else if same_chars(w, "l") || same_chars(w, "liter") || same_chars(w, "liters") {
        Some(Unit::Liter)
    } else if same_chars(w, "cup") || same_chars(w, "cups") {
        Some(Unit::Cup)
    } else if same_chars(w, "tbsp") || same_chars(w, "tablespoon") || same_chars(w, "tablespoons") {
        Some(Unit::Tablespoon)
    } else if same_chars(w, "tsp") || same_chars(w, "teaspoon") || same_chars(w, "teaspoons") {
        Some(Unit::Teaspoon)
    } else if same_chars(w, "bar") || same_chars(w, "bars") || same_chars(w, "piece") || same_chars(
        w,
        "pieces",
    ) || same_chars(w, "serving") || same_chars(w, "servings") || same_chars(w, "scoop")
        || same_chars(w, "scoops") {
        Some(Unit::Item)
    } else if same_chars(w, "slice") || same_chars(w, "slices") {
        Some(Unit::Slice)
    } else {
        None
    }
}

/// Decides `grams_factor`.
pub fn factor_of(w: &[char]) -> (r: u32)
    ensures
        r == grams_factor(w@),
        r > 0,
{
    match classify(w) {
        Some(Unit::Gram) => 10_000,
        Some(Unit::Ounce) => 283_495,
        Some(Unit::Pound) => 4_535_920,
        Some(Unit::Kilogram) => 10_000_000,
        Some(Unit::Milliliter) => 10_000,
        Some(Unit::Cup) => 2_400_000,
        Some(Unit::Tablespoon) => 150_000,
        Some(Unit::Teaspoon) => 50_000,
        Some(Unit::Item) => 1_000_000,
        Some(Unit::Liter) | Some(Unit::Slice) | None => 10_000,
    }
}

/// Decides `is_amount_word`.
pub fn is_amount_in(t: &[char]) -> (r: bool)
    ensures
        r == is_amount_word(t@),
{
    let n = t.len();
    let longest = if n < LONGEST_UNIT_WORD {
        n
    } else {
        LONGEST_UNIT_WORD
    };
    proof {
        if splits_as_amount(t@, n as int) {
            lemma_unit_word_len(t@.subrange(n as int, n as int));
        }
    }
    let mut len: usize = 1;
    while len <= longest
        invariant
            n == t.len(),
            longest <= n,
            longest <= LONGEST_UNIT_WORD,
            1 <= len <= longest + 1,
            forall|k: int| n - len < k <= n ==> !splits_as_amount(t@, k),
        decreases longest + 1 - len,
    {
        let k = n - len;
        if classify(slice_subrange(t, k, n)).is_some() && is_number_in(slice_subrange(t, 0, k)) {
            assert(splits_as_amount(t@, k as int));
            return true;
        }
        len += 1;
    }
    proof {
        assert forall|k: int| !splits_as_amount(t@, k) by {
            if splits_as_amount(t@, k) {
                lemma_unit_word_len(t@.subrange(k, n as int));
            }
        }
    }
    false
}

/// Whether `s` names a unit of the vocabulary, whatever its case.
pub fn is_unit(s: &str) -> (r: bool)
    ensures
        r == names_unit(s@),
{
    let chars = chars_of(s);
    let lowered = to_lowercase(chars.as_slice());
    classify(lowered.as_slice()).is_some()
}

/// Whether `s` is a number with a unit right behind it, such as `8oz`,
/// whatever its case.
pub fn is_amount(s: &str) -> (r: bool)
    ensures
        r == names_amount(s@),
{
    let chars = chars_of(s);
    let lowered = to_lowercase(chars.as_slice());
    is_amount_in(lowered.as_slice())
}

} // verus!
