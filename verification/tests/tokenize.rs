use chomp::tokenize::parse_input;
use chomp::units::{is_amount, is_unit};

fn split(input: &str) -> (String, Option<String>) {
    parse_input(input)
}

fn name_and_amount(name: &str, amount: Option<&str>) -> (String, Option<String>) {
    (name.to_string(), amount.map(|a| a.to_string()))
}

#[test]
fn test_parse_input() {
    assert_eq!(parse_input("ribeye 8oz"), ("ribeye".to_string(), Some("8oz".to_string())));
    assert_eq!(parse_input("salmon 4 oz"), ("salmon".to_string(), Some("4 oz".to_string())));
    assert_eq!(parse_input("bare bar"), ("bare bar".to_string(), None));
    assert_eq!(parse_input("heavy cream 50ml"), ("heavy cream".to_string(), Some("50ml".to_string())));
    assert_eq!(parse_input("2 eggs"), ("eggs".to_string(), Some("2".to_string())));
}

#[test]
fn empty_input_has_no_name_and_no_amount() {
    assert_eq!(split(""), name_and_amount("", None));
    assert_eq!(split("   \t\n"), name_and_amount("", None));
}

#[test]
fn single_word_is_the_name() {
    assert_eq!(split("ribeye"), name_and_amount("ribeye", None));
    assert_eq!(split("  ribeye  "), name_and_amount("ribeye", None));
    assert_eq!(split("8oz"), name_and_amount("8oz", None));
    assert_eq!(split("42"), name_and_amount("42", None));
    assert_eq!(split("oz"), name_and_amount("oz", None));
}

#[test]
fn number_and_unit_come_before_a_leading_number() {
    assert_eq!(split("2 bars"), name_and_amount("", Some("2 bars")));
    assert_eq!(split("2 protein 3 bars"), name_and_amount("2 protein", Some("3 bars")));
    assert_eq!(split("2 eggs 8oz"), name_and_amount("2 eggs", Some("8oz")));
}

#[test]
fn number_and_unit_come_before_an_attached_unit() {
    assert_eq!(split("rice 2 1g"), name_and_amount("rice 2", Some("1g")));
    assert_eq!(split("rice 3 g"), name_and_amount("rice", Some("3 g")));
    assert_eq!(split("rice 5kg g"), name_and_amount("rice 5kg g", None));
}

#[test]
fn units_are_recognized_in_any_case() {
    assert_eq!(split("Salmon 4 OZ"), name_and_amount("Salmon", Some("4 OZ")));
    assert_eq!(split("Salmon 4Oz"), name_and_amount("Salmon", Some("4Oz")));
    assert_eq!(split("milk 1 Cup"), name_and_amount("milk", Some("1 Cup")));
}

#[test]
fn every_word_of_the_vocabulary_can_be_attached() {
    assert_eq!(split("rice 2cups"), name_and_amount("rice", Some("2cups")));
    assert_eq!(split("oil 1tbsp"), name_and_amount("oil", Some("1tbsp")));
    assert_eq!(split("bread 2slices"), name_and_amount("bread", Some("2slices")));
    assert_eq!(split("water 1.5l"), name_and_amount("water", Some("1.5l")));
}

#[test]
fn words_are_joined_with_one_space() {
    assert_eq!(split("  heavy \t  cream   50ml "), name_and_amount("heavy cream", Some("50ml")));
    assert_eq!(split("3   scrambled \n eggs"), name_and_amount("scrambled eggs", Some("3")));
    assert_eq!(split("wild   salmon  4   oz"), name_and_amount("wild salmon", Some("4 oz")));
}

#[test]
fn without_an_amount_the_name_keeps_its_spacing() {
    assert_eq!(split("  bare   bar  "), name_and_amount("bare   bar", None));
    assert_eq!(split("chicken\tbreast"), name_and_amount("chicken\tbreast", None));
}

#[test]
fn white_space_of_unicode_separates_words() {
    assert_eq!(split("ribeye\u{a0}8oz"), name_and_amount("ribeye", Some("8oz")));
    assert_eq!(split("\u{3000}2\u{2003}eggs\u{2028}"), name_and_amount("eggs", Some("2")));
    assert_eq!(split("ribeye\u{200b}8oz"), name_and_amount("ribeye\u{200b}8oz", None));
}

#[test]
fn a_number_too_large_for_a_double_is_no_amount() {
    assert_eq!(split("1e999 eggs"), name_and_amount("1e999 eggs", None));
    assert_eq!(split("eggs 1e999 g"), name_and_amount("eggs 1e999 g", None));
    assert_eq!(split("eggs 1e999g"), name_and_amount("eggs 1e999g", None));
    assert_eq!(split("inf eggs"), name_and_amount("inf eggs", None));
    assert_eq!(split("nan eggs"), name_and_amount("nan eggs", None));
    assert_eq!(split("1e308 eggs"), name_and_amount("eggs", Some("1e308")));
}

#[test]
fn signed_and_scientific_numbers_are_numbers() {
    assert_eq!(split("-2 eggs"), name_and_amount("eggs", Some("-2")));
    assert_eq!(split("rice 1.5e2 g"), name_and_amount("rice", Some("1.5e2 g")));
    assert_eq!(split("rice .5kg"), name_and_amount("rice", Some(".5kg")));
    assert_eq!(split("rice 5.g"), name_and_amount("rice", Some("5.g")));
}

#[test]
fn is_unit_knows_the_vocabulary() {
    let words = [
        "g", "gram", "grams", "oz", "ounce", "ounces", "lb", "lbs", "pound", "pounds", "kg",
        "kilogram", "kilograms", "ml", "milliliter", "milliliters", "l", "liter", "liters", "cup",
        "cups", "tbsp", "tablespoon", "tablespoons", "tsp", "teaspoon", "teaspoons", "bar",
        "bars", "piece", "pieces", "serving", "servings", "scoop", "scoops", "slice", "slices",
    ];
    for word in words {
        assert!(is_unit(word), "{}", word);
        assert!(is_unit(&word.to_uppercase()), "{}", word);
    }
    for word in ["", "gs", "bare", "ozs", "litre", "k g", " g", "8oz", "gramm"] {
        assert!(!is_unit(word), "{}", word);
    }
}

#[test]
fn is_unit_lowers_letters_beyond_ascii() {
    // The Kelvin sign is a capital letter whose lower case is the ASCII `k`.
    assert!(is_unit("\u{212a}g"));
    assert!(!is_unit("\u{3ba}g"));
}

#[test]
fn is_amount_wants_a_number_and_a_unit() {
    for word in ["8oz", "100g", "50ml", "2lb", "1.5kg", "2L", "3Bars", "1e2g", "-1g", ".5cup"] {
        assert!(is_amount(word), "{}", word);
    }
    for word in ["oz", "8", "8 oz", "bar", "8ozs", "x8oz", "8oz.", "1e999g", "", "8\u{a0}oz"] {
        assert!(!is_amount(word), "{}", word);
    }
}
