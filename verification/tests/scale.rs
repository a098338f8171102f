use chomp::quantity::Decimal;
use chomp::scale::{parse_amount_multiplier, to_grams, Grams, Multiplier};
use chomp::units::FACTOR_SCALE;

fn grams_of(g: &Grams) -> f64 {
    g.value.text.parse::<f64>().unwrap() * (g.factor as f64 / FACTOR_SCALE as f64)
}

fn multiplier_of(m: &Multiplier) -> f64 {
    grams_of(&m.amount) / grams_of(&m.serving)
}

fn grams(value: &str, unit: &str) -> Option<f64> {
    to_grams(Decimal::new(value).unwrap(), unit).map(|g| grams_of(&g))
}

fn scale(amount: &str, serving: &str) -> Option<f64> {
    parse_amount_multiplier(amount, serving).map(|m| multiplier_of(&m))
}

#[test]
fn test_to_grams() {
    assert_eq!(grams("100.0", "g"), Some(100.0));
    assert!((grams("1.0", "oz").unwrap() - 28.3495).abs() < 0.01);
}

#[test]
fn grams_stay_what_they_are() {
    for value in ["0", "1", "100", "0.001", "12345.678", "250."] {
        let expected: f64 = value.parse().unwrap();
        assert_eq!(grams(value, "g"), Some(expected));
        assert_eq!(grams(value, "gram"), Some(expected));
        assert_eq!(grams(value, "GRAMS"), Some(expected));
    }
}

#[test]
fn each_unit_has_its_factor() {
    let table: [(&str, u32); 32] = [
        ("g", 10_000), ("gram", 10_000), ("grams", 10_000),
        ("oz", 283_495), ("ounce", 283_495), ("ounces", 283_495),
        ("lb", 4_535_920), ("lbs", 4_535_920), ("pound", 4_535_920), ("pounds", 4_535_920),
        ("kg", 10_000_000), ("kilogram", 10_000_000), ("kilograms", 10_000_000),
        ("ml", 10_000), ("milliliter", 10_000), ("milliliters", 10_000),
        ("cup", 2_400_000), ("cups", 2_400_000),
        ("tbsp", 150_000), ("tablespoon", 150_000), ("tablespoons", 150_000),
        ("tsp", 50_000), ("teaspoon", 50_000), ("teaspoons", 50_000),
        ("bar", 1_000_000), ("bars", 1_000_000), ("piece", 1_000_000), ("pieces", 1_000_000),
        ("serving", 1_000_000), ("servings", 1_000_000), ("scoop", 1_000_000), ("scoops", 1_000_000),
    ];
    for (unit, factor) in table {
        let g = to_grams(Decimal::new("1").unwrap(), unit).unwrap();
        assert_eq!(g.factor, factor, "{}", unit);
        assert_eq!(g.value.text, "1");
        let upper = to_grams(Decimal::new("1").unwrap(), &unit.to_uppercase()).unwrap();
        assert_eq!(upper.factor, factor, "{}", unit);
    }
}

#[test]
fn the_factors_are_the_weights_in_grams() {
    assert_eq!(grams("1", "oz"), Some(28.3495));
    assert_eq!(grams("1", "lb"), Some(453.592));
    assert_eq!(grams("1", "kg"), Some(1000.0));
    assert_eq!(grams("1", "ml"), Some(1.0));
    assert_eq!(grams("1", "cup"), Some(240.0));
    assert_eq!(grams("1", "tbsp"), Some(15.0));
    assert_eq!(grams("1", "tsp"), Some(5.0));
    assert_eq!(grams("1", "bar"), Some(100.0));
    assert_eq!(grams("8", "oz"), Some(8.0 * 28.3495));
    assert_eq!(grams("2.5", "lb"), Some(2.5 * 453.592));
}

#[test]
fn an_unknown_unit_counts_as_grams() {
    for unit in ["", "handful", "l", "liter", "liters", "slice", "slices", "ozs", "e5", "%"] {
        let g = to_grams(Decimal::new("3").unwrap(), unit).unwrap();
        assert_eq!(g.factor, FACTOR_SCALE, "{}", unit);
        assert_eq!(grams("3", unit), Some(3.0));
    }
}

#[test]
fn the_serving_itself_scales_by_one() {
    for serving in ["100g", "1 bar", "8oz", "0.5 cup", "250", "3 handfuls"] {
        assert_eq!(scale(serving, serving), Some(1.0), "{}", serving);
    }
}

#[test]
fn twice_the_serving_scales_by_two() {
    assert_eq!(scale("200g", "100g"), Some(2.0));
    assert_eq!(scale("2 bars", "1 bar"), Some(2.0));
    assert_eq!(scale("1 cup", "0.5 cup"), Some(2.0));
    let (p, f, c, cal) = (23.0_f64, 15.0_f64, 0.5_f64, 247.0_f64);
    let one = scale("100g", "100g").unwrap();
    assert_eq!((p * one, f * one, c * one, cal * one), (p, f, c, cal));
    let two = scale("200g", "100g").unwrap();
    assert_eq!((p * two, f * two, c * two, cal * two), (2.0 * p, 2.0 * f, 2.0 * c, 2.0 * cal));
}

#[test]
fn units_are_converted_before_they_are_divided() {
    assert_eq!(scale("8oz", "100g"), Some(8.0 * 28.3495 / 100.0));
    assert!((scale("8oz", "100g").unwrap() - 2.26796).abs() < 1e-9);
    assert_eq!(scale("1kg", "100g"), Some(10.0));
    assert_eq!(scale("1 lb", "1 oz"), Some(453.592 / 28.3495));
    assert_eq!(scale("50g", "1 bar"), Some(0.5));
    assert_eq!(scale("0", "100g"), Some(0.0));
}

#[test]
fn what_cannot_be_scaled() {
    assert!(parse_amount_multiplier("lots", "100g").is_none());
    assert!(parse_amount_multiplier("100g", "a bar").is_none());
    assert!(parse_amount_multiplier("", "100g").is_none());
    assert!(parse_amount_multiplier("100g", "").is_none());
    assert!(parse_amount_multiplier("100g", "0g").is_none());
    assert!(parse_amount_multiplier("100g", "0.000 oz").is_none());
    assert!(parse_amount_multiplier("100g", "0").is_none());
    assert!(parse_amount_multiplier("0g", "0g").is_none());
}

#[test]
fn the_multiplier_keeps_what_was_written() {
    let m = parse_amount_multiplier(" 8OZ ", "100 g").unwrap();
    assert_eq!(m.amount.value.text, "8");
    assert_eq!(m.amount.factor, 283_495);
    assert_eq!(m.serving.value.text, "100");
    assert_eq!(m.serving.factor, 10_000);
}
