use chomp::number::is_number;
use chomp::quantity::parse_quantity;
use chomp::tokenize::parse_input;
use chomp::units::{is_amount, is_unit};

const UNITS: [&str; 37] = [
    "g", "gram", "grams", "oz", "ounce", "ounces", "lb", "lbs", "pound", "pounds", "kg",
    "kilogram", "kilograms", "ml", "milliliter", "milliliters", "l", "liter", "liters", "cup",
    "cups", "tbsp", "tablespoon", "tablespoons", "tsp", "teaspoon", "teaspoons", "bar", "bars",
    "piece", "pieces", "serving", "servings", "scoop", "scoops", "slice", "slices",
];

const PIECES: [&str; 40] = [
    "0", "1", "2", "8", "9", "00", "100", ".", ".", "e", "E", "+", "-", " ", " ", " ", "\t", "\n",
    "\u{a0}", "\u{2003}", "\u{200b}", "g", "G", "oz", "Oz", "kg", "\u{212a}g", "l", "ml", "cup",
    "bars", "slice", "egg", "rice", "\u{c4}", "\u{e9}", "\u{bd}", "\u{664}", "inf", "nan",
];

struct Draws(u64);

impl Draws {
    fn next(&mut self, below: usize) -> usize {
        self.0 = self.0.wrapping_mul(6364136223846793005).wrapping_add(1442695040888963407);
        ((self.0 >> 33) as usize) % below
    }

    fn text(&mut self, most: usize) -> String {
        let pieces = self.next(most + 1);
        let mut text = String::new();
        for _ in 0..pieces {
            text.push_str(PIECES[self.next(PIECES.len())]);
        }
        text
    }
}

fn number_by_std(s: &str) -> bool {
    s.parse::<f64>().map(|v| v.is_finite()).unwrap_or(false)
}

fn unit_by_std(s: &str) -> bool {
    UNITS.contains(&s.to_lowercase().as_str())
}

fn amount_by_std(s: &str) -> bool {
    let s = s.to_lowercase();
    UNITS.iter().any(|unit| s.ends_with(unit) && number_by_std(&s[..s.len() - unit.len()]))
}

fn input_by_std(input: &str) -> (String, Option<String>) {
    let input = input.trim();
    let words: Vec<&str> = input.split_whitespace().collect();
    if words.is_empty() {
        return (String::new(), None);
    }
    if words.len() == 1 {
        return (words[0].to_string(), None);
    }
    let last = words[words.len() - 1];
    let second_last = words[words.len() - 2];
    if number_by_std(second_last) && unit_by_std(last) {
        let amount = format!("{} {}", second_last, last);
        return (words[..words.len() - 2].join(" "), Some(amount));
    }
    if amount_by_std(last) {
        return (words[..words.len() - 1].join(" "), Some(last.to_string()));
    }
    if number_by_std(words[0]) {
        return (words[1..].join(" "), Some(words[0].to_string()));
    }
    (input.to_string(), None)
}

fn quantity_by_std(s: &str) -> Option<(f64, String)> {
    let s = s.trim().to_lowercase();
    let (number, unit) = match s.find(|c: char| !c.is_numeric() && c != '.') {
        Some(end) => (s[..end].parse::<f64>().ok()?, s[end..].trim().to_string()),
        None => (s.parse::<f64>().ok()?, "g".to_string()),
    };
    if number.is_finite() {
        Some((number, unit))
    } else {
        None
    }
}

#[test]
fn numbers_as_std_reads_them() {
    let mut draws = Draws(1);
    for _ in 0..20000 {
        let text = draws.text(6);
        assert_eq!(is_number(&text), number_by_std(&text), "{:?}", text);
    }
}

#[test]
fn units_and_amounts_as_std_reads_them() {
    let mut draws = Draws(2);
    for _ in 0..20000 {
        let text = draws.text(4);
        assert_eq!(is_unit(&text), unit_by_std(&text), "{:?}", text);
        assert_eq!(is_amount(&text), amount_by_std(&text), "{:?}", text);
    }
    for unit in UNITS {
        for number in ["1", "2.5", ".5", "1e3", "-1", "x", "", "1e999"] {
            let text = format!("{}{}", number, unit);
            assert_eq!(is_amount(&text), amount_by_std(&text), "{:?}", text);
            let upper = text.to_uppercase();
            assert_eq!(is_amount(&upper), amount_by_std(&upper), "{:?}", upper);
        }
    }
}

#[test]
fn commands_as_std_splits_them() {
    let mut draws = Draws(3);
    for _ in 0..20000 {
        let text = draws.text(10);
        assert_eq!(parse_input(&text), input_by_std(&text), "{:?}", text);
    }
}

#[test]
fn quantities_as_std_reads_them() {
    let mut draws = Draws(4);
    for _ in 0..20000 {
        let text = draws.text(6);
        let ours = parse_quantity(&text).map(|q| (q.value.text.parse::<f64>().unwrap(), q.unit));
        assert_eq!(ours, quantity_by_std(&text), "{:?}", text);
    }
}

#[test]
fn white_space_as_std_knows_it() {
    for code in 0..=0x3100u32 {
        if let Some(c) = char::from_u32(code) {
            assert_eq!(chomp::text::is_whitespace(c), c.is_whitespace(), "{:x}", code);
        }
    }
    for code in [0xFEFFu32, 0x1D7CE, 0x10FFFF] {
        let c = char::from_u32(code).unwrap();
        assert_eq!(chomp::text::is_whitespace(c), c.is_whitespace(), "{:x}", code);
    }
}

#[test]
fn lower_case_as_std_makes_it() {
    for code in 0..=0x2200u32 {
        if let Some(c) = char::from_u32(code) {
            let text = format!("a{}B", c);
            let chars: Vec<char> = text.chars().collect();
            let lowered: String = chomp::text::to_lowercase(&chars).into_iter().collect();
            assert_eq!(lowered, text.to_lowercase(), "{:x}", code);
            assert_eq!(chomp::quantity::is_numeric_char(c), c.is_numeric(), "{:x}", code);
        }
    }
}
