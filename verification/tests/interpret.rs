use chomp::catalog::CatalogEntry;
use chomp::interpret::{plan_log, read_command, InterpretError, LogPlan, Request};
use chomp::scale::Multiplier;
use chomp::units::FACTOR_SCALE;

fn multiplier_of(m: &Multiplier) -> f64 {
    let amount = m.amount.value.text.parse::<f64>().unwrap()
        * (m.amount.factor as f64 / FACTOR_SCALE as f64);
    let serving = m.serving.value.text.parse::<f64>().unwrap()
        * (m.serving.factor as f64 / FACTOR_SCALE as f64);
    amount / serving
}

fn ribeye() -> CatalogEntry {
    CatalogEntry {
        id: 7,
        name: "ribeye".to_string(),
        serving: "100g".to_string(),
        default_amount: None,
    }
}

fn bar() -> CatalogEntry {
    CatalogEntry {
        id: 12,
        name: "Bare Bar".to_string(),
        serving: "1 bar".to_string(),
        default_amount: Some("2 bars".to_string()),
    }
}

/// Looks the name up in a catalog of two foods, then plans; counts what is recorded.
fn interpret(raw: &str, recorded: &mut Vec<(i64, String)>) -> Result<LogPlan, InterpretError> {
    let request = read_command(raw)?;
    let found = match request.name.to_lowercase().as_str() {
        "ribeye" | "rib eye" => Some(ribeye()),
        "bare bar" => Some(bar()),
        _ => None,
    };
    let plan = plan_log(request, found)?;
    recorded.push((plan.food_id, plan.amount.clone()));
    Ok(plan)
}

#[test]
fn a_command_is_read_into_a_request() {
    let request = read_command("ribeye 8oz").unwrap();
    assert_eq!(request.name, "ribeye");
    assert_eq!(request.amount, Some("8oz".to_string()));
    let request = read_command("  bare bar ").unwrap();
    assert_eq!(request.name, "bare bar");
    assert_eq!(request.amount, None);
    let request = read_command("4 oz").unwrap();
    assert_eq!(request.name, "");
    assert_eq!(request.amount, Some("4 oz".to_string()));
}

#[test]
fn a_blank_command_is_refused() {
    for raw in ["", " ", "\t\n", "\u{a0}\u{3000}"] {
        assert!(matches!(read_command(raw), Err(InterpretError::EmptyInput)), "{:?}", raw);
    }
}

#[test]
fn ribeye_by_the_ounce() {
    let mut recorded = Vec::new();
    let plan = interpret("ribeye 8oz", &mut recorded).unwrap();
    assert_eq!(plan.food_id, 7);
    assert_eq!(plan.food_name, "ribeye");
    assert_eq!(plan.amount, "8oz");
    let multiplier = multiplier_of(&plan.multiplier);
    assert!((multiplier - 2.26796).abs() < 1e-9);
    assert!((multiplier - 8.0 * 28.3495 / 100.0).abs() < 1e-12);
    let (protein, fat, carbs, calories) = (23.0, 15.0, 0.0, 247.0);
    assert!((protein * multiplier - 52.16308).abs() < 1e-3);
    assert!((fat * multiplier - 34.0194).abs() < 1e-3);
    assert_eq!(carbs * multiplier, 0.0);
    assert!((calories * multiplier - 560.18612).abs() < 1e-3);
    assert_eq!(format!("{:.2}", protein * multiplier), "52.16");
    assert_eq!(format!("{:.2}", fat * multiplier), "34.02");
    assert_eq!(recorded, vec![(7, "8oz".to_string())]);
}

#[test]
fn an_unknown_food_is_not_found_and_nothing_is_recorded() {
    let mut recorded = Vec::new();
    match interpret("dragon fruit 8oz", &mut recorded) {
        Err(InterpretError::FoodNotFound { name }) => assert_eq!(name, "dragon fruit"),
        other => panic!("{:?}", other),
    }
    assert!(recorded.is_empty());
    let request = Request { name: "tofu".to_string(), amount: None };
    match plan_log(request, None) {
        Err(InterpretError::FoodNotFound { name }) => assert_eq!(name, "tofu"),
        other => panic!("{:?}", other),
    }
}

#[test]
fn the_given_amount_comes_before_the_default_amount() {
    let request = Request { name: "bare bar".to_string(), amount: Some("3 bars".to_string()) };
    let plan = plan_log(request, Some(bar())).unwrap();
    assert_eq!(plan.amount, "3 bars");
    assert_eq!(multiplier_of(&plan.multiplier), 3.0);
    assert_eq!(plan.food_id, 12);
    assert_eq!(plan.food_name, "Bare Bar");
}

#[test]
fn the_default_amount_comes_before_the_serving() {
    let mut recorded = Vec::new();
    let plan = interpret("bare bar", &mut recorded).unwrap();
    assert_eq!(plan.amount, "2 bars");
    assert_eq!(multiplier_of(&plan.multiplier), 2.0);
    assert_eq!(recorded, vec![(12, "2 bars".to_string())]);
}

#[test]
fn without_any_amount_one_serving_is_logged() {
    let mut recorded = Vec::new();
    let plan = interpret("ribeye", &mut recorded).unwrap();
    assert_eq!(plan.amount, "100g");
    assert_eq!(multiplier_of(&plan.multiplier), 1.0);
    assert_eq!(recorded, vec![(7, "100g".to_string())]);
}

#[test]
fn an_amount_that_is_no_quantity_cannot_be_scaled() {
    let request = Request { name: "ribeye".to_string(), amount: Some("-2".to_string()) };
    match plan_log(request, Some(ribeye())) {
        Err(InterpretError::UnscalableQuantity { amount, food_name }) => {
            assert_eq!(amount, "-2");
            assert_eq!(food_name, "ribeye");
        },
        other => panic!("{:?}", other),
    }
    let mut recorded = Vec::new();
    assert!(matches!(
        interpret("-2 ribeye", &mut recorded),
        Err(InterpretError::UnscalableQuantity { .. })
    ));
    assert!(recorded.is_empty());
}

#[test]
fn a_serving_of_nothing_cannot_be_scaled() {
    let air = CatalogEntry {
        id: 1,
        name: "air".to_string(),
        serving: "0g".to_string(),
        default_amount: None,
    };
    let request = Request { name: "air".to_string(), amount: Some("100g".to_string()) };
    match plan_log(request, Some(air)) {
        Err(InterpretError::UnscalableQuantity { amount, food_name }) => {
            assert_eq!(amount, "100g");
            assert_eq!(food_name, "air");
        },
        other => panic!("{:?}", other),
    }
    let broken = CatalogEntry {
        id: 2,
        name: "stew".to_string(),
        serving: "a bowl".to_string(),
        default_amount: None,
    };
    let request = Request { name: "stew".to_string(), amount: None };
    match plan_log(request, Some(broken)) {
        Err(InterpretError::UnscalableQuantity { amount, food_name }) => {
            assert_eq!(amount, "a bowl");
            assert_eq!(food_name, "stew");
        },
        other => panic!("{:?}", other),
    }
}

#[test]
fn failures_say_what_failed() {
    assert_eq!(InterpretError::EmptyInput.message(), "No food given");
    assert_eq!(
        InterpretError::FoodNotFound { name: "tofu".to_string() }.message(),
        "Food not found: 'tofu'. Add it with: chomp add \"tofu\" --protein X --fat Y --carbs Z"
    );
    assert_eq!(
        InterpretError::UnscalableQuantity {
            amount: "a bowl".to_string(),
            food_name: "stew".to_string()
        }
        .message(),
        "Could not calculate macros for a bowl of stew"
    );
}
