use chomp::edits::{
    food_update, log_update, name_of, update_food_statement, update_log_statement, Column,
};

#[test]
fn an_edit_of_a_food_always_rewrites_the_calories() {
    assert_eq!(food_update(false, false, false, false), vec![Column::Calories]);
    assert_eq!(food_update(true, false, false, false), vec![Column::Protein, Column::Calories]);
    assert_eq!(food_update(false, false, false, true), vec![Column::Serving, Column::Calories]);
    assert_eq!(
        food_update(true, true, true, true),
        vec![Column::Protein, Column::Fat, Column::Carbs, Column::Serving, Column::Calories]
    );
    assert_eq!(food_update(false, true, true, false), vec![Column::Fat, Column::Carbs, Column::Calories]);
}

#[test]
fn an_edit_of_a_log_entry_rewrites_the_calories_with_the_macros() {
    assert_eq!(log_update(false, false, false, false), Vec::<Column>::new());
    assert_eq!(log_update(true, false, false, false), vec![Column::Amount]);
    assert_eq!(log_update(false, true, false, false), vec![Column::Protein, Column::Calories]);
    assert_eq!(log_update(false, false, true, false), vec![Column::Fat, Column::Calories]);
    assert_eq!(log_update(false, false, false, true), vec![Column::Carbs, Column::Calories]);
    assert_eq!(
        log_update(true, true, true, true),
        vec![Column::Amount, Column::Protein, Column::Fat, Column::Carbs, Column::Calories]
    );
}

#[test]
fn columns_have_the_names_of_the_tables() {
    assert_eq!(name_of(Column::Amount), "amount");
    assert_eq!(name_of(Column::Protein), "protein");
    assert_eq!(name_of(Column::Fat), "fat");
    assert_eq!(name_of(Column::Carbs), "carbs");
    assert_eq!(name_of(Column::Serving), "serving");
    assert_eq!(name_of(Column::Calories), "calories");
}

#[test]
fn the_statement_for_a_food() {
    assert_eq!(
        update_food_statement(&food_update(false, false, false, false)),
        "UPDATE foods SET calories = ? WHERE LOWER(name) = LOWER(?)"
    );
    assert_eq!(
        update_food_statement(&food_update(true, false, true, true)),
        "UPDATE foods SET protein = ?, carbs = ?, serving = ?, calories = ? WHERE LOWER(name) = LOWER(?)"
    );
}

#[test]
fn the_statement_for_a_log_entry() {
    assert_eq!(
        update_log_statement(&log_update(true, false, false, false)),
        "UPDATE log SET amount = ? WHERE id = ?"
    );
    assert_eq!(
        update_log_statement(&log_update(true, true, true, true)),
        "UPDATE log SET amount = ?, protein = ?, fat = ?, carbs = ?, calories = ? WHERE id = ?"
    );
    assert_eq!(update_log_statement(&Vec::new()), "UPDATE log SET  WHERE id = ?");
}
