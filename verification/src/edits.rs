//! Partial updates of a food or of a log entry: which columns an edit
//! rewrites, and the statement that rewrites them.
//!
//! Calories are derived from the other three values, so an edit that touches
//! one of them rewrites the calories too; an edit of a food always does.

use vstd::prelude::*;
use vstd::string::StringExecFns;

verus! {

/// A column that an edit can rewrite.
#[derive(Clone, Copy, Debug, PartialEq, Eq, Structural)]
pub enum Column {
    Amount,
    Protein,
    Fat,
    Carbs,
    Serving,
    Calories,
}

/// `column` alone where `wanted`, nothing otherwise.
pub open spec fn column_if(wanted: bool, column: Column) -> Seq<Column> {
    if wanted {
        seq![column]
    } else {
        Seq::empty()
    }
}

/// The columns that an edit of a food rewrites, in the order of the
/// statement: those given, then the calories.
pub open spec fn food_columns(protein: bool, fat: bool, carbs: bool, serving: bool) -> Seq<Column> {
    column_if(protein, Column::Protein) + column_if(fat, Column::Fat) + column_if(
        carbs,
        Column::Carbs,
    ) + column_if(serving, Column::Serving) + seq![Column::Calories]
}

/// The columns that an edit of a log entry rewrites, in the order of the
/// statement: those given, then the calories where protein, fat or carbs
/// change.
pub open spec fn log_columns(amount: bool, protein: bool, fat: bool, carbs: bool) -> Seq<Column> {
    column_if(amount, Column::Amount) + column_if(protein, Column::Protein) + column_if(
        fat,
        Column::Fat,
    ) + column_if(carbs, Column::Carbs) + column_if(protein || fat || carbs, Column::Calories)
}

/// The name of `column` in the tables.
pub open spec fn column_name(column: Column) -> Seq<char> {
    match column {
        Column::Amount => "amount"@,
        Column::Protein => "protein"@,
        Column::Fat => "fat"@,
        Column::Carbs => "carbs"@,
        Column::Serving => "serving"@,
        Column::Calories => "calories"@,
    }
}

/// The assignments of a statement: for each column its name and ` = ?`, with
/// a comma and a space between each two.
pub open spec fn assignments(columns: Seq<Column>) -> Seq<char>
    decreases columns.len(),
{
    if columns.len() == 0 {
        Seq::empty()
    } else if columns.len() == 1 {
        column_name(columns[0]) + " = ?"@
    } else {
        assignments(columns.drop_last()) + ", "@ + column_name(columns.last()) + " = ?"@
    }
}

/// The statement that rewrites `columns` of the food of a given name.
pub open spec fn food_statement(columns: Seq<Column>) -> Seq<char> {
    "UPDATE foods SET "@ + assignments(columns) + " WHERE LOWER(name) = LOWER(?)"@
}

/// The statement that rewrites `columns` of the log entry of a given id.
pub open spec fn log_statement(columns: Seq<Column>) -> Seq<char> {
    "UPDATE log SET "@ + assignments(columns) + " WHERE id = ?"@
}

/// The columns that an edit of a food rewrites.
pub fn food_update(protein: bool, fat: bool, carbs: bool, serving: bool) -> (columns: Vec<Column>)
    ensures
        columns@ == food_columns(protein, fat, carbs, serving),
{
    let mut columns: Vec<Column> = Vec::new();
    if protein {
        columns.push(Column::Protein);
    }
    if fat {
        columns.push(Column::Fat);
    }
    if carbs {
        columns.push(Column::Carbs);
    }
    if serving {
        columns.push(Column::Serving);
    }
    columns.push(Column::Calories);
    assert(columns@ =~= food_columns(protein, fat, carbs, serving));
    columns
}

/// The columns that an edit of a log entry rewrites; none where the edit
/// gives nothing.
pub fn log_update(amount: bool, protein: bool, fat: bool, carbs: bool) -> (columns: Vec<Column>)
    ensures
        columns@ == log_columns(amount, protein, fat, carbs),
        columns.len() == 0 <==> !amount && !protein && !fat && !carbs,
{
    let mut columns: Vec<Column> = Vec::new();
    if amount {
        columns.push(Column::Amount);
    }
    if protein {
        columns.push(Column::Protein);
    }
    if fat {
        columns.push(Column::Fat);
    }
    if carbs {
        columns.push(Column::Carbs);
    }
    if protein || fat || carbs {
        columns.push(Column::Calories);
    }
    assert(columns@ =~= log_columns(amount, protein, fat, carbs));
    columns
}

/// The name of `column` in the tables.
pub fn name_of(column: Column) -> (r: &'static str)
    ensures
        r@ == column_name(column),
{
    match column {
        Column::Amount => "amount",
        Column::Protein => "protein",
        Column::Fat => "fat",
        Column::Carbs => "carbs",
        Column::Serving => "serving",
        Column::Calories => "calories",
    }
}

/// Appends the assignments of `columns` to `text`.
fn append_assignments(text: &mut String, columns: &Vec<Column>)
    ensures
        final(text)@ == old(text)@ + assignments(columns@),
{
    let n = columns.len();
    let ghost start = text@;
    let mut i: usize = 0;
    while i < n
        invariant
            n == columns.len(),
            i <= n,
            text@ == start + assignments(columns@.take(i as int)),
        decreases n - i,
    {
        let ghost done = columns@.take(i as int);
        let ghost next = columns@.take(i as int + 1);
        if i > 0 {
            text.append(", ");
        }
        text.append(name_of(columns[i]));
        text.append(" = ?");
        proof {
            assert(next.drop_last() =~= done);
            assert(next.last() == columns@[i as int]);
            if i == 0 {
                assert(assignments(done) =~= Seq::<char>::empty());
                assert(text@ =~= start + assignments(next));
            } else {
                assert(text@ =~= start + assignments(next));
            }
        }
        i += 1;
    }
    assert(columns@.take(n as int) =~= columns@);
}

/// The statement that rewrites `columns` of a food; its parameters are the
/// new values in the order of `columns`, then the food's name.
pub fn update_food_statement(columns: &Vec<Column>) -> (r: String)
    ensures
        r@ == food_statement(columns@),
{
    let mut text = String::from_str("UPDATE foods SET ");
    append_assignments(&mut text, columns);
    text.append(" WHERE LOWER(name) = LOWER(?)");
    text
}

/// The statement that rewrites `columns` of a log entry; its parameters are
/// the new values in the order of `columns`, then the entry's id.
pub fn update_log_statement(columns: &Vec<Column>) -> (r: String)
    ensures
        r@ == log_statement(columns@),
{
    let mut text = String::from_str("UPDATE log SET ");
    append_assignments(&mut text, columns);
    text.append(" WHERE id = ?");
    text
}

} // verus!
