//! Interpreting a log command against the catalog.
//!
//! The library never talks to the catalog or to the log itself. It is asked
//! twice: `read_command` turns the raw text into a request, whose name the
//! caller looks up in the catalog; `plan_log` takes what the lookup found and
//! returns what to record. Only a plan is ever recorded, so a failure at
//! either step leaves the log untouched.

use crate::catalog::CatalogEntry;
use crate::scale::{parse_amount_multiplier, scalable, weighs, Multiplier};
use crate::text::{lemma_trim_of_words, lemma_words_not_empty, words};
use crate::tokenize::{parse_input, split_command, text_of};
use vstd::prelude::*;
use vstd::string::StringExecFns;

verus! {

/// Why a log command could not be interpreted.
#[derive(Debug)]
pub enum InterpretError {
    /// The command holds no word at all.
    EmptyInput,
    /// The catalog has no food of this name or alias.
    FoodNotFound { name: String },
    /// The amount or the food's serving is no quantity, or the serving is zero.
    UnscalableQuantity { amount: String, food_name: String },
}

/// A log command that names a food: what to look up, and the amount given.
#[derive(Debug)]
pub struct Request {
    pub name: String,
    pub amount: Option<String>,
}

/// What to record for an interpreted command.
#[derive(Debug)]
pub struct LogPlan {
    pub food_id: i64,
    pub food_name: String,
    pub amount: String,
    /// By how much to multiply the food's stored values.
    pub multiplier: Multiplier,
}

/// The amount to scale by: the one that the command gave, else the food's
/// default amount, else one serving.
pub open spec fn chosen_amount(given: Option<String>, entry: CatalogEntry) -> String {
    match given {
        Some(amount) => amount,
        None => match entry.default_amount {
            Some(amount) => amount,
            None => entry.serving,
        },
    }
}

/// Reads a log command. A command without a word is refused; any other
/// splits as `split_command` says.
pub fn read_command(raw: &str) -> (r: Result<Request, InterpretError>)
    ensures
        words(raw@).len() == 0 ==> r == Err::<Request, InterpretError>(InterpretError::EmptyInput),
        words(raw@).len() > 0 ==> r is Ok && r->Ok_0.name@ == split_command(raw@).name && text_of(
            r->Ok_0.amount,
        ) == split_command(raw@).amount,
{
    let (name, amount) = parse_input(raw);
    if name.as_str().is_empty() && amount.is_none() {
        proof {
            lemma_blank_command(raw@);
        }
        Err(InterpretError::EmptyInput)
    } else {
        Ok(Request { name, amount })
    }
}

/// A command splits into an empty name and no amount only where it has no word.
pub proof fn lemma_blank_command(input: Seq<char>)
    ensures
        split_command(input).name.len() == 0 && split_command(input).amount is None
            <==> words(input).len() == 0,
{
    lemma_words_not_empty(input);
    lemma_trim_of_words(input);
}

/// Decides what to record, given what the catalog holds under the request's
/// name.
pub fn plan_log(request: Request, found: Option<CatalogEntry>) -> (r: Result<
    LogPlan,
    InterpretError,
>)
    ensures
        found is None ==> r == Err::<LogPlan, InterpretError>(
            InterpretError::FoodNotFound { name: request.name },
        ),
        found matches Some(entry) ==> {
            let amount = chosen_amount(request.amount, entry);
            if scalable(amount@, entry.serving@) {
                &&& r matches Ok(plan)
                &&& plan.food_id == entry.id
                &&& plan.food_name == entry.name
                &&& plan.amount == amount
                &&& plan.multiplier.wf()
                &&& weighs(plan.multiplier.amount, amount@)
                &&& weighs(plan.multiplier.serving, entry.serving@)
            } else {
                r == Err::<LogPlan, InterpretError>(
                    InterpretError::UnscalableQuantity { amount, food_name: entry.name },
                )
            }
        },
{
    let Request { name, amount: given } = request;
    let entry = match found {
        Some(entry) => entry,
        None => {
            return Err(InterpretError::FoodNotFound { name });
        },
    };
    let CatalogEntry { id, name: food_name, serving, default_amount } = entry;
    let multiplier = match &given {
        Some(amount) => parse_amount_multiplier(amount.as_str(), serving.as_str()),
        None => match &default_amount {
            Some(amount) => parse_amount_multiplier(amount.as_str(), serving.as_str()),
            None => parse_amount_multiplier(serving.as_str(), serving.as_str()),
        },
    };
    let amount = match given {
        Some(amount) => amount,
        None => match default_amount {
            Some(amount) => amount,
            None => serving,
        },
    };
    match multiplier {
        Some(multiplier) => Ok(LogPlan { food_id: id, food_name, amount, multiplier }),
        None => Err(InterpretError::UnscalableQuantity { amount, food_name }),
    }
}

impl InterpretError {
    /// What `message` returns.
    pub open spec fn message_text(&self) -> Seq<char> {
        match self {
            InterpretError::EmptyInput => "No food given"@,
            InterpretError::FoodNotFound { name } => "Food not found: '"@ + name@
                + "'. Add it with: chomp add \""@ + name@ + "\" --protein X --fat Y --carbs Z"@,
            InterpretError::UnscalableQuantity { amount, food_name } =>
                "Could not calculate macros for "@ + amount@ + " of "@ + food_name@,
        }
    }

    /// The failure in words, for whoever sent the command.
    pub fn message(&self) -> (r: String)
        ensures
            r@ == self.message_text(),
    {
        match self {
            InterpretError::EmptyInput => String::from_str("No food given"),
            InterpretError::FoodNotFound { name } => {
                let mut text = String::from_str("Food not found: '");
                text.append(name.as_str());
                text.append("'. Add it with: chomp add \"");
                text.append(name.as_str());
                text.append("\" --protein X --fat Y --carbs Z");
                text
            },
            InterpretError::UnscalableQuantity { amount, food_name } => {
                let mut text = String::from_str("Could not calculate macros for ");
                text.append(amount.as_str());
                text.append(" of ");
                text.append(food_name.as_str());
                text
            },
        }
    }
}

} // verus!
