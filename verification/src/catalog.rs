//! What the library holds of the catalog and of the log: plain records that
//! the storage fills in.

use crate::text::{chars_of, lowercase, string_of, to_lowercase};
use vstd::prelude::*;

verus! {

/// The form under which a food is looked up by name or alias: the name in
/// lower case, so that the case of what was typed does not matter.
pub fn lookup_key(name: &str) -> (key: String)
    ensures
        key@ == lowercase(name@),
{
    let chars = chars_of(name);
    let lowered = to_lowercase(chars.as_slice());
    string_of(lowered.as_slice())
}

/// What the interpretation reads of a food of the catalog.
#[derive(Debug)]
pub struct CatalogEntry {
    pub id: i64,
    pub name: String,
    /// The quantity that the food's stored values are given for.
    pub serving: String,
    /// The amount to log where the command gives none.
    pub default_amount: Option<String>,
}

/// The size of the catalog and of the log, and the dates that the log spans.
#[derive(Debug)]
pub struct Stats {
    pub food_count: i64,
    pub log_count: i64,
    pub first_entry: Option<String>,
    pub last_entry: Option<String>,
}

} // verus!
