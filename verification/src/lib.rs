//! The core of a food log: reading commands such as `ribeye 8oz`.
//!
//! A command is split into the name of a food and a quantity phrase
//! (`tokenize`), a quantity phrase into a number and a unit (`quantity`,
//! `number`, `units`), and the amount is weighed against the serving that the
//! food's values are given for (`scale`). `interpret` puts the steps together
//! around the one lookup in the catalog. Beside these stand what the storage
//! and the line protocol need decided: the ranking of a search (`search`),
//! the columns of an edit (`edits`) and the names of methods and tools
//! (`protocol`).
//!
//! The library holds no floating-point number. A number is kept as the
//! decimal that wrote it, and the contracts speak of exact fractions; to
//! round them to doubles is left to the caller.

pub mod catalog;
pub mod digits;
pub mod double;
pub mod edits;
pub mod examples;
pub mod interpret;
pub mod number;
pub mod protocol;
pub mod quantity;
pub mod scale;
pub mod search;
pub mod text;
pub mod tokenize;
pub mod units;
