//! The requests of the line protocol: which method a request names, which
//! tool a call names, and the codes of the errors that answer them.

use crate::text::{chars_of, same_chars};
use vstd::prelude::*;

verus! {

/// The code of the error that answers a line that is no request.
pub const PARSE_ERROR: i32 = -32700;

/// The code of the error that answers a request that failed.
pub const INTERNAL_ERROR: i32 = -32603;

/// How many days of history a call shows where it gives no number.
pub const DEFAULT_HISTORY_DAYS: u64 = 7;

/// The methods of the protocol.
#[derive(Clone, Copy, Debug, PartialEq, Eq, Structural)]
pub enum Method {
    Initialize,
    ToolsList,
    ToolsCall,
    /// The notification that follows `initialize`; it is answered with nothing.
    Initialized,
    Unknown,
}

/// The tools that a call can name.
#[derive(Clone, Copy, Debug, PartialEq, Eq, Structural)]
pub enum Tool {
    LogFood,
    SearchFood,
    AddFood,
    GetToday,
    GetHistory,
    Unknown,
}

/// The method that `name` names.
pub open spec fn method_of(name: Seq<char>) -> Method {
    if name == "initialize"@ {
        Method::Initialize
    } else if name == "tools/list"@ {
        Method::ToolsList
    } else if name == "tools/call"@ {
        Method::ToolsCall
    } else if name == "notifications/initialized"@ {
        Method::Initialized
    } else {
        Method::Unknown
    }
}

/// The tool that `name` names.
pub open spec fn tool_of(name: Seq<char>) -> Tool {
    if name == "log_food"@ {
        Tool::LogFood
    } else if name == "search_food"@ {
        Tool::SearchFood
    } else if name == "add_food"@ {
        Tool::AddFood
    } else if name == "get_today"@ {
        Tool::GetToday
    } else if name == "get_history"@ {
        Tool::GetHistory
    } else {
        Tool::Unknown
    }
}

/// The method that a request names.
pub fn classify_method(name: &str) -> (r: Method)
    ensures
        r == method_of(name@),
{
    let chars = chars_of(name);
    let s = chars.as_slice();
    if same_chars(s, "initialize") {
        Method::Initialize
    } else if same_chars(s, "tools/list") {
        Method::ToolsList
    } else if same_chars(s, "tools/call") {
        Method::ToolsCall
    } else if same_chars(s, "notifications/initialized") {
        Method::Initialized
    } else {
        Method::Unknown
    }
}

/// The tool that a call names.
pub fn classify_tool(name: &str) -> (r: Tool)
    ensures
        r == tool_of(name@),
{
    let chars = chars_of(name);
    let s = chars.as_slice();
    if same_chars(s, "log_food") {
        Tool::LogFood
    } else if same_chars(s, "search_food") {
        Tool::SearchFood
    } else if same_chars(s, "add_food") {
        Tool::AddFood
    } else if same_chars(s, "get_today") {
        Tool::GetToday
    } else if same_chars(s, "get_history") {
        Tool::GetHistory
    } else {
        Tool::Unknown
    }
}

/// How many days of history to show: the number given, of which the low 32
/// bits count, or `DEFAULT_HISTORY_DAYS`.
pub fn history_days(given: Option<u64>) -> (r: u32)
    ensures
        r == match given {
            Some(days) => days & 0xFFFF_FFFF,
            None => DEFAULT_HISTORY_DAYS,
        },
{
    let days = match given {
        Some(days) => days,
        None => DEFAULT_HISTORY_DAYS,
    };
    let low: u64 = days & 0xFFFF_FFFF;
    assert(low <= 0xFFFF_FFFF) by (bit_vector)
        requires
            low == days & 0xFFFF_FFFF,
    ;
    assert(7u64 & 0xFFFF_FFFF == 7u64) by (bit_vector);
    low as u32
}

} // verus!
