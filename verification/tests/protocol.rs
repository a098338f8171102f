use chomp::catalog::{lookup_key, Stats};
use chomp::protocol::{
    classify_method, classify_tool, history_days, Method, Tool, DEFAULT_HISTORY_DAYS,
    INTERNAL_ERROR, PARSE_ERROR,
};

#[test]
fn methods_are_told_by_their_names() {
    assert_eq!(classify_method("initialize"), Method::Initialize);
    assert_eq!(classify_method("tools/list"), Method::ToolsList);
    assert_eq!(classify_method("tools/call"), Method::ToolsCall);
    assert_eq!(classify_method("notifications/initialized"), Method::Initialized);
    for name in ["", "Initialize", "tools", "tools/call ", "initialized", "ping"] {
        assert_eq!(classify_method(name), Method::Unknown, "{}", name);
    }
}

#[test]
fn tools_are_told_by_their_names() {
    assert_eq!(classify_tool("log_food"), Tool::LogFood);
    assert_eq!(classify_tool("search_food"), Tool::SearchFood);
    assert_eq!(classify_tool("add_food"), Tool::AddFood);
    assert_eq!(classify_tool("get_today"), Tool::GetToday);
    assert_eq!(classify_tool("get_history"), Tool::GetHistory);
    for name in ["", "log", "LOG_FOOD", "get_history2", "delete_food"] {
        assert_eq!(classify_tool(name), Tool::Unknown, "{}", name);
    }
}

#[test]
fn errors_have_their_codes() {
    assert_eq!(PARSE_ERROR, -32700);
    assert_eq!(INTERNAL_ERROR, -32603);
}

#[test]
fn history_goes_back_a_week_unless_told() {
    assert_eq!(DEFAULT_HISTORY_DAYS, 7);
    assert_eq!(history_days(None), 7);
    assert_eq!(history_days(Some(0)), 0);
    assert_eq!(history_days(Some(30)), 30);
    assert_eq!(history_days(Some(u32::MAX as u64)), u32::MAX);
    assert_eq!(history_days(Some(u32::MAX as u64 + 1)), 0);
    assert_eq!(history_days(Some(u64::MAX)), u32::MAX);
    assert_eq!(history_days(Some((1 << 40) + 5)), 5);
}

#[test]
fn stats_hold_counts_and_dates() {
    let stats = Stats {
        food_count: 3,
        log_count: 10,
        first_entry: Some("2024-01-01".to_string()),
        last_entry: None,
    };
    assert_eq!(stats.food_count, 3);
    assert_eq!(stats.log_count, 10);
    assert_eq!(stats.first_entry.as_deref(), Some("2024-01-01"));
    assert_eq!(stats.last_entry, None);
}

#[test]
fn foods_are_looked_up_in_lower_case() {
    assert_eq!(lookup_key("Ribeye"), "ribeye");
    assert_eq!(lookup_key("BARE Bar"), "bare bar");
    assert_eq!(lookup_key("cr\u{c8}me 2"), "cr\u{e8}me 2");
    assert_eq!(lookup_key(""), "");
}
