use rubberdux::app::identity::fallback::{fallback_color, fallback_symbol, fallback_title};
use rubberdux::app::identity::{
    full_fallback, prompt, repair_identity, usable_reply, AppIdentity, LlmIdentityResponse,
    COLOR_PALETTE, SYMBOL_ALLOWLIST,
};
use rubberdux::conversation::{Message, UserContent};
use rubberdux::json_object::extract_json_object;

fn field(value: &serde_json::Value, name: &str) -> Option<String> {
    value[name].as_str().map(|s| s.to_owned())
}

fn repair_from_json(json: &str, task: &str) -> AppIdentity {
    let response = extract_json_object(json)
        .and_then(|object| serde_json::from_str::<serde_json::Value>(&object).ok())
        .map(|value| LlmIdentityResponse {
            title: field(&value, "title"),
            sf_symbol: field(&value, "sf_symbol"),
            color: field(&value, "color"),
        });
    repair_identity(&response, task)
}

#[test]
fn fallback_symbol_is_deterministic() {
    let task = "Organize the team meeting agenda";
    assert_eq!(fallback_symbol(task), fallback_symbol(task));
}

#[test]
fn fallback_color_is_deterministic() {
    let task = "Organize the team meeting agenda";
    assert_eq!(fallback_color(task), fallback_color(task));
}

#[test]
fn fallback_symbol_stays_in_allowlist() {
    let tasks = ["hello", "write a blog post", "debug the server crash", ""];
    for t in &tasks {
        let s = fallback_symbol(t);
        assert!(SYMBOL_ALLOWLIST.contains(&s), "symbol '{}' not in allowlist", s);
    }
}

#[test]
fn fallback_color_stays_in_palette() {
    let tasks = ["hello", "write a blog post", "debug the server crash", ""];
    for t in &tasks {
        let c = fallback_color(t);
        assert!(COLOR_PALETTE.contains(&c), "color '{}' not in palette", c);
    }
}

#[test]
fn fallback_title_truncates_at_40_chars() {
    let long = "a".repeat(100);
    let title = fallback_title(&long);
    assert_eq!(title.chars().count(), 40);
}

#[test]
fn fallback_title_trims_whitespace() {
    let title = fallback_title("  hello  ");
    assert_eq!(title, "hello");
}

#[test]
fn fallback_title_empty_task_yields_untitled() {
    assert_eq!(fallback_title(""), "Untitled");
    assert_eq!(fallback_title("   "), "Untitled");
}

#[test]
fn different_tasks_produce_different_symbols_often() {
    let a = fallback_symbol("book a flight to Tokyo");
    let b = fallback_symbol("write unit tests for the parser");
    assert!(SYMBOL_ALLOWLIST.contains(&a));
    assert!(SYMBOL_ALLOWLIST.contains(&b));
}

#[test]
fn full_fallback_is_deterministic() {
    let task = "Write integration tests for the auth module";
    let id1 = full_fallback(task);
    let id2 = full_fallback(task);
    assert_eq!(id1, id2);
}

#[test]
fn repair_from_json_preserves_valid_fields() {
    let json = r##"{"title":"Check logs","sf_symbol":"doc","color":"#3478F6"}"##;
    let id = repair_from_json(json, "Check server logs");
    assert_eq!(id.title, "Check logs");
    assert_eq!(id.icon.symbol, "doc");
    assert_eq!(id.icon.color, "#3478F6");
}

#[test]
fn repair_from_json_missing_all_fields() {
    let json = "{}";
    let task = "Plan the sprint backlog";
    let id = repair_from_json(json, task);
    assert!(!id.title.is_empty());
    assert!(SYMBOL_ALLOWLIST.contains(&id.icon.symbol.as_str()));
    assert!(COLOR_PALETTE.contains(&id.icon.color.as_str()));
}

#[test]
fn valid_llm_response_is_preserved() {
    let json = r##"{"title":"Write a report","sf_symbol":"doc","color":"#34C759"}"##;
    let id = repair_from_json(json, "Write a quarterly report");
    assert_eq!(id.title, "Write a report");
    assert_eq!(id.icon.symbol, "doc");
    assert_eq!(id.icon.color, "#34C759");
}

#[test]
fn invalid_symbol_is_repaired_only() {
    let json = r##"{"title":"Launch project","sf_symbol":"rocket","color":"#FF9500"}"##;
    let task = "Launch the new product";
    let id = repair_from_json(json, task);
    assert_eq!(id.title, "Launch project");
    assert_eq!(id.icon.color, "#FF9500");
    assert_eq!(id.icon.symbol, fallback_symbol(task));
    assert!(SYMBOL_ALLOWLIST.contains(&id.icon.symbol.as_str()));
}

#[test]
fn invalid_color_is_repaired_only() {
    let json = r##"{"title":"Debug issue","sf_symbol":"wrench","color":"#ABCDEF"}"##;
    let task = "Debug the failing test";
    let id = repair_from_json(json, task);
    assert_eq!(id.title, "Debug issue");
    assert_eq!(id.icon.symbol, "wrench");
    assert_eq!(id.icon.color, fallback_color(task));
    assert!(COLOR_PALETTE.contains(&id.icon.color.as_str()));
}

#[test]
fn malformed_json_triggers_full_fallback() {
    let task = "Organize the team standup";
    let id = repair_from_json("not json at all {{{}}}", task);
    assert_eq!(id, full_fallback(task));
    assert!(!id.title.is_empty());
}

#[test]
fn http_failure_triggers_full_fallback() {
    let task = "Review pull request changes";
    let id = repair_identity(&None, task);
    assert!(SYMBOL_ALLOWLIST.contains(&id.icon.symbol.as_str()));
    assert!(COLOR_PALETTE.contains(&id.icon.color.as_str()));
    assert!(!id.title.is_empty());
    assert_eq!(id, full_fallback(task));
}

#[test]
fn derive_identity_is_deterministic_with_mock() {
    let json = r##"{"title":"Plan trip","sf_symbol":"airplane","color":"#3478F6"}"##;
    let task = "Book a flight to Tokyo";
    let id1 = repair_from_json(json, task);
    let id2 = repair_from_json(json, task);
    assert_eq!(id1, id2);
}

#[test]
fn fallback_of_hello_is_fixed() {
    // FNV-1a of "hello" in 32 bits is 0x4f9f2cab.
    let hash: u32 = 0x4f9f2cab;
    assert_eq!(fallback_symbol("hello"), SYMBOL_ALLOWLIST[hash as usize % 24]);
    let color = hash.wrapping_mul(2_654_435_761) as usize % 10;
    assert_eq!(fallback_color("hello"), COLOR_PALETTE[color]);
}

#[test]
fn blank_replies_are_of_no_use() {
    assert_eq!(usable_reply(" \n\t "), None);
    assert_eq!(usable_reply("  {} \n"), Some("{}".to_string()));
}

#[test]
fn identity_question_names_the_task_and_the_choices() {
    match prompt::user_message("fold laundry") {
        Message::User { content: UserContent::Text(t) } => assert_eq!(t, "Task: fold laundry"),
        other => panic!("unexpected message {:?}", other),
    }
    let system = prompt::system_message().content_text();
    assert!(system.contains("airplane"));
    assert!(system.contains("#3478F6"));
}

#[test]
fn object_is_extracted_from_prose_and_fences() {
    let fenced = "Sure:\n```json\n{\"a\": {\"b\": \"}\"}}\n```\nDone {x}";
    assert_eq!(extract_json_object(fenced), Some("{\"a\": {\"b\": \"}\"}}".to_string()));
    assert_eq!(extract_json_object("no braces"), None);
    assert_eq!(extract_json_object("open { only"), None);
    assert_eq!(extract_json_object("{ stray {\"k\":1}"), Some("{\"k\":1}".to_string()));
    assert_eq!(extract_json_object("{\"q\":\"\\\"}\"}"), Some("{\"q\":\"\\\"}\"}".to_string()));
}
