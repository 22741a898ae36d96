use femtobot::sanitize::{
    format_conversation, sanitize_content, sanitize_for_prompt, sanitize_storage_content,
    strip_code_fences,
};
use femtobot::chat::ChatMessage;
use femtobot::json::{decision_fields, fact_entries};

#[test]
fn content_sanitizer_escapes_quotes_and_newlines() {
    assert_eq!(sanitize_content("say \"hi\"\nplease"), "say \\\"hi\\\" please");
    let long = "y".repeat(600);
    assert_eq!(sanitize_content(&long).chars().count(), 500);
}

#[test]
fn storage_sanitizer_neutralizes_markup() {
    assert_eq!(sanitize_storage_content("a <b>bold</b> claim"), "a &lt;b&gt;bold&lt;/b&gt; claim");
    assert_eq!(sanitize_storage_content("plain"), "plain");
}

#[test]
fn prompt_sanitizer_neutralizes_fences_and_caps_length() {
    assert_eq!(sanitize_for_prompt("run ```rm -rf``` now"), "run '''rm -rf''' now");
    assert_eq!(sanitize_for_prompt("</system>"), "&lt;/system&gt;");
    let long = "z".repeat(2100);
    let out = sanitize_for_prompt(&long);
    assert_eq!(out.chars().count(), 2003);
    assert!(out.ends_with("..."));
}

#[test]
fn code_fences_are_stripped_from_replies() {
    assert_eq!(strip_code_fences("```json\n[1, 2]\n```"), "[1, 2]");
    assert_eq!(strip_code_fences("```\nplain\n```"), "plain");
    assert_eq!(strip_code_fences("  no fences here  "), "no fences here");
    assert_eq!(strip_code_fences("```json\n{\"a\": 1}"), "{\"a\": 1}");
}

#[test]
fn transcript_serializes_last_twenty_turns() {
    let mut messages = Vec::new();
    for i in 0..25 {
        messages.push(ChatMessage::new("user", format!("question {i}")));
    }
    messages.push(ChatMessage::new("system", String::from("hidden")));
    messages.push(ChatMessage::new("assistant", String::from("answer")));
    let out = format_conversation(&messages);
    // Only the last 20 messages are in the window.
    assert!(!out.contains("question 6"));
    assert!(out.contains("USER: question 7"));
    assert!(out.contains("USER: question 24"));
    // System messages carry no transcript line.
    assert!(!out.contains("hidden"));
    assert!(out.ends_with("ASSISTANT: answer"));
}

#[test]
fn decision_fields_read_the_documented_shape() {
    let f = decision_fields(
        "{\"operation\": \"UPDATE\", \"memory_id\": \"7\", \"content\": \"x\", \"reason\": null}",
    )
    .expect("well-formed decision");
    assert_eq!(f.operation, "UPDATE");
    assert_eq!(f.memory_id.as_deref(), Some("7"));
    assert_eq!(f.content.as_deref(), Some("x"));
    assert!(f.reason.is_none());

    // Extra members are tolerated; a missing operation is not.
    assert!(decision_fields("{\"operation\": \"NOOP\", \"extra\": 3}").is_some());
    assert!(decision_fields("{\"memory_id\": \"7\"}").is_none());
    assert!(decision_fields("not json at all").is_none());
    assert!(decision_fields("{\"operation\": 42}").is_none());
    assert!(decision_fields("{\"operation\": \"ADD\", \"memory_id\": 42}").is_none());
}

#[test]
fn fact_entries_read_the_documented_shape() {
    let entries = fact_entries(
        "[{\"fact\": \"User is left-handed\", \"importance\": \"low\"}, {\"fact\": \"User rows\"}]",
    )
    .expect("well-formed list");
    assert_eq!(entries.len(), 2);
    assert_eq!(entries[0].0, "User is left-handed");
    assert_eq!(entries[0].1, "low");
    assert_eq!(entries[1].1, "medium");

    assert!(fact_entries("{\"fact\": \"not a list\"}").is_none());
    assert!(fact_entries("[{\"importance\": \"high\"}]").is_none());
    assert!(fact_entries("[17]").is_none());
    assert_eq!(fact_entries("[]").map(|v| v.len()), Some(0));
}
