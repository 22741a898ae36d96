use femtobot::chat::ChatMessage;
use femtobot::compaction::{CompactionConfig, SessionCompactor};
use femtobot::notes::{truncate, DateStamp, MemoryStore};

fn msg(role: &str, content: &str) -> ChatMessage {
    ChatMessage::new(role, String::from(content))
}

#[test]
fn truncate_returns_short_text_unchanged() {
    assert_eq!(truncate("short note", 100), "short note");
    assert_eq!(truncate("", 0), "");
}

#[test]
fn tiny_budgets_still_carry_the_marker() {
    // Below the marker allowance the cut degenerates to the marker alone.
    assert_eq!(truncate("abcdefghijklmnopqrstuvwxyz", 10), "... (truncated)");
}

#[test]
fn truncate_prefers_paragraph_boundaries() {
    let text = format!("{}\n\n{}", "a".repeat(60), "b".repeat(60));
    let out = truncate(&text, 100);
    // The budget edge is at 80; the paragraph break at 60 is past halfway.
    assert_eq!(out, format!("{}\n\n\n... (truncated)", "a".repeat(60)));
    assert!(out.chars().count() <= 100);
}

#[test]
fn truncate_falls_back_to_sentences_words_and_hard_cuts() {
    let sentences = "This is a sentence. ".repeat(10);  // 200 chars
    let out = truncate(&sentences, 100);
    assert!(out.ends_with("\n... (truncated)"));
    assert!(out.chars().count() <= 100);

    let words = "word ".repeat(40);  // 200 chars, no sentence ends
    let out = truncate(&words, 100);
    assert!(out.ends_with(" ... (truncated)"));
    assert!(out.chars().count() <= 100);

    let solid = "x".repeat(200);
    let out = truncate(&solid, 100);
    assert_eq!(out, format!("{}... (truncated)", "x".repeat(80)));
}

#[test]
fn memory_context_respects_the_budget_split() {
    // Budget 1000: long-term notes get 60%, today's note rides in the rest.
    let store = MemoryStore::new(String::from("/ws"));
    let long_term = "This is a sentence. ".repeat(150);  // 3000 chars
    let today = "Called the dentist about Tuesday again.".repeat(1);  // under 50 chars? it's 39
    let out = store.get_memory_context(&long_term, &today, 1000);

    // The long-term excerpt is boundary-aligned and within its 60% share.
    let long_part_start = "## Long-term Memory\n";
    assert!(out.starts_with(long_part_start));
    let after = &out[long_part_start.len()..];
    let long_part_end = after.find("\n\n## Today's Notes\n").expect("today's note included");
    assert!(long_part_end <= 600);
    assert!(after[..long_part_end].ends_with("... (truncated)"));

    // Today's short note is appended in full.
    assert!(out.ends_with(&today));
    // And the whole excerpt respects the overall budget plus fixed overhead.
    assert!(out.chars().count() <= 1000 + 55);
}

#[test]
fn memory_context_omits_empty_sections() {
    let store = MemoryStore::new(String::from("/ws"));
    assert_eq!(store.get_memory_context("", "", 1000), "");
    let only_today = store.get_memory_context("", "today text", 1000);
    assert_eq!(only_today, "## Today's Notes\ntoday text");
    let only_long = store.get_memory_context("long text", "", 1000);
    assert_eq!(only_long, "## Long-term Memory\nlong text");
}

#[test]
fn memory_context_drops_today_when_budget_is_spent() {
    let store = MemoryStore::new(String::from("/ws"));
    // 60% of 150 leaves under 100 characters of budget after the long-term
    // excerpt, so today's note is omitted.
    let long_term = "word ".repeat(40);
    let out = store.get_memory_context(&long_term, "today note", 150);
    assert!(out.starts_with("## Long-term Memory\n"));
    assert!(!out.contains("Today's Notes"));
}

#[test]
fn store_paths_are_workspace_derived() {
    let store = MemoryStore::new(String::from("/home/me/ws"));
    assert_eq!(store.workspace().as_str(), "/home/me/ws");
    assert_eq!(store.long_term_file().as_str(), "/home/me/ws/memory/MEMORY.md");
    let d = DateStamp { year: 2026, month: 1, day: 5 };
    assert_eq!(store.get_today_file(&d), "/home/me/ws/memory/2026-01-05.md");
}

#[test]
fn short_history_passes_through_unchanged() {
    let compactor = SessionCompactor::new(None);
    let mut messages = Vec::new();
    for i in 0..49 {
        messages.push(msg(if i % 2 == 0 { "user" } else { "assistant" }, &format!("turn {i}")));
    }
    let out = compactor.compact(&messages);
    assert_eq!(out.len(), 49);
    for i in 0..49 {
        assert_eq!(out[i].content, messages[i].content);
        assert_eq!(out[i].role, messages[i].role);
    }
}

#[test]
fn long_history_ends_with_recent_turns_verbatim() {
    let compactor = SessionCompactor::new(None);
    let mut messages = Vec::new();
    for i in 0..60 {
        let role = if i % 2 == 0 { "user" } else { "assistant" };
        let content = if i % 2 == 0 {
            format!("my name is Tester{i} and remember that fact number {i} matters")
        } else {
            format!("Understood, I will keep fact number {i} in mind going forward. It sounds important.")
        };
        messages.push(msg(role, &content));
    }
    let out = compactor.compact(&messages);
    // A recap turn plus the last 16 messages (8 turns) verbatim, in order.
    assert_eq!(out.len(), 17);
    assert_eq!(out[0].role, "assistant");
    assert!(out[0].content.starts_with("[Recalling from earlier in our conversation]"));
    assert!(out[0].content.contains("Key facts:"));
    for t in 0..16 {
        assert_eq!(out[1 + t].content, messages[44 + t].content);
        assert_eq!(out[1 + t].role, messages[44 + t].role);
    }
}

#[test]
fn compaction_never_rewrites_the_stored_history() {
    let compactor = SessionCompactor::new(None);
    let mut messages = Vec::new();
    for i in 0..55 {
        messages.push(msg("user", &format!("my name is Echo{i} something something")));
    }
    let before: Vec<String> = messages.iter().map(|m| m.content.clone()).collect();
    let _ = compactor.compact(&messages);
    let after: Vec<String> = messages.iter().map(|m| m.content.clone()).collect();
    assert_eq!(before, after);
}

#[test]
fn summary_collects_questions_and_conclusions() {
    let compactor = SessionCompactor::new(Some(CompactionConfig {
        threshold: 50,
        recent_turns_keep: 8,
        summary_max_turns: 15,
        max_facts: 10,
    }));
    let middle = vec![
        msg("user", "What is the best way to water a cactus indoors?"),
        msg(
            "assistant",
            "The best approach is sparse watering every three weeks or so. Let the soil dry.",
        ),
        msg("user", "ok"),
    ];
    let summary = compactor.summarize(&middle);
    assert!(summary.contains("User asked about:"));
    assert!(summary.contains("  - What is the best way to water a cactus indoors?"));
    assert!(summary.contains("Assistant responses:"));
    assert!(summary.contains("  - The best approach is sparse watering every three weeks or so"));

    let dull = vec![msg("user", "hi"), msg("assistant", "hello")];
    assert_eq!(compactor.summarize(&dull), "General discussion continued");
}

#[test]
fn compaction_flag_tracks_the_threshold() {
    let compactor = SessionCompactor::new(None);
    let mut messages = Vec::new();
    for i in 0..49 {
        messages.push(msg("user", &format!("note number {i}")));
    }
    let (sent, was_compacted) = compactor.compact_with_flag(&messages);
    assert!(!was_compacted);
    assert_eq!(sent.len(), 49);
    messages.push(msg("assistant", "the fiftieth message arrives"));
    let (sent, was_compacted) = compactor.compact_with_flag(&messages);
    assert!(was_compacted);
    assert!(sent.len() <= 17);
    // The sent history always ends with the last 16 stored messages.
    for t in 0..16 {
        assert_eq!(sent[sent.len() - 16 + t].content, messages[34 + t].content);
    }
}

#[test]
fn default_config_matches_documented_bounds() {
    let c = SessionCompactor::new(None);
    assert_eq!(c.config.threshold, 50);
    assert_eq!(c.config.recent_turns_keep, 8);
    assert_eq!(c.config.summary_max_turns, 15);
    assert_eq!(c.config.max_facts, 10);
}
