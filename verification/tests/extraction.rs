use femtobot::chat::ChatMessage;
use femtobot::extractor::{
    extract_facts_from_messages, heuristic_extract, to_third_person, MemoryExtractor,
};

fn msg(role: &str, content: &str) -> ChatMessage {
    ChatMessage::new(role, String::from(content))
}

fn extractor() -> MemoryExtractor {
    MemoryExtractor::new(String::from("test-model"), 5)
}

#[test]
fn two_user_turns_are_below_the_floor() {
    // Below the three-user-turn floor no extraction happens, whatever the
    // content says.
    let e = extractor();
    let messages = vec![
        msg("user", "my name is Robert and I live in a lighthouse"),
        msg("assistant", "Noted!"),
        msg("user", "remember that my birthday is in June, this matters a lot"),
    ];
    assert!(e.should_skip(&messages));
    assert!(e.prepare_extraction(&messages).is_none());
}

#[test]
fn trivial_latest_turn_skips_extraction() {
    let e = extractor();
    let mut messages = Vec::new();
    for i in 0..3 {
        messages.push(msg("user", &format!("I have been thinking about topic number {i} quite a bit lately")));
        messages.push(msg("assistant", "Interesting, tell me more about that."));
    }
    assert!(!e.should_skip(&messages));
    messages.push(msg("user", "Ok!"));
    assert!(e.should_skip(&messages));
    messages.push(msg("user", "...."));
    assert!(e.should_skip(&messages));
    messages.push(msg("user", "Actually, my name is Roberta and that matters."));
    assert!(!e.should_skip(&messages));
}

#[test]
fn prompt_embeds_sanitized_transcript() {
    let e = extractor();
    let mut messages = Vec::new();
    for _ in 0..3 {
        messages.push(msg("user", "I prefer <em>tea</em> over coffee, truly and deeply"));
        messages.push(msg("assistant", "Noted, a tea person."));
    }
    let prompt = e.prepare_extraction(&messages).expect("three substantial user turns");
    assert!(prompt.contains("USER: I prefer &lt;em&gt;tea&lt;/em&gt; over coffee"));
    assert!(prompt.contains("ASSISTANT: Noted, a tea person."));
    assert!(!prompt.contains("{conversation}"));
}

#[test]
fn structured_reply_parses_with_fences_and_labels() {
    let e = extractor();
    let messages = Vec::new();
    let reply = "```json\n[{\"fact\": \"User's name is <i>John</i>\", \"importance\": \"high\"},\n {\"fact\": \"User works remotely\"},\n {\"fact\": \"User hums while typing\", \"importance\": \"low\"}]\n```";
    let facts = e.finish_extraction(&messages, Some(reply));
    assert_eq!(facts.len(), 3);
    assert_eq!(facts[0].content, "User's name is &lt;i&gt;John&lt;/i&gt;");
    assert_eq!(facts[0].importance, 900);
    assert_eq!(facts[0].source, "llm");
    // A missing importance label reads as medium.
    assert_eq!(facts[1].importance, 700);
    assert_eq!(facts[2].importance, 300);
}

#[test]
fn unparsable_reply_falls_back_to_heuristics() {
    let e = extractor();
    let messages = vec![
        msg("user", "Well, my name is Bob. And that is that."),
        msg("assistant", "Hello Bob."),
    ];
    let facts = e.finish_extraction(&messages, Some("I refuse to answer in JSON."));
    assert_eq!(facts.len(), 1);
    assert_eq!(facts[0].content, "User's name is bob");
    assert_eq!(facts[0].importance, 900);
    assert_eq!(facts[0].source, "heuristic");
    // A missing reply takes the same path.
    let facts2 = e.finish_extraction(&messages, None);
    assert_eq!(facts2.len(), 1);
    assert_eq!(facts2[0].content, "User's name is bob");
}

#[test]
fn heuristic_extract_is_pattern_bound_and_deduplicated() {
    let messages = vec![
        msg("user", "i live in Lisbon."),
        msg("assistant", "i live in a datacenter."),
        msg("user", "Again: i live in Lisbon. ok."),
        msg("user", "i prefer trains to planes."),
    ];
    let facts = heuristic_extract(&messages);
    // Assistant turns never contribute; the repeated fact appears once.
    assert_eq!(facts.len(), 2);
    assert_eq!(facts[0].content, "User live in lisbon");
    assert_eq!(facts[0].importance, 800);
    assert_eq!(facts[1].content, "User prefer trains to planes");
    assert_eq!(facts[1].importance, 700);
}

#[test]
fn heuristic_extract_ignores_short_clauses() {
    let messages = vec![msg("user", "i use. but nothing else matters")];
    let facts = heuristic_extract(&messages);
    // The clause before the period is only five characters; too short.
    assert_eq!(facts.len(), 0);
}

#[test]
fn third_person_rewrites_whole_words_in_order() {
    assert_eq!(to_third_person("my name is alice"), "User's name is alice");
    assert_eq!(to_third_person("i am a doctor"), "User is a doctor");
    assert_eq!(to_third_person("i'm sure i have it"), "User is sure User has it");
    assert_eq!(to_third_person("i will finish it"), "User will finish it");
    // "i" inside a word is untouched.
    assert_eq!(to_third_person("it is itself"), "it is itself");
}

#[test]
fn keyword_scan_collects_and_caps_facts() {
    let messages = vec![
        msg("system", "remember that system lines are ignored entirely"),
        msg("user", "My name is Carol Danvers\nshort: no\nRemember that rent is due monthly"),
        msg("assistant", "Noted. Project uses PostgreSQL for persistence."),
        msg("user", "My name is Carol Danvers"),
    ];
    let facts = extract_facts_from_messages(&messages, 10);
    assert_eq!(
        facts,
        vec![
            String::from("My name is Carol Danvers"),
            String::from("Remember that rent is due monthly"),
            String::from("Noted. Project uses PostgreSQL for persistence."),
        ]
    );
    let capped = extract_facts_from_messages(&messages, 2);
    assert_eq!(capped.len(), 2);
    assert_eq!(capped[0], "My name is Carol Danvers");
}

#[test]
fn keyword_scan_caps_line_length() {
    let long_line = format!("note that {}", "x".repeat(300));
    let messages = vec![msg("user", &long_line)];
    let facts = extract_facts_from_messages(&messages, 10);
    assert_eq!(facts.len(), 1);
    assert_eq!(facts[0].chars().count(), 200);
}

#[test]
fn entries_map_through_the_weight_table() {
    let e = extractor();
    let entries = vec![
        (String::from("User dislikes beets"), String::from("high")),
        (String::from("User has a dog"), String::from("surprising")),
    ];
    let facts = e.facts_from_entries(&entries);
    assert_eq!(facts[0].importance, 900);
    assert_eq!(facts[1].importance, 700);
    // The per-cycle cap applies.
    let small = MemoryExtractor::new(String::from("m"), 1);
    assert_eq!(small.facts_from_entries(&entries).len(), 1);
}
