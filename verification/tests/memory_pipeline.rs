use femtobot::consolidator::{MemoryConsolidator, Operation};
use femtobot::json::DecisionFields;
use femtobot::vector_store::{VectorMemoryStore, SIM_ONE};

fn consolidator() -> MemoryConsolidator {
    MemoryConsolidator::new(String::from("test-model"), SIM_ONE / 2)
}

fn unit_embedding() -> Vec<i16> {
    vec![10_000, 0, 0]
}

#[test]
fn add_then_noop_is_idempotent() {
    // Submitting the same fact twice, with the provider classifying the
    // duplicate as already captured, yields Add then Noop: one stored item.
    let mut store = VectorMemoryStore::new(16);
    let c = consolidator();
    let fact = "User's favorite color is blue";
    let emb = unit_embedding();

    // First submission: no candidates, so the decision needs no model call.
    let candidates = c.find_candidates(&store, &emb, "s1");
    assert_eq!(candidates.len(), 0);
    let decision = c.initial_decision(fact, &candidates).expect("no candidates means Add");
    assert!(matches!(decision.operation, Operation::Add));
    assert_eq!(decision.reason, "No similar memories found");
    let valid_ids = c.candidate_ids(&candidates);
    c.execute_operation(&mut store, &decision, "s1", 700, &valid_ids, &emb, 1);
    assert_eq!(store.len(), 1);

    // Second submission: the duplicate is found, the provider says NOOP.
    let candidates = c.find_candidates(&store, &emb, "s1");
    assert_eq!(candidates.len(), 1);
    assert_eq!(candidates[0].1, SIM_ONE);
    assert!(c.initial_decision(fact, &candidates).is_none());
    let fields = DecisionFields {
        operation: String::from("NOOP"),
        memory_id: None,
        content: None,
        reason: Some(String::from("Already captured")),
    };
    let decision = c.decide(fact, Some(fields), &candidates);
    assert!(matches!(decision.operation, Operation::Noop));
    let valid_ids = c.candidate_ids(&candidates);
    c.execute_operation(&mut store, &decision, "s1", 700, &valid_ids, &emb, 2);
    assert_eq!(store.len(), 1);
}

#[test]
fn hallucinated_id_downgrades_to_add() {
    // A decision naming a memory_id outside the candidate set never becomes
    // an Update or Delete.
    let mut store = VectorMemoryStore::new(16);
    let c = consolidator();
    let emb = unit_embedding();
    let _real_id = store.add("User's name is Alice", 700, "s1", &emb, 1);

    let candidates = c.find_candidates(&store, &emb, "s1");
    assert_eq!(candidates.len(), 1);
    for op in ["UPDATE", "DELETE"] {
        let fields = DecisionFields {
            operation: String::from(op),
            memory_id: Some(String::from("no-such-id")),
            content: Some(String::from("User's name is Mallory")),
            reason: Some(String::from("made up")),
        };
        let decision = c.decide("User's name is Alice Smith", Some(fields), &candidates);
        assert!(matches!(decision.operation, Operation::Add));
        assert!(decision.memory_id.is_none());
        assert_eq!(decision.reason, "Invalid memory_id");
    }

    // A mutating decision without any id is downgraded the same way.
    let fields = DecisionFields {
        operation: String::from("UPDATE"),
        memory_id: None,
        content: Some(String::from("x")),
        reason: None,
    };
    let decision = c.decide("User's name is Alice Smith", Some(fields), &candidates);
    assert!(matches!(decision.operation, Operation::Add));
    assert_eq!(decision.reason, "Missing memory_id");
}

#[test]
fn update_scenario_records_old_content() {
    // Store holds "User's name is Alice"; the new fact arrives, the provider
    // answers UPDATE with the candidate's id; the item is updated in place
    // and the prior text is recorded as old_content.
    let mut store = VectorMemoryStore::new(16);
    let c = consolidator();
    let emb = unit_embedding();
    let id = store.add("User's name is Alice", 700, "s1", &emb, 1);

    let candidates = c.find_candidates(&store, &emb, "s1");
    assert_eq!(candidates.len(), 1);
    assert_eq!(candidates[0].0.id, id);
    let fields = DecisionFields {
        operation: String::from("UPDATE"),
        memory_id: Some(id.clone()),
        content: Some(String::from("User's name is Alice Smith")),
        reason: Some(String::from("more specific")),
    };
    let decision = c.decide("User's name is Alice Smith", Some(fields), &candidates);
    assert!(matches!(decision.operation, Operation::Update));
    assert_eq!(decision.old_content.as_deref(), Some("User's name is Alice"));
    assert_eq!(decision.new_content.as_deref(), Some("User's name is Alice Smith"));
    assert_eq!(decision.similarity, SIM_ONE);

    let valid_ids = c.candidate_ids(&candidates);
    c.execute_operation(&mut store, &decision, "s1", 800, &valid_ids, &emb, 2);
    assert_eq!(store.len(), 1);
    let found = store.search(&emb, 5, 0, "s1", 0);
    assert_eq!(found.len(), 1);
    assert_eq!(found[0].0.id, id);
    assert_eq!(found[0].0.content, "User's name is Alice Smith");
    assert_eq!(found[0].0.updated_at, 2);
    assert_eq!(found[0].0.created_at, 1);
}

#[test]
fn delete_with_replacement_adds_new_content() {
    let mut store = VectorMemoryStore::new(16);
    let c = consolidator();
    let emb = unit_embedding();
    let id = store.add("User lives in Paris", 700, "s1", &emb, 1);

    let candidates = c.find_candidates(&store, &emb, "s1");
    let fields = DecisionFields {
        operation: String::from("DELETE"),
        memory_id: Some(id.clone()),
        content: Some(String::from("User lives in Lyon")),
        reason: Some(String::from("moved")),
    };
    let decision = c.decide("User lives in Lyon", Some(fields), &candidates);
    assert!(matches!(decision.operation, Operation::Delete));
    let valid_ids = c.candidate_ids(&candidates);
    c.execute_operation(&mut store, &decision, "s1", 700, &valid_ids, &emb, 2);
    // The contradicted item was replaced by the new content.
    assert_eq!(store.len(), 1);
    let found = store.search(&emb, 5, 0, "s1", 0);
    assert_eq!(found[0].0.content, "User lives in Lyon");
    assert_ne!(found[0].0.id, id);
}

#[test]
fn failed_parse_falls_open_to_add() {
    let c = consolidator();
    let candidates = Vec::new();
    let decision = c.decide("User plays chess", None, &candidates);
    assert!(matches!(decision.operation, Operation::Add));
    assert_eq!(decision.reason, "LLM failed");
    assert_eq!(decision.new_content.as_deref(), Some("User plays chess"));
    assert_eq!(decision.similarity, 0);
}

#[test]
fn search_respects_k_and_threshold() {
    // Never more than k items, every score at or above the threshold,
    // ranked by descending score, namespace-scoped.
    let mut store = VectorMemoryStore::new(16);
    store.add("strong match", 500, "s1", &vec![10_000], 1);
    store.add("good match", 500, "s1", &vec![9_000], 2);
    store.add("weak match", 500, "s1", &vec![5_000], 3);
    store.add("other namespace", 500, "s2", &vec![10_000], 4);

    let q = vec![10_000i16];
    let hits = store.search(&q, 2, 6 * SIM_ONE / 10, "s1", 0);
    assert_eq!(hits.len(), 2);
    assert!(hits[0].1 >= hits[1].1);
    for (item, score) in &hits {
        assert!(*score >= 6 * SIM_ONE / 10);
        assert_eq!(item.namespace, "s1");
    }
    assert_eq!(hits[0].0.content, "strong match");
    assert_eq!(hits[1].0.content, "good match");

    // k bounds the result even when more items qualify.
    let hits = store.search(&q, 1, 0, "s1", 0);
    assert_eq!(hits.len(), 1);
    // An empty result is valid and signals no related memory.
    let hits = store.search(&q, 3, SIM_ONE, "s3", 0);
    assert_eq!(hits.len(), 0);
}

#[test]
fn capacity_bound_evicts_least_important_oldest() {
    let mut store = VectorMemoryStore::new(2);
    store.add("kept high", 500, "s1", &vec![10_000], 1);
    store.add("evicted low", 300, "s1", &vec![10_000], 2);
    store.add("newcomer", 800, "s1", &vec![10_000], 3);
    assert_eq!(store.len(), 2);
    let hits = store.search(&vec![10_000i16], 10, 0, "s1", 0);
    let contents: Vec<&str> = hits.iter().map(|(i, _)| i.content.as_str()).collect();
    assert!(contents.contains(&"kept high"));
    assert!(contents.contains(&"newcomer"));
    assert!(!contents.contains(&"evicted low"));
}

#[test]
fn delete_is_idempotent_and_update_fails_softly() {
    let mut store = VectorMemoryStore::new(4);
    let emb = unit_embedding();
    let id = store.add("User drinks coffee", 700, "s1", &emb, 1);
    assert!(store.delete(id.as_str(), "s1"));
    assert!(!store.delete(id.as_str(), "s1"));
    assert!(store.update(id.as_str(), "nope", 700, "s1", &emb, 2).is_none());
    // Wrong namespace never matches.
    let id2 = store.add("User drinks tea", 700, "s1", &emb, 3);
    assert!(!store.delete(id2.as_str(), "s2"));
    assert_eq!(store.len(), 1);
}

#[test]
fn stored_content_is_sanitized() {
    let mut store = VectorMemoryStore::new(4);
    store.add("likes <b>tea</b>", 700, "s1", &vec![10_000], 1);
    let hits = store.search(&vec![10_000i16], 1, 0, "s1", 0);
    assert_eq!(hits[0].0.content, "likes &lt;b&gt;tea&lt;/b&gt;");
}

#[test]
fn decision_prompt_presents_candidates_and_fact() {
    let mut store = VectorMemoryStore::new(4);
    let id = store.add("User's name is Alice", 700, "s1", &vec![10_000], 1);
    let c = consolidator();
    let candidates = c.find_candidates(&store, &vec![10_000], "s1");
    let prompt = c.build_decision_prompt("User's name is \"Alice Smith\"", &candidates);
    assert!(prompt.contains(&format!("[id: {}]", id)));
    assert!(prompt.contains("User's name is Alice"));
    assert!(prompt.contains("(similarity: 1.00)"));
    assert!(prompt.contains("New fact: \"User's name is \\\"Alice Smith\\\"\""));
    assert!(prompt.starts_with("Memory management decision."));
    assert!(prompt.ends_with("Response:"));
}

#[test]
fn snapshot_and_restore_round_trip() {
    let mut store = VectorMemoryStore::new(8);
    let id1 = store.add("User rows on Sundays", 700, "s1", &vec![10_000, 0], 1);
    let id2 = store.add("User dislikes beets", 300, "s2", &vec![0, 10_000], 2);
    let snapshot = store.snapshot();
    let restored = VectorMemoryStore::try_restore(snapshot, 8).expect("a snapshot restores");
    let hits = restored.search(&vec![10_000i16, 0], 5, 0, "s1", 0);
    assert_eq!(hits.len(), 1);
    assert_eq!(hits[0].0.id, id1);
    assert_eq!(hits[0].0.content, "User rows on Sundays");
    // Ids issued after a restore stay fresh.
    let mut restored = restored;
    let id3 = restored.add("User collects stamps", 500, "s1", &vec![10_000, 0], 3);
    assert_ne!(id3, id1);
    assert_ne!(id3, id2);
}

#[test]
fn tampered_snapshots_are_rejected() {
    let mut store = VectorMemoryStore::new(8);
    store.add("User rows on Sundays", 700, "s1", &vec![10_000], 1);
    let mut items = store.snapshot();
    items[0].id = String::from("not-a-number");
    assert!(VectorMemoryStore::try_restore(items, 8).is_none());

    let mut items = store.snapshot();
    items[0].importance = 5000;
    assert!(VectorMemoryStore::try_restore(items, 8).is_none());

    let mut items = store.snapshot();
    let dup = items[0].duplicate();
    items.push(dup);
    assert!(VectorMemoryStore::try_restore(items, 8).is_none());
}

#[test]
fn negative_scores_still_respect_the_floor() {
    // Opposed embeddings score negatively; the floor keeps them out even at
    // a very low threshold.
    let mut store = VectorMemoryStore::new(8);
    store.add("opposed", 500, "s1", &vec![-10_000], 1);
    store.add("aligned", 500, "s1", &vec![10_000], 2);
    let hits = store.search(&vec![10_000i16], 5, i64::MIN, "s1", 0);
    assert_eq!(hits.len(), 1);
    assert_eq!(hits[0].0.content, "aligned");
    let all = store.search(&vec![10_000i16], 5, i64::MIN, "s1", i64::MIN);
    assert_eq!(all.len(), 2);
    assert_eq!(all[1].1, -SIM_ONE);
}

#[test]
fn noise_floor_filters_short_facts() {
    let c = consolidator();
    assert!(!c.worth_consolidating("  hi  "));
    assert!(c.worth_consolidating("User is a botanist"));
}
