//! Memory consolidation: reconcile each extracted fact against stored memory
//! with at most one store mutation, validating every model decision against
//! the candidate set that was actually retrieved.

use vstd::prelude::*;

use crate::json::DecisionFields;
use crate::sanitize::sanitize_content_spec;
use crate::sanitize::sanitize_storage_spec;
use crate::text::chars_of;
use crate::text::dec_spec;
use crate::text::format_u64;
use crate::text::join_spec;
use crate::text::join_with;
use crate::text::push_all;
use crate::text::seqs_of;
use crate::text::str_eq;
use crate::text::string_from;
use crate::text::to_upper;
use crate::text::trim_chars;
use crate::text::trim_spec;
use crate::text::upper_seq;
use crate::sanitize::sanitize_content;
use crate::vector_store::add_effect;
use crate::vector_store::first_match;
use crate::vector_store::search_hit;
use crate::vector_store::hit_count;
use crate::vector_store::MemoryItem;
use crate::vector_store::VectorMemoryStore;
use crate::vector_store::MAX_DIM;
use crate::vector_store::SIM_ONE;

verus! {

/// Minimum fixed-point score a consolidation candidate must reach: 0.3.
pub const CANDIDATE_FLOOR: i64 = 30_000_000;

/// How many near-duplicates are retrieved per fact.
pub const CANDIDATE_LIMIT: usize = 3;

/// Shortest fact (after trimming) that is worth consolidating.
pub const MIN_FACT_LEN: usize = 5;

/// The store mutation a consolidation decision asks for.
#[derive(Clone, Copy, PartialEq, Eq, Structural, Debug)]
pub enum Operation {
    Add,
    Update,
    Delete,
    Noop,
}

/// One consolidation decision, validated and ready to execute.
pub struct ConsolidationResult {
    pub operation: Operation,
    pub memory_id: Option<String>,
    pub old_content: Option<String>,
    pub new_content: Option<String>,
    /// Fixed-point similarity (scale `SIM_ONE`) of the decisive candidate.
    pub similarity: i64,
    pub reason: String,
}

/// The view of an optional text field.
pub open spec fn opt_view(o: Option<String>) -> Option<Seq<char>> {
    match o {
        Some(s) => Some(s@),
        None => None,
    }
}

/// The operation named by an (upper-cased) label; anything unrecognized is an
/// addition.
pub open spec fn op_of(label: Seq<char>) -> Operation {
    if label == "UPDATE"@ {
        Operation::Update
    } else if label == "DELETE"@ {
        Operation::Delete
    } else if label == "NOOP"@ {
        Operation::Noop
    } else {
        Operation::Add
    }
}

/// Index of the first candidate whose item has this id, or -1.
pub open spec fn cand_index(cands: Seq<(MemoryItem, i64)>, id: Seq<char>) -> int
    decreases cands.len(),
{
    if cands.len() == 0 {
        -1
    } else if cands[0].0.id@ == id {
        0
    } else {
        let r = cand_index(cands.drop_first(), id);
        if r < 0 {
            -1
        } else {
            r + 1
        }
    }
}

proof fn lemma_cand_index_found(cands: Seq<(MemoryItem, i64)>, id: Seq<char>, i: int)
    requires
        0 <= i < cands.len(),
        cands[i].0.id@ == id,
        forall|j: int| 0 <= j < i ==> (#[trigger] cands[j]).0.id@ != id,
    ensures
        cand_index(cands, id) == i,
    decreases i,
{
    if i > 0 {
        lemma_cand_index_found(cands.drop_first(), id, i - 1);
    }
}

proof fn lemma_cand_index_missing(cands: Seq<(MemoryItem, i64)>, id: Seq<char>)
    requires
        forall|j: int| 0 <= j < cands.len() ==> (#[trigger] cands[j]).0.id@ != id,
    ensures
        cand_index(cands, id) < 0,
    decreases cands.len(),
{
    if cands.len() > 0 {
        lemma_cand_index_missing(cands.drop_first(), id);
    }
}

/// The top similarity among the candidates, for audit; zero when there are
/// none.
pub open spec fn top_similarity(cands: Seq<(MemoryItem, i64)>) -> int {
    if cands.len() > 0 {
        cands[0].1 as int
    } else {
        0
    }
}

/// Some id of `ids` reads as `id`.
pub open spec fn has_id(ids: Seq<String>, id: Seq<char>) -> bool {
    exists|j: int| 0 <= j < ids.len() && (#[trigger] ids[j])@ == id
}

/// Whether `id` is among `ids`.
pub fn contains_id(ids: &Vec<String>, id: &str) -> (r: bool)
    ensures
        r == has_id(ids@, id@),
{
    let mut j: usize = 0;
    while j < ids.len()
        invariant
            0 <= j <= ids@.len(),
            forall|t: int| 0 <= t < j ==> (#[trigger] ids@[t])@ != id@,
        decreases ids@.len() - j,
    {
        if str_eq(ids[j].as_str(), id) {
            return true;
        }
        j += 1;
    }
    false
}

/// Decides consolidation operations against a configured model and candidate
/// threshold; the completion capability itself is supplied by the caller.
pub struct MemoryConsolidator {
    pub model: String,
    /// Fixed-point similarity (scale `SIM_ONE`) a stored item must reach to
    /// count as a near-duplicate candidate.
    pub candidate_threshold: i64,
}

impl MemoryConsolidator {
    pub fn new(model: String, candidate_threshold: i64) -> (r: MemoryConsolidator)
        ensures
            r.model == model,
            r.candidate_threshold == candidate_threshold,
    {
        MemoryConsolidator { model, candidate_threshold }
    }

    /// Whether a fact passes the noise floor.
    pub fn worth_consolidating(&self, fact: &str) -> (r: bool)
        ensures
            r == (trim_spec(fact@).len() >= MIN_FACT_LEN),
    {
        let t = trim_chars(&chars_of(fact));
        t.len() >= MIN_FACT_LEN
    }

    /// Retrieve up to `CANDIDATE_LIMIT` near-duplicates of a fact (given its
    /// embedding) in this namespace, at the configured threshold and floor.
    pub fn find_candidates(
        &self,
        store: &VectorMemoryStore,
        fact_embedding: &Vec<i16>,
        namespace: &str,
    ) -> (r: Vec<(MemoryItem, i64)>)
        requires
            store.wf(),
        ensures
            r@.len() <= CANDIDATE_LIMIT,
            r@.len() == vstd::math::min(
                CANDIDATE_LIMIT as int,
                hit_count(
                    store.items(),
                    fact_embedding@,
                    namespace@,
                    self.candidate_threshold as int,
                    CANDIDATE_FLOOR as int,
                    store.items().len() as int,
                ),
            ),
            forall|i: int| 0 <= i < r@.len() ==> (#[trigger] r@[i]).1 >= self.candidate_threshold,
            forall|i: int| 0 <= i < r@.len() ==> (#[trigger] r@[i]).1 >= CANDIDATE_FLOOR,
            forall|i: int, j: int| 0 <= i < j < r@.len() ==> r@[i].1 >= r@[j].1,
            forall|i: int|
                0 <= i < r@.len() ==> search_hit(
                    store.items(),
                    fact_embedding@,
                    namespace@,
                    self.candidate_threshold as int,
                    CANDIDATE_FLOOR as int,
                    #[trigger] r@[i],
                ),
    {
        store.search(
            fact_embedding,
            CANDIDATE_LIMIT,
            self.candidate_threshold,
            namespace,
            CANDIDATE_FLOOR,
        )
    }

    /// The ids of the retrieved candidates: the only ids a model decision may
    /// name.
    pub fn candidate_ids(&self, candidates: &Vec<(MemoryItem, i64)>) -> (r: Vec<String>)
        ensures
            r@.len() == candidates@.len(),
            forall|i: int| 0 <= i < r@.len() ==> (#[trigger] r@[i])@ == candidates@[i].0.id@,
    {
        let mut r: Vec<String> = Vec::new();
        let mut i: usize = 0;
        while i < candidates.len()
            invariant
                0 <= i <= candidates@.len(),
                r@.len() == i,
                forall|t: int| 0 <= t < i ==> (#[trigger] r@[t])@ == candidates@[t].0.id@,
            decreases candidates@.len() - i,
        {
            r.push(candidates[i].0.id.clone());
            i += 1;
        }
        r
    }

    /// The decision that needs no model call: with no candidates retrieved,
    /// the fact is new and is added.
    pub fn initial_decision(
        &self,
        fact: &str,
        candidates: &Vec<(MemoryItem, i64)>,
    ) -> (r: Option<ConsolidationResult>)
        ensures
            (r is Some) == (candidates@.len() == 0),
            candidates@.len() == 0 ==> ({
                let d = r->Some_0;
                &&& d.operation is Add
                &&& d.memory_id is None
                &&& d.old_content is None
                &&& opt_view(d.new_content) == Some(fact@)
                &&& d.similarity == 0
                &&& d.reason@ == "No similar memories found"@
            }),
    {
        if candidates.len() == 0 {
            Some(
                ConsolidationResult {
                    operation: Operation::Add,
                    memory_id: None,
                    old_content: None,
                    new_content: Some(fact.to_owned()),
                    similarity: 0,
                    reason: String::from_str("No similar memories found"),
                },
            )
        } else {
            None
        }
    }

    /// Turn a parsed model reply (or its absence, on transport or parse
    /// failure) into a validated decision.
    ///
    /// The critical invariant: an `Update` or `Delete` may only survive when
    /// the named `memory_id` belongs to the candidate set the model was
    /// shown; anything else is downgraded to `Add`.
    #[verifier::loop_isolation(false)]
    pub fn decide(
        &self,
        fact: &str,
        fields: Option<DecisionFields>,
        candidates: &Vec<(MemoryItem, i64)>,
    ) -> (r: ConsolidationResult)
        ensures
            (r.operation is Update || r.operation is Delete) ==> (r.memory_id is Some
                && cand_index(candidates@, opt_view(r.memory_id)->Some_0) >= 0),
            fields is None ==> ({
                &&& r.operation is Add
                &&& r.memory_id is None
                &&& r.old_content is None
                &&& opt_view(r.new_content) == Some(fact@)
                &&& r.similarity == 0
                &&& r.reason@ == "LLM failed"@
            }),
            fields is Some ==> ({
                let f = fields->Some_0;
                let base = op_of(upper_seq(f.operation@));
                let top = top_similarity(candidates@);
                let base_new: Option<Seq<char>> = if f.content is Some {
                    Some(f.content->Some_0@)
                } else {
                    Some(fact@)
                };
                let base_reason: Seq<char> = if f.reason is Some {
                    f.reason->Some_0@
                } else {
                    "LLM decision"@
                };
                if !(base is Update || base is Delete) {
                    &&& r.operation == base
                    &&& opt_view(r.memory_id) == opt_view(f.memory_id)
                    &&& r.old_content is None
                    &&& opt_view(r.new_content) == base_new
                    &&& r.similarity == top
                    &&& r.reason@ == base_reason
                } else if f.memory_id is None {
                    &&& r.operation is Add
                    &&& r.memory_id is None
                    &&& r.old_content is None
                    &&& opt_view(r.new_content) == base_new
                    &&& r.similarity == top
                    &&& r.reason@ == "Missing memory_id"@
                } else {
                    let m = cand_index(candidates@, f.memory_id->Some_0@);
                    if m >= 0 {
                        &&& r.operation == base
                        &&& opt_view(r.memory_id) == opt_view(f.memory_id)
                        &&& opt_view(r.old_content) == Some(candidates@[m].0.content@)
                        &&& opt_view(r.new_content) == base_new
                        &&& r.similarity == candidates@[m].1
                        &&& r.reason@ == base_reason
                    } else {
                        &&& r.operation is Add
                        &&& r.memory_id is None
                        &&& r.old_content is None
                        &&& opt_view(r.new_content) == base_new
                        &&& r.similarity == top
                        &&& r.reason@ == "Invalid memory_id"@
                    }
                }
            }),
    {
        let f = match fields {
            None => {
                return ConsolidationResult {
                    operation: Operation::Add,
                    memory_id: None,
                    old_content: None,
                    new_content: Some(fact.to_owned()),
                    similarity: 0,
                    reason: String::from_str("LLM failed"),
                };
            },
            Some(f) => f,
        };
        let upper = to_upper(&chars_of(f.operation.as_str()));
        let upd = chars_of("UPDATE");
        let del = chars_of("DELETE");
        let noop = chars_of("NOOP");
        let operation = if crate::text::chars_eq(&upper, &upd) {
            Operation::Update
        } else if crate::text::chars_eq(&upper, &del) {
            Operation::Delete
        } else if crate::text::chars_eq(&upper, &noop) {
            Operation::Noop
        } else {
            Operation::Add
        };
        let top: i64 = if candidates.len() > 0 {
            candidates[0].1
        } else {
            0
        };
        let new_content = match f.content {
            Some(c) => Some(c),
            None => Some(fact.to_owned()),
        };
        let reason = match f.reason {
            Some(x) => x,
            None => String::from_str("LLM decision"),
        };
        if matches!(operation, Operation::Update | Operation::Delete) {
            match f.memory_id {
                Some(mid) => {
                    let n = candidates.len();
                    let mut i: usize = 0;
                    while i < n
                        invariant
                            n == candidates@.len(),
                            0 <= i <= n,
                            forall|t: int|
                                0 <= t < i ==> (#[trigger] candidates@[t]).0.id@ != mid@,
                        decreases n - i,
                    {
                        if str_eq(candidates[i].0.id.as_str(), mid.as_str()) {
                            proof {
                                lemma_cand_index_found(candidates@, mid@, i as int);
                            }
                            return ConsolidationResult {
                                operation,
                                memory_id: Some(mid),
                                old_content: Some(candidates[i].0.content.clone()),
                                new_content,
                                similarity: candidates[i].1,
                                reason,
                            };
                        }
                        i += 1;
                    }
                    proof {
                        lemma_cand_index_missing(candidates@, mid@);
                    }
                    ConsolidationResult {
                        operation: Operation::Add,
                        memory_id: None,
                        old_content: None,
                        new_content,
                        similarity: top,
                        reason: String::from_str("Invalid memory_id"),
                    }
                },
                None => ConsolidationResult {
                    operation: Operation::Add,
                    memory_id: None,
                    old_content: None,
                    new_content,
                    similarity: top,
                    reason: String::from_str("Missing memory_id"),
                },
            }
        } else {
            ConsolidationResult {
                operation,
                memory_id: f.memory_id,
                old_content: None,
                new_content,
                similarity: top,
                reason,
            }
        }
    }

    /// Apply a validated decision: at most one store mutation, with the target
    /// id double-checked against the valid id set recorded at retrieval time.
    /// `embedding` is the embedding of `result.new_content`, used whenever
    /// that content is stored.
    pub fn execute_operation(
        &self,
        store: &mut VectorMemoryStore,
        result: &ConsolidationResult,
        namespace: &str,
        importance: u32,
        valid_ids: &Vec<String>,
        embedding: &Vec<i16>,
        now: u64,
    )
        requires
            old(store).wf(),
            old(store).fresh_ids_left(),
            importance <= crate::IMPORTANCE_ONE,
            embedding@.len() <= MAX_DIM,
        ensures
            final(store).wf(),
            final(store).capacity() == old(store).capacity(),
            result.operation is Noop ==> store_unchanged(*old(store), *final(store)),
            result.operation is Add ==> (if result.new_content is Some {
                add_effect(
                    old(store).items(),
                    old(store).next_key(),
                    old(store).capacity(),
                    *final(store),
                    result.new_content->Some_0@,
                    importance,
                    namespace@,
                    embedding@,
                    now,
                )
            } else {
                store_unchanged(*old(store), *final(store))
            }),
            result.operation is Update ==> (if result.memory_id is Some && result.new_content
                is Some {
                let id = result.memory_id->Some_0@;
                let content = result.new_content->Some_0@;
                if !has_id(valid_ids@, id) {
                    store_unchanged(*old(store), *final(store))
                } else {
                    let m = first_match(old(store).items(), id, namespace@);
                    if m >= 0 {
                        let prev = old(store).items()[m];
                        let ni = final(store).items()[m];
                        &&& final(store).items().len() == old(store).items().len()
                        &&& final(store).next_key() == old(store).next_key()
                        &&& forall|j: int|
                            0 <= j < old(store).items().len() && j != m ==> final(store).items()[j]
                                == old(store).items()[j]
                        &&& ni.id@ == prev.id@
                        &&& ni.content@ == sanitize_storage_spec(content)
                        &&& ni.embedding@ == embedding@
                        &&& ni.namespace@ == prev.namespace@
                        &&& ni.importance == importance
                        &&& ni.created_at == prev.created_at
                        &&& ni.updated_at == now
                    } else {
                        add_effect(
                            old(store).items(),
                            old(store).next_key(),
                            old(store).capacity(),
                            *final(store),
                            content,
                            importance,
                            namespace@,
                            embedding@,
                            now,
                        )
                    }
                }
            } else {
                store_unchanged(*old(store), *final(store))
            }),
            result.operation is Delete ==> (if result.memory_id is Some && !has_id(
                valid_ids@,
                result.memory_id->Some_0@,
            ) {
                store_unchanged(*old(store), *final(store))
            } else {
                let mid_items = if result.memory_id is Some {
                    let m = first_match(
                        old(store).items(),
                        result.memory_id->Some_0@,
                        namespace@,
                    );
                    if m >= 0 {
                        old(store).items().remove(m)
                    } else {
                        old(store).items()
                    }
                } else {
                    old(store).items()
                };
                let readd = result.new_content is Some && !(result.old_content is Some
                    && result.old_content->Some_0@ == result.new_content->Some_0@);
                if readd {
                    add_effect(
                        mid_items,
                        old(store).next_key(),
                        old(store).capacity(),
                        *final(store),
                        result.new_content->Some_0@,
                        importance,
                        namespace@,
                        embedding@,
                        now,
                    )
                } else {
                    final(store).items() == mid_items && final(store).next_key() == old(
                        store,
                    ).next_key()
                }
            }),
    {
        match result.operation {
            Operation::Noop => {},
            Operation::Add => {
                if let Some(content) = &result.new_content {
                    let _ = store.add(content.as_str(), importance, namespace, embedding, now);
                }
            },
            Operation::Update => {
                if result.memory_id.is_some() && result.new_content.is_some() {
                    let id = result.memory_id.as_ref().unwrap();
                    let content = result.new_content.as_ref().unwrap();
                    if !contains_id(valid_ids, id.as_str()) {
                        return ;
                    }
                    let updated = store.update(
                        id.as_str(),
                        content.as_str(),
                        importance,
                        namespace,
                        embedding,
                        now,
                    );
                    if updated.is_none() {
                        let _ = store.add(content.as_str(), importance, namespace, embedding, now);
                    }
                }
            },
            Operation::Delete => {
                if let Some(id) = &result.memory_id {
                    if !contains_id(valid_ids, id.as_str()) {
                        return ;
                    }
                    let _ = store.delete(id.as_str(), namespace);
                }
                if let Some(content) = &result.new_content {
                    if let Some(old_c) = &result.old_content {
                        if str_eq(content.as_str(), old_c.as_str()) {
                            return ;
                        }
                    }
                    let _ = store.add(content.as_str(), importance, namespace, embedding, now);
                }
            },
        }
    }

    /// Build the decision prompt: the numbered candidates (id, sanitized
    /// content, similarity) and the new fact, with the operation menu.
    pub fn build_decision_prompt(
        &self,
        fact: &str,
        candidates: &Vec<(MemoryItem, i64)>,
    ) -> (r: String)
        requires
            forall|i: int| 0 <= i < candidates@.len() ==> (#[trigger] candidates@[i]).1 >= 0,
        ensures
            r@ == decision_prompt_spec(fact@, candidates@),
    {
        let n = candidates.len();
        let mut lines: Vec<Vec<char>> = Vec::new();
        let mut i: usize = 0;
        proof {
            assert(seqs_of(lines@) + candidate_lines(candidates@, 0) =~= candidate_lines(
                candidates@,
                0,
            ));
        }
        while i < n
            invariant
                n == candidates@.len(),
                0 <= i <= n,
                forall|t: int| 0 <= t < n ==> (#[trigger] candidates@[t]).1 >= 0,
                candidate_lines(candidates@, 0) == seqs_of(lines@) + candidate_lines(
                    candidates@,
                    i as int,
                ),
            decreases n - i,
        {
            let c = &candidates[i];
            let mut line = format_u64((i + 1) as u64);
            push_all(&mut line, &chars_of(". [id: "));
            push_all(&mut line, &chars_of(c.0.id.as_str()));
            push_all(&mut line, &chars_of("] \""));
            push_all(&mut line, &chars_of(sanitize_content(c.0.content.as_str()).as_str()));
            push_all(&mut line, &chars_of("\" (similarity: "));
            push_all(&mut line, &sim2(c.1));
            push_all(&mut line, &chars_of(")"));
            let ghost pre = seqs_of(lines@);
            let ghost lv = line@;
            lines.push(line);
            proof {
                assert(lv =~= candidate_line(candidates@[i as int], i as int));
                assert(seqs_of(lines@) =~= pre.push(lv));
                assert(pre + (seq![candidate_line(candidates@[i as int], i as int)]
                    + candidate_lines(candidates@, i + 1)) =~= pre.push(lv) + candidate_lines(
                    candidates@,
                    i + 1,
                ));
            }
            i += 1;
        }
        proof {
            assert(candidate_lines(candidates@, n as int) =~= Seq::<Seq<char>>::empty());
            assert(seqs_of(lines@) + Seq::<Seq<char>>::empty() =~= seqs_of(lines@));
        }
        let joined = join_with(&lines, &chars_of("\n"));
        let mut out = chars_of("Memory management decision.\n\nExisting memories:\n");
        push_all(&mut out, &joined);
        push_all(&mut out, &chars_of("\n\nNew fact: \""));
        push_all(&mut out, &chars_of(sanitize_content(fact).as_str()));
        push_all(
            &mut out,
            &chars_of(
                "\"\n\nOperations:\n- ADD: Completely new information\n- UPDATE <id>: Update/replace existing (provide merged content)\n- DELETE <id>: Contradicts existing (provide new content)\n- NOOP: Already captured\n\nJSON format: {\"operation\": \"UPDATE\", \"memory_id\": \"abc123\", \"content\": \"merged\", \"reason\": \"...\"}\nFor ADD/NOOP, omit memory_id. For UPDATE, MUST provide merged content.\n\nResponse:",
            ),
        );
        assert(out@ =~= decision_prompt_spec(fact@, candidates@));
        string_from(&out)
    }
}

/// Nothing about the store changed.
pub open spec fn store_unchanged(pre: VectorMemoryStore, post: VectorMemoryStore) -> bool {
    &&& post.items() == pre.items()
    &&& post.next_key() == pre.next_key()
    &&& post.capacity() == pre.capacity()
}

/// A similarity score rendered with two decimals, as shown to the model
/// ("0.87" for 0.87 of `SIM_ONE`).
pub open spec fn sim2_spec(s: int) -> Seq<char> {
    let h = s / 1000000;
    dec_spec(h / 100) + "."@ + (if h % 100 < 10 {
        "0"@ + dec_spec(h % 100)
    } else {
        dec_spec(h % 100)
    })
}

fn sim2(s: i64) -> (r: Vec<char>)
    requires
        s >= 0,
    ensures
        r@ == sim2_spec(s as int),
{
    let h = s / 1_000_000;
    let whole = (h / 100) as u64;
    let frac = (h % 100) as u64;
    let mut r = format_u64(whole);
    push_all(&mut r, &chars_of("."));
    if frac < 10 {
        push_all(&mut r, &chars_of("0"));
    }
    push_all(&mut r, &format_u64(frac));
    assert(r@ =~= sim2_spec(s as int));
    r
}

/// One numbered candidate line shown to the model.
pub open spec fn candidate_line(c: (MemoryItem, i64), i: int) -> Seq<char> {
    dec_spec(i + 1) + ". [id: "@ + c.0.id@ + "] \""@ + sanitize_content_spec(c.0.content@)
        + "\" (similarity: "@ + sim2_spec(c.1 as int) + ")"@
}

/// The numbered candidate lines from index `i` on.
pub open spec fn candidate_lines(cands: Seq<(MemoryItem, i64)>, i: int) -> Seq<Seq<char>>
    decreases cands.len() - i,
    when 0 <= i <= cands.len()
{
    if i >= cands.len() {
        Seq::empty()
    } else {
        seq![candidate_line(cands[i], i)] + candidate_lines(cands, i + 1)
    }
}

/// The whole decision prompt.
pub open spec fn decision_prompt_spec(fact: Seq<char>, cands: Seq<(MemoryItem, i64)>) -> Seq<
    char,
> {
    "Memory management decision.\n\nExisting memories:\n"@ + join_spec(
        candidate_lines(cands, 0),
        "\n"@,
    ) + "\n\nNew fact: \""@ + sanitize_content_spec(fact)
        + "\"\n\nOperations:\n- ADD: Completely new information\n- UPDATE <id>: Update/replace existing (provide merged content)\n- DELETE <id>: Contradicts existing (provide new content)\n- NOOP: Already captured\n\nJSON format: {\"operation\": \"UPDATE\", \"memory_id\": \"abc123\", \"content\": \"merged\", \"reason\": \"...\"}\nFor ADD/NOOP, omit memory_id. For UPDATE, MUST provide merged content.\n\nResponse:"@
}

} // verus!
