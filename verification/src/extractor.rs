//! Fact extraction from conversation transcripts: a gated, structured model
//! path with a deterministic keyword/pattern fallback.

use vstd::prelude::*;

use crate::chat::ChatMessage;
use crate::chat::user_count_spec;
use crate::sanitize::conversation_spec;
use crate::text::chars_of;
use crate::text::chars_eq;
use crate::text::contains_sub;
use crate::text::lines_spec;
use crate::text::lower_seq;
use crate::text::min_int;
use crate::text::seqs_of;
use crate::text::split_lines;
use crate::text::string_from;
use crate::text::take_chars;
use crate::text::to_lower;
use crate::text::trim_chars;
use crate::text::trim_spec;
use crate::text::has_sub;

verus! {

/// The keyword family that marks a line as a durable fact.
pub open spec fn fact_keywords() -> Seq<Seq<char>> {
    seq![
        "my name is"@,
        "i am"@,
        "i'm"@,
        "i work"@,
        "i live"@,
        "i prefer"@,
        "remember that"@,
        "note that"@,
        "important:"@,
        "email:"@,
        "phone:"@,
        "address:"@,
        "birthday:"@,
        "project uses"@,
        "using"@,
        "configured to"@,
    ]
}

/// A trimmed line qualifies as a fact when it is long enough and holds one of
/// the keywords, matched case-insensitively.
pub open spec fn line_is_fact(line: Seq<char>) -> bool {
    let t = trim_spec(line);
    t.len() >= 10 && exists|k: int|
        0 <= k < fact_keywords().len() && has_sub(lower_seq(t), #[trigger] fact_keywords()[k])
}

/// The fact a qualifying line yields: the trimmed line, capped at 200
/// characters.
pub open spec fn line_fact_text(line: Seq<char>) -> Seq<char> {
    let t = trim_spec(line);
    t.take(min_int(200, t.len() as int))
}

/// The facts of the lines of one message from index `j` on, in order, not yet
/// deduplicated.
pub open spec fn kw_raw_lines(lines: Seq<Seq<char>>, j: int) -> Seq<Seq<char>>
    decreases lines.len() - j,
    when 0 <= j <= lines.len()
{
    if j >= lines.len() {
        Seq::empty()
    } else {
        (if line_is_fact(lines[j]) {
            seq![line_fact_text(lines[j])]
        } else {
            Seq::empty()
        }) + kw_raw_lines(lines, j + 1)
    }
}

/// The facts of all non-system messages from index `i` on, in order, not yet
/// deduplicated.
pub open spec fn kw_raw_msgs(ms: Seq<ChatMessage>, i: int) -> Seq<Seq<char>>
    decreases ms.len() - i,
    when 0 <= i <= ms.len()
{
    if i >= ms.len() {
        Seq::empty()
    } else {
        (if !ms[i].is_system() {
            kw_raw_lines(lines_spec(ms[i].content@), 0)
        } else {
            Seq::empty()
        }) + kw_raw_msgs(ms, i + 1)
    }
}

/// `t` occurs among `seen`.
pub open spec fn text_in(seen: Seq<Seq<char>>, t: Seq<char>) -> bool {
    exists|i: int| 0 <= i < seen.len() && seen[i] == t
}

/// The tail of a first-occurrence deduplication: elements of `s` from `i` on
/// that are neither in `seen` nor repeated.
pub open spec fn dedup_from(s: Seq<Seq<char>>, i: int, seen: Seq<Seq<char>>) -> Seq<Seq<char>>
    decreases s.len() - i,
    when 0 <= i <= s.len()
{
    if i >= s.len() {
        Seq::empty()
    } else if text_in(seen, s[i]) {
        dedup_from(s, i + 1, seen)
    } else {
        seq![s[i]] + dedup_from(s, i + 1, seen.push(s[i]))
    }
}

/// `s` with every repeated text removed, first occurrences kept in order.
pub open spec fn dedup_texts(s: Seq<Seq<char>>) -> Seq<Seq<char>> {
    dedup_from(s, 0, Seq::empty())
}

/// The views of a vector of strings.
pub open spec fn string_views(v: Seq<String>) -> Seq<Seq<char>> {
    v.map_values(|s: String| s@)
}

/// Whether `t` is among the texts of `seen`.
fn contains_text(seen: &Vec<Vec<char>>, t: &Vec<char>) -> (r: bool)
    ensures
        r == text_in(seqs_of(seen@), t@),
{
    let mut i: usize = 0;
    while i < seen.len()
        invariant
            0 <= i <= seen@.len(),
            forall|j: int| 0 <= j < i ==> seqs_of(seen@)[j] != t@,
        decreases seen@.len() - i,
    {
        if chars_eq(&seen[i], t) {
            assert(seqs_of(seen@)[i as int] == t@);
            return true;
        }
        i += 1;
    }
    false
}

/// First-occurrence deduplication of a list of texts.
#[verifier::loop_isolation(false)]
pub fn dedup_text_vec(s: &Vec<Vec<char>>) -> (r: Vec<Vec<char>>)
    ensures
        seqs_of(r@) == dedup_texts(seqs_of(s@)),
{
    let ghost sv = seqs_of(s@);
    let mut out: Vec<Vec<char>> = Vec::new();
    let mut i: usize = 0;
    proof {
        assert(seqs_of(out@) =~= Seq::<Seq<char>>::empty());
        assert(seqs_of(out@) + dedup_from(sv, 0, seqs_of(out@)) =~= dedup_texts(sv));
    }
    while i < s.len()
        invariant
            0 <= i <= s@.len(),
            dedup_texts(sv) == seqs_of(out@) + dedup_from(sv, i as int, seqs_of(out@)),
        decreases s@.len() - i,
    {
        let ghost pre = seqs_of(out@);
        let cur = &s[i];
        assert(cur@ == sv[i as int]);
        if !contains_text(&out, cur) {
            let copied = crate::text::slice_range(cur, 0, cur.len());
            assert(copied@ =~= cur@);
            out.push(copied);
            proof {
                assert(seqs_of(out@) =~= pre.push(sv[i as int]));
                assert(pre + (seq![sv[i as int]] + dedup_from(sv, i + 1, pre.push(sv[i as int])))
                    =~= pre.push(sv[i as int]) + dedup_from(sv, i + 1, pre.push(sv[i as int])));
            }
        }
        i += 1;
    }
    assert(dedup_from(sv, sv.len() as int, seqs_of(out@)) =~= Seq::<Seq<char>>::empty());
    assert(seqs_of(out@) + Seq::<Seq<char>>::empty() =~= seqs_of(out@));
    out
}

/// The facts of the lines of one message, in order.
#[verifier::loop_isolation(false)]
fn message_line_facts(content: &str) -> (r: Vec<Vec<char>>)
    ensures
        seqs_of(r@) == kw_raw_lines(lines_spec(content@), 0),
{
    let cs = chars_of(content);
    let lines = split_lines(&cs);
    let ghost lv = seqs_of(lines@);
    let mut out: Vec<Vec<char>> = Vec::new();
    let mut j: usize = 0;
    proof {
        assert(seqs_of(out@) + kw_raw_lines(lv, 0) =~= kw_raw_lines(lv, 0));
    }
    while j < lines.len()
        invariant
            0 <= j <= lines@.len(),
            kw_raw_lines(lv, 0) == seqs_of(out@) + kw_raw_lines(lv, j as int),
        decreases lines@.len() - j,
    {
        let line = &lines[j];
        assert(line@ == lv[j as int]);
        let t = trim_chars(line);
        let mut is_fact = false;
        if t.len() >= 10 {
            let lt = to_lower(&t);
            let kws = keyword_vecs();
            let mut k: usize = 0;
            while k < kws.len()
                invariant
                    seqs_of(kws@) == fact_keywords(),
                    0 <= k <= kws@.len(),
                    lt@ == lower_seq(trim_spec(lv[j as int])),
                    t@ == trim_spec(lv[j as int]),
                    t@.len() >= 10,
                    is_fact ==> line_is_fact(lv[j as int]),
                    !is_fact ==> forall|w: int|
                        0 <= w < k ==> !has_sub(lt@, #[trigger] fact_keywords()[w]),
                decreases kws@.len() - k,
            {
                if !is_fact && contains_sub(&lt, &kws[k]) {
                    assert(fact_keywords()[k as int] == seqs_of(kws@)[k as int]);
                    is_fact = true;
                }
                k += 1;
            }
        }
        let ghost pre = seqs_of(out@);
        if is_fact {
            let fact = take_chars(&t, 200);
            assert(fact@ == line_fact_text(lv[j as int]));
            let ghost fv = fact@;
            out.push(fact);
            proof {
                assert(seqs_of(out@) =~= pre.push(fv));
                assert(pre + (seq![line_fact_text(lv[j as int])] + kw_raw_lines(lv, j + 1))
                    =~= pre.push(fv) + kw_raw_lines(lv, j + 1));
            }
        } else {
            proof {
                assert(!line_is_fact(lv[j as int]));
            }
        }
        j += 1;
    }
    assert(kw_raw_lines(lv, lv.len() as int) =~= Seq::<Seq<char>>::empty());
    assert(seqs_of(out@) + Seq::<Seq<char>>::empty() =~= seqs_of(out@));
    out
}

/// The keyword family as executable character vectors.
fn keyword_vecs() -> (r: Vec<Vec<char>>)
    ensures
        seqs_of(r@) == fact_keywords(),
{
    let mut r: Vec<Vec<char>> = Vec::new();
    r.push(chars_of("my name is"));
    r.push(chars_of("i am"));
    r.push(chars_of("i'm"));
    r.push(chars_of("i work"));
    r.push(chars_of("i live"));
    r.push(chars_of("i prefer"));
    r.push(chars_of("remember that"));
    r.push(chars_of("note that"));
    r.push(chars_of("important:"));
    r.push(chars_of("email:"));
    r.push(chars_of("phone:"));
    r.push(chars_of("address:"));
    r.push(chars_of("birthday:"));
    r.push(chars_of("project uses"));
    r.push(chars_of("using"));
    r.push(chars_of("configured to"));
    assert(seqs_of(r@) =~= fact_keywords());
    r
}

/// Lightweight keyword scan over a transcript: the qualifying lines of all
/// non-system messages, deduplicated, capped at `max_facts`.
#[verifier::loop_isolation(false)]
pub fn extract_facts_from_messages(messages: &Vec<ChatMessage>, max_facts: usize) -> (r: Vec<
    String,
>)
    ensures
        ({
            let all = dedup_texts(kw_raw_msgs(messages@, 0));
            string_views(r@) == all.take(min_int(max_facts as int, all.len() as int))
        }),
{
    let mut raw: Vec<Vec<char>> = Vec::new();
    let mut i: usize = 0;
    proof {
        assert(seqs_of(raw@) + kw_raw_msgs(messages@, 0) =~= kw_raw_msgs(messages@, 0));
    }
    while i < messages.len()
        invariant
            0 <= i <= messages@.len(),
            kw_raw_msgs(messages@, 0) == seqs_of(raw@) + kw_raw_msgs(messages@, i as int),
        decreases messages@.len() - i,
    {
        let m = &messages[i];
        let ghost pre = seqs_of(raw@);
        if !m.system_role() {
            let mut facts = message_line_facts(m.content.as_str());
            let ghost fv = seqs_of(facts@);
            let mut t: usize = 0;
            while t < facts.len()
                invariant
                    0 <= t <= facts@.len(),
                    seqs_of(facts@) == fv,
                    seqs_of(raw@) == pre + fv.take(t as int),
                decreases facts@.len() - t,
            {
                let ghost rp = seqs_of(raw@);
                let piece = crate::text::slice_range(&facts[t], 0, facts[t].len());
                assert(piece@ =~= fv[t as int]);
                raw.push(piece);
                proof {
                    assert(seqs_of(raw@) =~= rp.push(fv[t as int]));
                    assert(rp.push(fv[t as int]) =~= pre + fv.take(t + 1));
                }
                t += 1;
            }
            proof {
                assert(fv.take(fv.len() as int) =~= fv);
            }
        }
        i += 1;
    }
    assert(kw_raw_msgs(messages@, messages@.len() as int) =~= Seq::<Seq<char>>::empty());
    assert(seqs_of(raw@) + Seq::<Seq<char>>::empty() =~= seqs_of(raw@));
    let deduped = dedup_text_vec(&raw);
    let ghost all = dedup_texts(kw_raw_msgs(messages@, 0));
    let mut r: Vec<String> = Vec::new();
    let mut t: usize = 0;
    let keep = if max_facts < deduped.len() {
        max_facts
    } else {
        deduped.len()
    };
    while t < keep
        invariant
            0 <= t <= keep,
            keep == min_int(max_facts as int, all.len() as int),
            seqs_of(deduped@) == all,
            string_views(r@) == all.take(t as int),
        decreases keep - t,
    {
        let ghost pre = string_views(r@);
        let s = string_from(&deduped[t]);
        let ghost sv = s@;
        r.push(s);
        proof {
            assert(string_views(r@) =~= pre.push(sv));
            assert(pre.push(sv) =~= all.take(t + 1));
        }
        t += 1;
    }
    assert(string_views(r@) =~= all.take(min_int(max_facts as int, all.len() as int)));
    r
}

/// An extracted candidate fact: content, an importance weight in [0, 1000],
/// and a provenance tag ("llm" or "heuristic") used only for diagnostics.
pub struct ExtractedFact {
    pub content: String,
    pub importance: u32,
    pub source: String,
}

impl ExtractedFact {
    /// A copy whose view equals this fact's view.
    pub fn duplicate(&self) -> (r: ExtractedFact)
        ensures
            fact_view(r) == fact_view(*self),
    {
        ExtractedFact {
            content: self.content.clone(),
            importance: self.importance,
            source: self.source.clone(),
        }
    }
}

/// The mathematical image of an extracted fact.
pub ghost struct FactView {
    pub content: Seq<char>,
    pub importance: u32,
    pub source: Seq<char>,
}

pub open spec fn fact_view(f: ExtractedFact) -> FactView {
    FactView { content: f.content@, importance: f.importance, source: f.source@ }
}

pub open spec fn fact_views(s: Seq<ExtractedFact>) -> Seq<FactView> {
    s.map_values(|f: ExtractedFact| fact_view(f))
}

/// The importance label fall-back used when a fact object carries none.
pub fn default_importance() -> (r: String)
    ensures
        r@ == "medium"@,
{
    String::from_str("medium")
}

/// The fixed numeric weight of an importance label.
pub open spec fn weight_spec(label: Seq<char>) -> u32 {
    if label == "high"@ {
        900
    } else if label == "low"@ {
        300
    } else {
        700
    }
}

/// Map an importance label to its fixed weight (high 0.9, low 0.3, else 0.7,
/// in per-mille).
pub fn importance_weight(label: &str) -> (r: u32)
    ensures
        r == weight_spec(label@),
        r <= 1000,
{
    let l = chars_of(label);
    if chars_eq(&l, &chars_of("high")) {
        900
    } else if chars_eq(&l, &chars_of("low")) {
        300
    } else {
        700
    }
}

/// The ordered first-person to third-person rewrite applied to heuristic
/// facts, followed by collapsing a doubled "User User".
pub open spec fn third_person_spec(t: Seq<char>) -> Seq<char> {
    let t = crate::text::word_replace_spec(t, "my"@, "User's"@);
    let t = crate::text::word_replace_spec(t, "i am"@, "User is"@);
    let t = crate::text::word_replace_spec(t, "i'm"@, "User is"@);
    let t = crate::text::word_replace_spec(t, "i have"@, "User has"@);
    let t = crate::text::word_replace_spec(t, "i've"@, "User has"@);
    let t = crate::text::word_replace_spec(t, "i will"@, "User will"@);
    let t = crate::text::word_replace_spec(t, "i'll"@, "User will"@);
    let t = crate::text::word_replace_spec(t, "i"@, "User"@);
    crate::text::replace_spec(t, "User User"@, "User"@)
}

/// Rewrite first-person phrasing to third person, whole words only.
fn third_person_chars(t: &Vec<char>) -> (r: Vec<char>)
    ensures
        r@ == third_person_spec(t@),
{
    proof {
        reveal_strlit("my");
        reveal_strlit("i am");
        reveal_strlit("i'm");
        reveal_strlit("i have");
        reveal_strlit("i've");
        reveal_strlit("i will");
        reveal_strlit("i'll");
        reveal_strlit("i");
        reveal_strlit("User User");
    }
    let t = crate::text::word_replace_all(t, &chars_of("my"), &chars_of("User's"));
    let t = crate::text::word_replace_all(&t, &chars_of("i am"), &chars_of("User is"));
    let t = crate::text::word_replace_all(&t, &chars_of("i'm"), &chars_of("User is"));
    let t = crate::text::word_replace_all(&t, &chars_of("i have"), &chars_of("User has"));
    let t = crate::text::word_replace_all(&t, &chars_of("i've"), &chars_of("User has"));
    let t = crate::text::word_replace_all(&t, &chars_of("i will"), &chars_of("User will"));
    let t = crate::text::word_replace_all(&t, &chars_of("i'll"), &chars_of("User will"));
    let t = crate::text::word_replace_all(&t, &chars_of("i"), &chars_of("User"));
    crate::text::replace_all(&t, &chars_of("User User"), &chars_of("User"))
}

/// Rewrite first-person phrasing to third person.
pub fn to_third_person(text: &str) -> (r: String)
    ensures
        r@ == third_person_spec(text@),
{
    string_from(&third_person_chars(&chars_of(text)))
}

/// The first-person indicator patterns of the heuristic fallback, each with
/// its fixed importance weight (per-mille).
pub open spec fn heuristic_patterns() -> Seq<(Seq<char>, u32)> {
    seq![
        ("my name is"@, 900u32),
        ("i am a"@, 700u32),
        ("i work"@, 800u32),
        ("i live"@, 800u32),
        ("i prefer"@, 700u32),
        ("i like"@, 600u32),
        ("i use"@, 600u32),
        ("call me"@, 800u32),
    ]
}

pub open spec fn pat_views(v: Seq<(Vec<char>, u32)>) -> Seq<(Seq<char>, u32)> {
    v.map_values(|p: (Vec<char>, u32)| (p.0@, p.1))
}

fn heuristic_pattern_vecs() -> (r: Vec<(Vec<char>, u32)>)
    ensures
        pat_views(r@) == heuristic_patterns(),
{
    let mut r: Vec<(Vec<char>, u32)> = Vec::new();
    r.push((chars_of("my name is"), 900));
    r.push((chars_of("i am a"), 700));
    r.push((chars_of("i work"), 800));
    r.push((chars_of("i live"), 800));
    r.push((chars_of("i prefer"), 700));
    r.push((chars_of("i like"), 600));
    r.push((chars_of("i use"), 600));
    r.push((chars_of("call me"), 800));
    assert(pat_views(r@) =~= heuristic_patterns());
    r
}

/// Where the clause that starts at `start` ends: at the first period after
/// it, else the first exclamation mark, else the first question mark, else
/// the first newline, else the end of the text.
pub open spec fn clause_end(low: Seq<char>, start: int) -> int {
    let rest = low.skip(start);
    let pd = crate::text::first_index_of(rest, '.');
    let pb = crate::text::first_index_of(rest, '!');
    let pq = crate::text::first_index_of(rest, '?');
    let pn = crate::text::first_index_of(rest, '\n');
    start + (if pd >= 0 {
        pd
    } else if pb >= 0 {
        pb
    } else if pq >= 0 {
        pq
    } else if pn >= 0 {
        pn
    } else {
        rest.len() as int
    })
}

/// The fact one indicator pattern yields from one lowercased user message:
/// the clause from the first occurrence of the pattern to the next sentence
/// boundary, rewritten to third person and capitalized, when it is long
/// enough.
pub open spec fn pattern_fact(low: Seq<char>, pat: Seq<char>, imp: u32) -> Option<FactView> {
    let start = crate::text::find_from_spec(low, pat, 0);
    if start < 0 {
        None
    } else {
        let ft = trim_spec(low.subrange(start, clause_end(low, start)));
        if ft.len() > 5 {
            Some(
                FactView {
                    content: crate::text::capitalize_spec(third_person_spec(ft)),
                    importance: imp,
                    source: "heuristic"@,
                },
            )
        } else {
            None
        }
    }
}

/// The facts the patterns from index `k` on yield from one lowercased
/// message, in declared order, not yet deduplicated.
pub open spec fn h_raw_pats(low: Seq<char>, k: int) -> Seq<FactView>
    decreases heuristic_patterns().len() - k,
    when 0 <= k <= heuristic_patterns().len()
{
    if k >= heuristic_patterns().len() {
        Seq::empty()
    } else {
        (match pattern_fact(low, heuristic_patterns()[k].0, heuristic_patterns()[k].1) {
            Some(f) => seq![f],
            None => Seq::empty(),
        }) + h_raw_pats(low, k + 1)
    }
}

/// The facts of all user messages from index `i` on, not yet deduplicated.
pub open spec fn h_raw_msgs(ms: Seq<ChatMessage>, i: int) -> Seq<FactView>
    decreases ms.len() - i,
    when 0 <= i <= ms.len()
{
    if i >= ms.len() {
        Seq::empty()
    } else {
        (if ms[i].is_user() {
            h_raw_pats(lower_seq(ms[i].content@), 0)
        } else {
            Seq::empty()
        }) + h_raw_msgs(ms, i + 1)
    }
}

/// The tail of a first-occurrence deduplication of facts, keyed on content.
pub open spec fn dedup_facts_from(s: Seq<FactView>, i: int, seen: Seq<Seq<char>>) -> Seq<
    FactView,
>
    decreases s.len() - i,
    when 0 <= i <= s.len()
{
    if i >= s.len() {
        Seq::empty()
    } else if text_in(seen, s[i].content) {
        dedup_facts_from(s, i + 1, seen)
    } else {
        seq![s[i]] + dedup_facts_from(s, i + 1, seen.push(s[i].content))
    }
}

/// What the deterministic fallback extracts from a transcript.
pub open spec fn heuristic_views(ms: Seq<ChatMessage>) -> Seq<FactView> {
    dedup_facts_from(h_raw_msgs(ms, 0), 0, Seq::empty())
}

/// The facts the indicator patterns yield from one message, in order.
#[verifier::loop_isolation(false)]
fn message_heuristic_facts(content: &str) -> (r: Vec<ExtractedFact>)
    ensures
        fact_views(r@) == h_raw_pats(lower_seq(content@), 0),
{
    let low = to_lower(&chars_of(content));
    let ghost lv = lower_seq(content@);
    let pats = heuristic_pattern_vecs();
    let mut out: Vec<ExtractedFact> = Vec::new();
    let mut k: usize = 0;
    proof {
        assert(fact_views(out@) + h_raw_pats(lv, 0) =~= h_raw_pats(lv, 0));
    }
    while k < pats.len()
        invariant
            low@ == lv,
            pat_views(pats@) == heuristic_patterns(),
            pats@.len() == heuristic_patterns().len(),
            0 <= k <= pats@.len(),
            h_raw_pats(lv, 0) == fact_views(out@) + h_raw_pats(lv, k as int),
        decreases pats@.len() - k,
    {
        let ghost pat = heuristic_patterns()[k as int].0;
        let ghost imp = heuristic_patterns()[k as int].1;
        assert(pats@[k as int].0@ == pat && pats@[k as int].1 == imp);
        let ghost pre = fact_views(out@);
        match crate::text::find_sub(&low, &pats[k].0) {
            None => {
                proof {
                    crate::text::lemma_find_from_missing(lv, pat, 0);
                    assert(pattern_fact(lv, pat, imp) is None);
                }
            },
            Some(start) => {
                proof {
                    crate::text::lemma_find_from_found(lv, pat, 0, start as int);
                }
                let end = clause_end_exec(&low, start);
                let ft = trim_chars(&crate::text::slice_range(&low, start, end));
                if ft.len() > 5 {
                    let tp = third_person_chars(&ft);
                    let cap = crate::text::capitalize_first(&tp);
                    let fact = ExtractedFact {
                        content: string_from(&cap),
                        importance: pats[k].1,
                        source: String::from_str("heuristic"),
                    };
                    let ghost fv = fact_view(fact);
                    out.push(fact);
                    proof {
                        assert(pattern_fact(lv, pat, imp) == Some(fv));
                        assert(fact_views(out@) =~= pre.push(fv));
                        assert(pre + (seq![fv] + h_raw_pats(lv, k + 1)) =~= pre.push(fv)
                            + h_raw_pats(lv, k + 1));
                    }
                } else {
                    proof {
                        assert(pattern_fact(lv, pat, imp) is None);
                    }
                }
            },
        }
        k += 1;
    }
    assert(h_raw_pats(lv, heuristic_patterns().len() as int) =~= Seq::<FactView>::empty());
    assert(fact_views(out@) + Seq::<FactView>::empty() =~= fact_views(out@));
    out
}

/// End of the clause that starts at `start`.
fn clause_end_exec(low: &Vec<char>, start: usize) -> (r: usize)
    requires
        start <= low@.len(),
    ensures
        r == clause_end(low@, start as int),
        start <= r <= low@.len(),
{
    let ghost rest = low@.skip(start as int);
    if let Some(p) = crate::text::find_char_from(low, '.', start) {
        proof {
            crate::text::lemma_first_index_found(rest, '.', p - start);
        }
        return p;
    }
    proof {
        crate::text::lemma_first_index_missing(rest, '.');
    }
    if let Some(p) = crate::text::find_char_from(low, '!', start) {
        proof {
            crate::text::lemma_first_index_found(rest, '!', p - start);
        }
        return p;
    }
    proof {
        crate::text::lemma_first_index_missing(rest, '!');
    }
    if let Some(p) = crate::text::find_char_from(low, '?', start) {
        proof {
            crate::text::lemma_first_index_found(rest, '?', p - start);
        }
        return p;
    }
    proof {
        crate::text::lemma_first_index_missing(rest, '?');
    }
    if let Some(p) = crate::text::find_char_from(low, '\n', start) {
        proof {
            crate::text::lemma_first_index_found(rest, '\n', p - start);
        }
        return p;
    }
    proof {
        crate::text::lemma_first_index_missing(rest, '\n');
    }
    low.len()
}

/// Deterministic pattern-bound extraction over user-authored turns: the
/// conservative fallback used when the model path fails.
#[verifier::loop_isolation(false)]
pub fn heuristic_extract(messages: &Vec<ChatMessage>) -> (r: Vec<ExtractedFact>)
    ensures
        fact_views(r@) == heuristic_views(messages@),
{
    let mut raw: Vec<ExtractedFact> = Vec::new();
    let mut i: usize = 0;
    proof {
        assert(fact_views(raw@) + h_raw_msgs(messages@, 0) =~= h_raw_msgs(messages@, 0));
    }
    while i < messages.len()
        invariant
            0 <= i <= messages@.len(),
            h_raw_msgs(messages@, 0) == fact_views(raw@) + h_raw_msgs(messages@, i as int),
        decreases messages@.len() - i,
    {
        let m = &messages[i];
        let ghost pre = fact_views(raw@);
        if m.user_role() {
            let mut facts = message_heuristic_facts(m.content.as_str());
            let ghost fv = fact_views(facts@);
            let mut t: usize = 0;
            while t < facts.len()
                invariant
                    0 <= t <= facts@.len(),
                    fact_views(facts@) == fv,
                    fact_views(raw@) == pre + fv.take(t as int),
                decreases facts@.len() - t,
            {
                let ghost rp = fact_views(raw@);
                let piece = facts[t].duplicate();
                assert(fact_view(piece) == fv[t as int]);
                raw.push(piece);
                proof {
                    assert(fact_views(raw@) =~= rp.push(fv[t as int]));
                    assert(rp.push(fv[t as int]) =~= pre + fv.take(t + 1));
                }
                t += 1;
            }
            proof {
                assert(fv.take(fv.len() as int) =~= fv);
            }
        }
        i += 1;
    }
    assert(h_raw_msgs(messages@, messages@.len() as int) =~= Seq::<FactView>::empty());
    assert(fact_views(raw@) + Seq::<FactView>::empty() =~= fact_views(raw@));

    let ghost rawv = fact_views(raw@);
    let mut out: Vec<ExtractedFact> = Vec::new();
    let mut seen: Vec<Vec<char>> = Vec::new();
    let mut i2: usize = 0;
    proof {
        assert(seqs_of(seen@) =~= Seq::<Seq<char>>::empty());
        assert(fact_views(out@) + dedup_facts_from(rawv, 0, seqs_of(seen@)) =~= heuristic_views(
            messages@,
        ));
    }
    while i2 < raw.len()
        invariant
            0 <= i2 <= raw@.len(),
            fact_views(raw@) == rawv,
            heuristic_views(messages@) == fact_views(out@) + dedup_facts_from(
                rawv,
                i2 as int,
                seqs_of(seen@),
            ),
        decreases raw@.len() - i2,
    {
        let cur = &raw[i2];
        let content_chars = chars_of(cur.content.as_str());
        assert(content_chars@ == rawv[i2 as int].content);
        if !contains_text(&seen, &content_chars) {
            let ghost po = fact_views(out@);
            let ghost ps = seqs_of(seen@);
            let piece = cur.duplicate();
            out.push(piece);
            seen.push(content_chars);
            proof {
                assert(fact_views(out@) =~= po.push(rawv[i2 as int]));
                assert(seqs_of(seen@) =~= ps.push(rawv[i2 as int].content));
                assert(po + (seq![rawv[i2 as int]] + dedup_facts_from(
                    rawv,
                    i2 + 1,
                    ps.push(rawv[i2 as int].content),
                )) =~= po.push(rawv[i2 as int]) + dedup_facts_from(
                    rawv,
                    i2 + 1,
                    ps.push(rawv[i2 as int].content),
                ));
            }
        }
        i2 += 1;
    }
    assert(dedup_facts_from(rawv, rawv.len() as int, seqs_of(seen@)) =~= Seq::<FactView>::empty());
    assert(fact_views(out@) + Seq::<FactView>::empty() =~= fact_views(out@));
    out
}

/// The trivial-acknowledgement vocabulary.
pub open spec fn trivial_words() -> Seq<Seq<char>> {
    seq![
        "ok"@,
        "okay"@,
        "yes"@,
        "no"@,
        "thanks"@,
        "sure"@,
        "got it"@,
        "cool"@,
        "nice"@,
        "great"@,
        "hmm"@,
        "ah"@,
        "oh"@,
        "lol"@,
        "yep"@,
        "yeah"@,
    ]
}

/// A trivial acknowledgement: one of the listed words, matched
/// case-insensitively, with at most one trailing `.`, `!` or `?`.
pub open spec fn is_trivial_ack(t: Seq<char>) -> bool {
    let lt = lower_seq(t);
    let base = if lt.len() > 0 && (lt[lt.len() - 1] == '.' || lt[lt.len() - 1] == '!' || lt[lt.len()
        - 1] == '?') {
        lt.drop_last()
    } else {
        lt
    };
    text_in(trivial_words(), base)
}

/// Entirely free of word characters: whitespace and punctuation only.
pub open spec fn all_nonword(t: Seq<char>) -> bool {
    forall|i: int| 0 <= i < t.len() ==> !crate::text::is_word_char(t[i])
}

/// A message not worth a model call: a trivial acknowledgement or pure
/// punctuation.
pub open spec fn is_trivial_message(t: Seq<char>) -> bool {
    is_trivial_ack(t) || all_nonword(t)
}

fn trivial_word_vecs() -> (r: Vec<Vec<char>>)
    ensures
        seqs_of(r@) == trivial_words(),
{
    let mut r: Vec<Vec<char>> = Vec::new();
    r.push(chars_of("ok"));
    r.push(chars_of("okay"));
    r.push(chars_of("yes"));
    r.push(chars_of("no"));
    r.push(chars_of("thanks"));
    r.push(chars_of("sure"));
    r.push(chars_of("got it"));
    r.push(chars_of("cool"));
    r.push(chars_of("nice"));
    r.push(chars_of("great"));
    r.push(chars_of("hmm"));
    r.push(chars_of("ah"));
    r.push(chars_of("oh"));
    r.push(chars_of("lol"));
    r.push(chars_of("yep"));
    r.push(chars_of("yeah"));
    assert(seqs_of(r@) =~= trivial_words());
    r
}

/// Whether a (trimmed) message is a trivial acknowledgement or pure
/// punctuation.
#[verifier::loop_isolation(false)]
pub fn trivial_message(t: &Vec<char>) -> (r: bool)
    ensures
        r == is_trivial_message(t@),
{
    let lt = to_lower(t);
    let ghost ltv = lt@;
    let mut base = lt;
    if base.len() > 0 {
        let last = base[base.len() - 1];
        if last == '.' || last == '!' || last == '?' {
            let _ = base.pop();
            assert(base@ =~= ltv.drop_last());
        }
    }
    assert(is_trivial_ack(t@) == text_in(trivial_words(), base@));
    let words = trivial_word_vecs();
    if contains_text(&words, &base) {
        return true;
    }
    let mut i: usize = 0;
    while i < t.len()
        invariant
            0 <= i <= t@.len(),
            forall|j: int| 0 <= j < i ==> !crate::text::is_word_char(t@[j]),
        decreases t@.len() - i,
    {
        if crate::text::word_char(t[i]) {
            return false;
        }
        i += 1;
    }
    true
}

/// The content of the latest user turn, if any.
pub open spec fn last_user_content(ms: Seq<ChatMessage>) -> Option<Seq<char>>
    decreases ms.len(),
{
    if ms.len() == 0 {
        None
    } else if ms[ms.len() - 1].is_user() {
        Some(ms[ms.len() - 1].content@)
    } else {
        last_user_content(ms.drop_last())
    }
}

/// Index of the latest user turn, if any.
fn last_user_index(ms: &Vec<ChatMessage>) -> (r: Option<usize>)
    ensures
        match r {
            Some(i) => i < ms@.len() && ms@[i as int].is_user() && last_user_content(ms@) == Some(
                ms@[i as int].content@,
            ),
            None => last_user_content(ms@) is None,
        },
{
    let mut i: usize = ms.len();
    proof {
        assert(ms@.take(ms@.len() as int) =~= ms@);
    }
    while i > 0
        invariant
            0 <= i <= ms@.len(),
            last_user_content(ms@) == last_user_content(ms@.take(i as int)),
        decreases i,
    {
        i -= 1;
        proof {
            assert(ms@.take(i + 1).drop_last() =~= ms@.take(i as int));
            assert(ms@.take(i + 1).last() == ms@[i as int]);
        }
        if ms[i].user_role() {
            return Some(i);
        }
    }
    assert(ms@.take(0) =~= Seq::<ChatMessage>::empty());
    None
}

/// The extraction gate: too few user turns, a trivial or empty latest user
/// turn, or a transcript below the character floor means no model call.
pub open spec fn skip_spec(ms: Seq<ChatMessage>) -> bool {
    ||| ms.len() == 0
    ||| user_count_spec(ms) < 3
    ||| (match last_user_content(ms) {
        Some(c) => trim_spec(c).len() == 0 || is_trivial_message(trim_spec(c)),
        None => false,
    })
    ||| conversation_spec(ms).len() < 50
}

/// The structured-extraction prompt for a transcript window.
pub open spec fn extraction_prompt_spec(ms: Seq<ChatMessage>) -> Seq<char> {
    crate::text::replace_spec(
        "Analyze the conversation and extract key facts.\n\n<conversation>\n{conversation}\n</conversation>\n\nExtract:\n- Personal info (name, job, location, preferences)\n- Decisions, requirements, relationships\n- Technical preferences (tools, languages)\n\nRules:\n- Facts only, no opinions or temporary context\n- Self-contained statements\n- Skip greetings and small talk\n\nReturn JSON array: [{\"fact\": \"...\", \"importance\": \"high|medium|low\"}]\nExample: [{\"fact\": \"User's name is John\", \"importance\": \"high\"}]\n\nFacts:"@,
        "{conversation}"@,
        crate::sanitize::sanitize_prompt_spec(conversation_spec(ms)),
    )
}

/// The views of fact/importance entry pairs.
pub open spec fn entry_views(s: Seq<(String, String)>) -> Seq<(Seq<char>, Seq<char>)> {
    s.map_values(|e: (String, String)| (e.0@, e.1@))
}

/// What the model path yields from parsed entries: up to `max` facts, markup
/// neutralized, labels mapped to fixed weights, tagged "llm".
pub open spec fn llm_fact_views(entries: Seq<(Seq<char>, Seq<char>)>, max: int) -> Seq<FactView> {
    entries.take(min_int(max, entries.len() as int)).map_values(
        |e: (Seq<char>, Seq<char>)|
            FactView {
                content: crate::sanitize::sanitize_storage_spec(e.0),
                importance: weight_spec(e.1),
                source: "llm"@,
            },
    )
}

/// What the fallback path yields: the deduplicated heuristic facts, capped.
pub open spec fn fallback_views(ms: Seq<ChatMessage>, max: int) -> Seq<FactView> {
    let h = heuristic_views(ms);
    h.take(min_int(max, h.len() as int))
}

/// Decides whether extraction is worth a model call and turns replies into
/// candidate facts; the completion capability itself is supplied by the
/// caller.
pub struct MemoryExtractor {
    pub model: String,
    /// Cap on the number of candidate facts per extraction cycle.
    pub max_facts: usize,
}

impl MemoryExtractor {
    pub fn new(model: String, max_facts: usize) -> (r: MemoryExtractor)
        ensures
            r.model == model,
            r.max_facts == max_facts,
    {
        MemoryExtractor { model, max_facts }
    }

    /// Whether this transcript is skipped without a model call.
    pub fn should_skip(&self, messages: &Vec<ChatMessage>) -> (r: bool)
        ensures
            r == skip_spec(messages@),
    {
        if messages.len() == 0 {
            return true;
        }
        if crate::chat::count_user_turns(messages) < 3 {
            return true;
        }
        match last_user_index(messages) {
            Some(i) => {
                let t = trim_chars(&chars_of(messages[i].content.as_str()));
                if t.len() == 0 || trivial_message(&t) {
                    return true;
                }
            },
            None => {},
        }
        let conversation = crate::sanitize::format_conversation(messages);
        let cl = chars_of(conversation.as_str());
        cl.len() < 50
    }

    /// The prompt for a transcript worth extracting from; `None` when the
    /// gate says to skip. With fewer than three user turns the result is
    /// always `None`, whatever the contents.
    pub fn prepare_extraction(&self, messages: &Vec<ChatMessage>) -> (r: Option<String>)
        ensures
            (r is Some) == !skip_spec(messages@),
            user_count_spec(messages@) < 3 ==> r is None,
            r is Some ==> r->Some_0@ == extraction_prompt_spec(messages@),
    {
        if self.should_skip(messages) {
            return None;
        }
        proof {
            reveal_strlit("{conversation}");
        }
        let conversation = crate::sanitize::format_conversation(messages);
        let sanitized = crate::sanitize::sanitize_prompt_chars(&chars_of(conversation.as_str()));
        let template = chars_of(
            "Analyze the conversation and extract key facts.\n\n<conversation>\n{conversation}\n</conversation>\n\nExtract:\n- Personal info (name, job, location, preferences)\n- Decisions, requirements, relationships\n- Technical preferences (tools, languages)\n\nRules:\n- Facts only, no opinions or temporary context\n- Self-contained statements\n- Skip greetings and small talk\n\nReturn JSON array: [{\"fact\": \"...\", \"importance\": \"high|medium|low\"}]\nExample: [{\"fact\": \"User's name is John\", \"importance\": \"high\"}]\n\nFacts:",
        );
        let prompt = crate::text::replace_all(&template, &chars_of("{conversation}"), &sanitized);
        Some(string_from(&prompt))
    }

    /// Map parsed `{fact, importance}` entries to candidate facts: cap at
    /// `max_facts`, neutralize markup, weigh the labels, tag the source.
    #[verifier::loop_isolation(false)]
    pub fn facts_from_entries(&self, entries: &Vec<(String, String)>) -> (r: Vec<ExtractedFact>)
        ensures
            fact_views(r@) == llm_fact_views(entry_views(entries@), self.max_facts as int),
    {
        let ghost goal = llm_fact_views(entry_views(entries@), self.max_facts as int);
        let keep = if self.max_facts < entries.len() {
            self.max_facts
        } else {
            entries.len()
        };
        let mut r: Vec<ExtractedFact> = Vec::new();
        let mut i: usize = 0;
        proof {
            assert(goal.len() == keep);
        }
        while i < keep
            invariant
                0 <= i <= keep,
                fact_views(r@) == goal.take(i as int),
            decreases keep - i,
        {
            let e = &entries[i];
            let fact = ExtractedFact {
                content: crate::sanitize::sanitize_storage_content(e.0.as_str()),
                importance: importance_weight(e.1.as_str()),
                source: String::from_str("llm"),
            };
            let ghost fv = fact_view(fact);
            let ghost pre = fact_views(r@);
            r.push(fact);
            proof {
                assert(fv == goal[i as int]);
                assert(fact_views(r@) =~= pre.push(fv));
                assert(pre.push(fv) =~= goal.take(i + 1));
            }
            i += 1;
        }
        assert(fact_views(r@) =~= goal);
        r
    }

    /// The conservative fallback: heuristic extraction, capped at
    /// `max_facts`.
    pub fn fallback_facts(&self, messages: &Vec<ChatMessage>) -> (r: Vec<ExtractedFact>)
        ensures
            fact_views(r@) == fallback_views(messages@, self.max_facts as int),
    {
        let mut facts = heuristic_extract(messages);
        if facts.len() > self.max_facts {
            let ghost pre = facts@;
            facts.truncate(self.max_facts);
            proof {
                assert(facts@ =~= pre.take(self.max_facts as int));
                assert(fact_views(facts@) =~= fact_views(pre).take(self.max_facts as int));
            }
        } else {
            proof {
                assert(fact_views(facts@) =~= fact_views(facts@).take(facts@.len() as int));
            }
        }
        facts
    }

    /// Turn a model reply (or its absence, on transport failure) into the
    /// extracted facts: the fence-stripped reply's entries through the
    /// structured path when they parse, the deterministic fallback
    /// otherwise.
    pub fn finish_extraction(
        &self,
        messages: &Vec<ChatMessage>,
        response: Option<&str>,
    ) -> (r: Vec<ExtractedFact>)
        ensures
            response is None ==> fact_views(r@) == fallback_views(
                messages@,
                self.max_facts as int,
            ),
            response is Some ==> (match crate::json::fact_entries_spec(
                crate::sanitize::strip_fences_spec(response->Some_0@),
            ) {
                Some(es) => fact_views(r@) == llm_fact_views(es, self.max_facts as int),
                None => fact_views(r@) == fallback_views(messages@, self.max_facts as int),
            }),
    {
        let text = match response {
            None => {
                return self.fallback_facts(messages);
            },
            Some(t) => t,
        };
        let stripped = crate::sanitize::strip_code_fences(text);
        match crate::json::fact_entries(stripped.as_str()) {
            None => self.fallback_facts(messages),
            Some(entries) => {
                let out = self.facts_from_entries(&entries);
                proof {
                    let es = entry_views(entries@);
                    assert(fact_views(out@) == llm_fact_views(es, self.max_facts as int));
                }
                out
            },
        }
    }
}

} // verus!
