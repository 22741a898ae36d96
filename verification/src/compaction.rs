//! Session compaction: bound the history sent to the provider to a verbatim
//! recent window plus one synthesized recap of everything older. The stored
//! history is never mutated; compaction is a read-time transform.

use vstd::prelude::*;

use crate::chat::ChatMessage;
use crate::extractor::dedup_texts;
use crate::extractor::kw_raw_msgs;
use crate::extractor::extract_facts_from_messages;
use crate::text::chars_of;
use crate::text::join_spec;
use crate::text::join_with;
use crate::text::lines_spec;
use crate::text::min_int;
use crate::text::push_all;
use crate::text::seqs_of;
use crate::text::split_char;
use crate::text::split_char_spec;
use crate::text::split_lines;
use crate::text::string_from;
use crate::extractor::string_views;
use crate::text::trim_chars;
use crate::text::trim_spec;

verus! {

/// Bounds for the compaction transform.
pub struct CompactionConfig {
    /// History length below which compaction is skipped.
    pub threshold: usize,
    /// Turns kept verbatim (each turn is two messages).
    pub recent_turns_keep: usize,
    /// Turns summarized heuristically (each turn is two messages).
    pub summary_max_turns: usize,
    /// Cap on recalled key facts.
    pub max_facts: usize,
}

impl CompactionConfig {
    /// Bounds small enough for the index arithmetic of the transform.
    pub open spec fn wf(&self) -> bool {
        &&& self.recent_turns_keep <= 0x1000_0000
        &&& self.summary_max_turns <= 0x1000_0000
    }
}

impl Default for CompactionConfig {
    /// The default bounds: compact from 50 messages, keep 8 turns verbatim,
    /// summarize 15, recall at most 10 facts.
    fn default() -> (r: CompactionConfig)
        ensures
            r.threshold == 50,
            r.recent_turns_keep == 8,
            r.summary_max_turns == 15,
            r.max_facts == 10,
    {
        CompactionConfig { threshold: 50, recent_turns_keep: 8, summary_max_turns: 15, max_facts: 10 }
    }
}

/// A line yields a recalled user question when it is a long-enough line
/// ending in a question mark: the trimmed line, capped at 150 characters.
pub open spec fn question_of_line(line: Seq<char>) -> Option<Seq<char>> {
    let t = trim_spec(line);
    if t.len() > 20 && t.len() > 0 && t[t.len() - 1] == '?' {
        Some(t.take(min_int(150, t.len() as int)))
    } else {
        None
    }
}

/// The question candidates of the lines of one trimmed user message.
pub open spec fn uq_lines(lines: Seq<Seq<char>>, j: int) -> Seq<Seq<char>>
    decreases lines.len() - j,
    when 0 <= j <= lines.len()
{
    if j >= lines.len() {
        Seq::empty()
    } else {
        (match question_of_line(lines[j]) {
            Some(q) => seq![q],
            None => Seq::empty(),
        }) + uq_lines(lines, j + 1)
    }
}

/// The question candidates of all user messages from `i` on.
pub open spec fn uq_msgs(ms: Seq<ChatMessage>, i: int) -> Seq<Seq<char>>
    decreases ms.len() - i,
    when 0 <= i <= ms.len()
{
    if i >= ms.len() {
        Seq::empty()
    } else {
        (if ms[i].is_user() && trim_spec(ms[i].content@).len() > 0 {
            uq_lines(lines_spec(trim_spec(ms[i].content@)), 0)
        } else {
            Seq::empty()
        }) + uq_msgs(ms, i + 1)
    }
}

/// The first qualifying conclusion among the first three sentences: a
/// trimmed piece longer than 30 characters, capped at 150.
pub open spec fn first_conclusion(pieces: Seq<Seq<char>>, j: int, limit: int) -> Option<Seq<char>>
    decreases limit - j,
    when 0 <= j
{
    if j >= limit || j >= pieces.len() {
        None
    } else {
        let t = trim_spec(pieces[j]);
        if t.len() > 30 {
            Some(t.take(min_int(150, t.len() as int)))
        } else {
            first_conclusion(pieces, j + 1, limit)
        }
    }
}

/// The conclusion one assistant message contributes, if any: its content
/// must be longer than 50 characters once trimmed.
pub open spec fn conclusion_of(content: Seq<char>) -> Option<Seq<char>> {
    let t = trim_spec(content);
    if t.len() > 50 {
        first_conclusion(split_char_spec(t, '.'), 0, 3)
    } else {
        None
    }
}

/// The conclusion candidates of all assistant messages from `i` on.
pub open spec fn ac_msgs(ms: Seq<ChatMessage>, i: int) -> Seq<Seq<char>>
    decreases ms.len() - i,
    when 0 <= i <= ms.len()
{
    if i >= ms.len() {
        Seq::empty()
    } else {
        (if ms[i].is_assistant() && trim_spec(ms[i].content@).len() > 0 {
            match conclusion_of(ms[i].content@) {
                Some(c) => seq![c],
                None => Seq::empty(),
            }
        } else {
            Seq::empty()
        }) + ac_msgs(ms, i + 1)
    }
}

/// Indent each entry as a two-space bullet.
pub open spec fn bullets(s: Seq<Seq<char>>) -> Seq<Seq<char>> {
    s.map_values(|q: Seq<char>| "  - "@ + q)
}

/// The heuristic summary of the middle window: up to three distinct user
/// questions and up to three distinct assistant conclusions, or a fixed
/// phrase when there are neither.
pub open spec fn summary_spec(ms: Seq<ChatMessage>) -> Seq<char> {
    let uq = dedup_texts(uq_msgs(ms, 0));
    let ac = dedup_texts(ac_msgs(ms, 0));
    let parts = (if uq.len() > 0 {
        seq!["User asked about:"@] + bullets(uq.take(min_int(3, uq.len() as int)))
    } else {
        Seq::empty()
    }) + (if ac.len() > 0 {
        seq!["Assistant responses:"@] + bullets(ac.take(min_int(3, ac.len() as int)))
    } else {
        Seq::empty()
    });
    if parts.len() == 0 {
        "General discussion continued"@
    } else {
        join_spec(parts, "\n"@)
    }
}

/// The recalled key facts of the old window, as a bulleted block.
pub open spec fn facts_block_spec(ms: Seq<ChatMessage>, max_facts: int) -> Seq<char> {
    let all = dedup_texts(kw_raw_msgs(ms, 0));
    let facts = all.take(min_int(max_facts, all.len() as int));
    join_spec(facts.map_values(|f: Seq<char>| "- "@ + f), "\n"@)
}

/// The content of the synthetic recap turn, given the two blocks.
pub open spec fn recap_content_spec(facts_block: Seq<char>, summary: Seq<char>, has_old: bool, has_middle: bool) -> Seq<char> {
    let parts = (if has_old && facts_block.len() > 0 {
        seq!["Key facts:\n"@ + facts_block]
    } else {
        Seq::empty()
    }) + (if has_middle && summary.len() > 0 {
        seq!["Recent discussion summary:\n"@ + summary]
    } else {
        Seq::empty()
    });
    "[Recalling from earlier in our conversation]\n\n"@ + join_spec(parts, "\n\n"@)
}

/// Where the verbatim recent window of a compacted history starts.
pub open spec fn recent_start_spec(ms: Seq<ChatMessage>, cfg: CompactionConfig) -> int {
    ms.len() - min_int(2 * cfg.recent_turns_keep as int, ms.len() as int)
}

/// Where the summarized middle window starts; everything before it is old.
pub open spec fn middle_start_spec(ms: Seq<ChatMessage>, cfg: CompactionConfig) -> int {
    let rs = recent_start_spec(ms, cfg);
    rs - min_int(2 * cfg.summary_max_turns as int, rs)
}

/// The recap content of a compacted history.
pub open spec fn recap_of(ms: Seq<ChatMessage>, cfg: CompactionConfig) -> Seq<char> {
    let old = ms.take(middle_start_spec(ms, cfg));
    let middle = ms.subrange(middle_start_spec(ms, cfg), recent_start_spec(ms, cfg));
    recap_content_spec(
        facts_block_spec(old, cfg.max_facts as int),
        summary_spec(middle),
        old.len() > 0,
        middle.len() > 0,
    )
}

/// Whether a compacted history carries a recap turn at all.
pub open spec fn recap_nonempty_spec(ms: Seq<ChatMessage>, cfg: CompactionConfig) -> bool {
    let old = ms.take(middle_start_spec(ms, cfg));
    let middle = ms.subrange(middle_start_spec(ms, cfg), recent_start_spec(ms, cfg));
    (old.len() > 0 && facts_block_spec(old, cfg.max_facts as int).len() > 0) || (middle.len() > 0
        && summary_spec(middle).len() > 0)
}

/// Keeps the per-turn prompt history bounded regardless of session age.
pub struct SessionCompactor {
    pub config: CompactionConfig,
}

impl SessionCompactor {
    pub fn new(config: Option<CompactionConfig>) -> (r: SessionCompactor)
        ensures
            match config {
                Some(c) => r.config == c,
                None => r.config.threshold == 50 && r.config.recent_turns_keep == 8
                    && r.config.summary_max_turns == 15 && r.config.max_facts == 10,
            },
    {
        match config {
            Some(c) => SessionCompactor { config: c },
            None => SessionCompactor { config: CompactionConfig::default() },
        }
    }

    /// Compact a history: below the threshold it is returned unchanged; at
    /// or above it, the result is an optional synthetic recap turn followed
    /// verbatim by exactly the most recent messages, in original order.
    #[verifier::loop_isolation(false)]
    pub fn compact(&self, messages: &Vec<ChatMessage>) -> (r: Vec<ChatMessage>)
        requires
            self.config.wf(),
        ensures
            messages@.len() < self.config.threshold ==> r@ == messages@,
            messages@.len() >= self.config.threshold ==> ({
                let ms = messages@;
                let recent = min_int(2 * self.config.recent_turns_keep as int, ms.len() as int);
                let tail = ms.skip(ms.len() - recent);
                &&& r@.len() >= recent
                &&& r@.skip(r@.len() - recent) == tail
                &&& r@.len() <= recent + 1
                &&& (r@.len() == recent + 1 <==> recap_nonempty_spec(ms, self.config))
                &&& r@.len() == recent + 1 ==> r@[0].is_assistant() && r@[0].content@ == recap_of(
                    ms,
                    self.config,
                )
            }),
    {
        let n = messages.len();
        if n < self.config.threshold {
            let r = copy_messages(messages, 0, n);
            assert(r@ =~= messages@);
            return r;
        }
        let recent_count = 2 * self.config.recent_turns_keep;
        let recent_start = if recent_count < n {
            n - recent_count
        } else {
            0
        };
        let middle_count = 2 * self.config.summary_max_turns;
        let middle_start = if middle_count < recent_start {
            recent_start - middle_count
        } else {
            0
        };
        let ghost ms = messages@;
        let ghost old_w = ms.take(middle_start as int);
        let ghost middle_w = ms.subrange(middle_start as int, recent_start as int);

        let old_msgs = copy_messages(messages, 0, middle_start);
        let middle_msgs = copy_messages(messages, middle_start, recent_start);
        proof {
            assert(old_msgs@ =~= old_w);
            assert(middle_msgs@ =~= middle_w);
        }

        let ghost fb = facts_block_spec(old_w, self.config.max_facts as int);
        let ghost sm = summary_spec(middle_w);
        let ghost p_facts: Seq<Seq<char>> = if old_w.len() > 0 && fb.len() > 0 {
            seq!["Key facts:\n"@ + fb]
        } else {
            Seq::empty()
        };
        let ghost p_sum: Seq<Seq<char>> = if middle_w.len() > 0 && sm.len() > 0 {
            seq!["Recent discussion summary:\n"@ + sm]
        } else {
            Seq::empty()
        };
        let mut recall_parts: Vec<Vec<char>> = Vec::new();
        if old_msgs.len() > 0 {
            let block = self.extract_facts(&old_msgs);
            let bc = chars_of(block.as_str());
            if bc.len() > 0 {
                let mut part = chars_of("Key facts:\n");
                push_all(&mut part, &bc);
                let ghost pv = part@;
                recall_parts.push(part);
                proof {
                    assert(seqs_of(recall_parts@) =~= seq![pv]);
                }
            }
        }
        proof {
            assert(seqs_of(recall_parts@) =~= p_facts);
        }
        if middle_msgs.len() > 0 {
            let summary = self.summarize(&middle_msgs);
            let sc = chars_of(summary.as_str());
            if sc.len() > 0 {
                let mut part = chars_of("Recent discussion summary:\n");
                push_all(&mut part, &sc);
                let ghost pre = seqs_of(recall_parts@);
                let ghost pv = part@;
                recall_parts.push(part);
                proof {
                    assert(seqs_of(recall_parts@) =~= pre.push(pv));
                    assert(seqs_of(recall_parts@) =~= p_facts + p_sum);
                }
            }
        }
        proof {
            assert(seqs_of(recall_parts@) =~= p_facts + p_sum);
        }

        let mut compacted: Vec<ChatMessage> = Vec::new();
        if recall_parts.len() > 0 {
            let mut recall = chars_of("[Recalling from earlier in our conversation]\n\n");
            let joined = join_with(&recall_parts, &chars_of("\n\n"));
            push_all(&mut recall, &joined);
            proof {
                let pv = seqs_of(recall_parts@);
                if pv.len() == 2 {
                    assert(pv.drop_first() =~= seq![pv[1]]);
                    assert(crate::text::join_spec(seq![pv[1]], "\n\n"@) == pv[1]);
                }
                assert(recall@ =~= recap_of(ms, self.config));
            }
            compacted.push(ChatMessage::new("assistant", string_from(&recall)));
        }
        proof {
            assert((recall_parts@.len() > 0) == recap_nonempty_spec(ms, self.config));
        }
        let ghost recap_len = compacted@.len();
        proof {
            assert(recap_len <= 1);
            assert((recap_len == 1) == recap_nonempty_spec(ms, self.config));
        }
        let mut i: usize = recent_start;
        while i < n
            invariant
                recent_start <= i <= n,
                compacted@.len() == recap_len + (i - recent_start),
                recap_len == 1 ==> compacted@.len() > 0 && compacted@[0].is_assistant()
                    && compacted@[0].content@ == recap_of(ms, self.config),
                forall|t: int|
                    recap_len <= t < compacted@.len() ==> compacted@[t] == ms[recent_start + t
                        - recap_len],
            decreases n - i,
        {
            compacted.push(messages[i].duplicate());
            i += 1;
        }
        proof {
            let recent = min_int(2 * self.config.recent_turns_keep as int, ms.len() as int);
            assert(compacted@.skip(compacted@.len() - recent) =~= ms.skip(ms.len() - recent));
        }
        compacted
    }

    /// `compact`, together with whether compaction was applied at all.
    pub fn compact_with_flag(&self, messages: &Vec<ChatMessage>) -> (r: (Vec<ChatMessage>, bool))
        requires
            self.config.wf(),
        ensures
            r.1 == (messages@.len() >= self.config.threshold),
            !r.1 ==> r.0@ == messages@,
            r.1 ==> ({
                let ms = messages@;
                let recent = min_int(2 * self.config.recent_turns_keep as int, ms.len() as int);
                &&& r.0@.len() >= recent
                &&& r.0@.skip(r.0@.len() - recent) == ms.skip(ms.len() - recent)
                &&& r.0@.len() <= recent + 1
            }),
    {
        let compacted = self.compact(messages);
        let flag = messages.len() >= self.config.threshold;
        (compacted, flag)
    }

    /// The recalled key facts of the old window, one bullet per fact.
    pub fn extract_facts(&self, messages: &Vec<ChatMessage>) -> (r: String)
        ensures
            r@ == facts_block_spec(messages@, self.config.max_facts as int),
    {
        proof {
            reveal_strlit("- ");
            reveal_strlit("\n");
        }
        let facts = extract_facts_from_messages(messages, self.config.max_facts);
        let ghost fv = string_views(facts@);
        let mut lines: Vec<Vec<char>> = Vec::new();
        let mut i: usize = 0;
        while i < facts.len()
            invariant
                0 <= i <= facts@.len(),
                string_views(facts@) == fv,
                seqs_of(lines@) =~= fv.take(i as int).map_values(|f: Seq<char>| "- "@ + f),
            decreases facts@.len() - i,
        {
            let mut line = chars_of("- ");
            push_all(&mut line, &chars_of(facts[i].as_str()));
            let ghost lv = line@;
            let ghost pre = seqs_of(lines@);
            lines.push(line);
            proof {
                assert(seqs_of(lines@) =~= pre.push(lv));
                assert(pre.push(lv) =~= fv.take(i + 1).map_values(|f: Seq<char>| "- "@ + f));
            }
            i += 1;
        }
        proof {
            assert(fv.take(fv.len() as int) =~= fv);
        }
        let joined = join_with(&lines, &chars_of("\n"));
        string_from(&joined)
    }

    /// The heuristic summary of the middle window.
    #[verifier::loop_isolation(false)]
    pub fn summarize(&self, messages: &Vec<ChatMessage>) -> (r: String)
        ensures
            r@ == summary_spec(messages@),
    {
        proof {
            reveal_strlit("\n");
            reveal_strlit("  - ");
        }
        let ghost ms = messages@;
        let mut uq_raw: Vec<Vec<char>> = Vec::new();
        let mut ac_raw: Vec<Vec<char>> = Vec::new();
        let mut i: usize = 0;
        proof {
            assert(seqs_of(uq_raw@) + uq_msgs(ms, 0) =~= uq_msgs(ms, 0));
            assert(seqs_of(ac_raw@) + ac_msgs(ms, 0) =~= ac_msgs(ms, 0));
        }
        while i < messages.len()
            invariant
                0 <= i <= ms.len(),
                uq_msgs(ms, 0) == seqs_of(uq_raw@) + uq_msgs(ms, i as int),
                ac_msgs(ms, 0) == seqs_of(ac_raw@) + ac_msgs(ms, i as int),
            decreases ms.len() - i,
        {
            let m = &messages[i];
            let content = trim_chars(&chars_of(m.content.as_str()));
            let ghost pre_u = seqs_of(uq_raw@);
            let ghost pre_a = seqs_of(ac_raw@);
            if content.len() > 0 && m.user_role() {
                let qs = message_questions(&content);
                let ghost qv = seqs_of(qs@);
                let mut t: usize = 0;
                while t < qs.len()
                    invariant
                        0 <= t <= qs@.len(),
                        seqs_of(qs@) == qv,
                        seqs_of(uq_raw@) == pre_u + qv.take(t as int),
                    decreases qs@.len() - t,
                {
                    let ghost rp = seqs_of(uq_raw@);
                    let piece = crate::text::slice_range(&qs[t], 0, qs[t].len());
                    assert(piece@ =~= qv[t as int]);
                    uq_raw.push(piece);
                    proof {
                        assert(seqs_of(uq_raw@) =~= rp.push(qv[t as int]));
                        assert(rp.push(qv[t as int]) =~= pre_u + qv.take(t + 1));
                    }
                    t += 1;
                }
                proof {
                    assert(qv.take(qv.len() as int) =~= qv);
                    assert(uq_msgs(ms, i as int) == uq_lines(
                        lines_spec(trim_spec(ms[i as int].content@)),
                        0,
                    ) + uq_msgs(ms, i + 1));
                }
            } else {
                proof {
                    assert(uq_msgs(ms, i as int) == uq_msgs(ms, i + 1));
                }
            }
            if m.assistant_role() && content.len() > 50 {
                let ghost pw = split_char_spec(content@, '.');
                match message_conclusion(&content) {
                    Some(c) => {
                        let ghost cv = c@;
                        ac_raw.push(c);
                        proof {
                            assert(conclusion_of(ms[i as int].content@) == Some(cv));
                            assert(seqs_of(ac_raw@) =~= pre_a.push(cv));
                            assert(pre_a.push(cv) =~= pre_a + seq![cv]);
                        }
                    },
                    None => {
                        proof {
                            assert(conclusion_of(ms[i as int].content@) is None);
                            assert(seqs_of(ac_raw@) + Seq::<Seq<char>>::empty() =~= seqs_of(
                                ac_raw@,
                            ));
                        }
                    },
                }
                proof {
                    assert(ac_msgs(ms, i as int) == (match conclusion_of(ms[i as int].content@) {
                        Some(c) => seq![c],
                        None => Seq::<Seq<char>>::empty(),
                    }) + ac_msgs(ms, i + 1));
                }
            } else {
                proof {
                    assert(ac_msgs(ms, i as int) == ac_msgs(ms, i + 1));
                }
            }
            i += 1;
        }
        proof {
            assert(uq_msgs(ms, ms.len() as int) =~= Seq::<Seq<char>>::empty());
            assert(ac_msgs(ms, ms.len() as int) =~= Seq::<Seq<char>>::empty());
            assert(seqs_of(uq_raw@) + Seq::<Seq<char>>::empty() =~= seqs_of(uq_raw@));
            assert(seqs_of(ac_raw@) + Seq::<Seq<char>>::empty() =~= seqs_of(ac_raw@));
        }

        let uq = crate::extractor::dedup_text_vec(&uq_raw);
        let ac = crate::extractor::dedup_text_vec(&ac_raw);
        let ghost uqv = dedup_texts(uq_msgs(ms, 0));
        let ghost acv = dedup_texts(ac_msgs(ms, 0));
        let mut parts: Vec<Vec<char>> = Vec::new();
        if uq.len() > 0 {
            parts.push(chars_of("User asked about:"));
            let cap: usize = if uq.len() < 3 {
                uq.len()
            } else {
                3
            };
            let mut t: usize = 0;
            while t < cap
                invariant
                    0 <= t <= cap,
                    cap == min_int(3, uqv.len() as int),
                    seqs_of(uq@) == uqv,
                    seqs_of(parts@) =~= seq!["User asked about:"@] + bullets(
                        uqv.take(cap as int),
                    ).take(t as int),
                decreases cap - t,
            {
                let mut line = chars_of("  - ");
                push_all(&mut line, &uq[t]);
                let ghost lv = line@;
                let ghost pre = seqs_of(parts@);
                parts.push(line);
                proof {
                    assert(seqs_of(parts@) =~= pre.push(lv));
                    assert(pre.push(lv) =~= seq!["User asked about:"@] + bullets(
                        uqv.take(cap as int),
                    ).take(t + 1));
                }
                t += 1;
            }
            proof {
                assert(bullets(uqv.take(cap as int)).take(cap as int) =~= bullets(
                    uqv.take(min_int(3, uqv.len() as int)),
                ));
            }
        }
        let ghost parts_mid = seqs_of(parts@);
        if ac.len() > 0 {
            parts.push(chars_of("Assistant responses:"));
            proof {
                assert(seqs_of(parts@) =~= parts_mid.push("Assistant responses:"@));
            }
            let cap: usize = if ac.len() < 3 {
                ac.len()
            } else {
                3
            };
            let mut t: usize = 0;
            while t < cap
                invariant
                    0 <= t <= cap,
                    cap == min_int(3, acv.len() as int),
                    seqs_of(ac@) == acv,
                    seqs_of(parts@) =~= parts_mid + seq!["Assistant responses:"@] + bullets(
                        acv.take(cap as int),
                    ).take(t as int),
                decreases cap - t,
            {
                let mut line = chars_of("  - ");
                push_all(&mut line, &ac[t]);
                let ghost lv = line@;
                let ghost pre = seqs_of(parts@);
                parts.push(line);
                proof {
                    assert(seqs_of(parts@) =~= pre.push(lv));
                    assert(pre.push(lv) =~= parts_mid + seq!["Assistant responses:"@] + bullets(
                        acv.take(cap as int),
                    ).take(t + 1));
                }
                t += 1;
            }
            proof {
                assert(bullets(acv.take(cap as int)).take(cap as int) =~= bullets(
                    acv.take(min_int(3, acv.len() as int)),
                ));
            }
        }
        proof {
            assert(seqs_of(parts@) =~= (if uqv.len() > 0 {
                seq!["User asked about:"@] + bullets(uqv.take(min_int(3, uqv.len() as int)))
            } else {
                Seq::<Seq<char>>::empty()
            }) + (if acv.len() > 0 {
                seq!["Assistant responses:"@] + bullets(acv.take(min_int(3, acv.len() as int)))
            } else {
                Seq::<Seq<char>>::empty()
            }));
        }
        if parts.len() == 0 {
            let r = String::from_str("General discussion continued");
            return r;
        }
        let joined = join_with(&parts, &chars_of("\n"));
        string_from(&joined)
    }
}

/// The question candidates of one trimmed user message.
#[verifier::loop_isolation(false)]
fn message_questions(content: &Vec<char>) -> (r: Vec<Vec<char>>)
    ensures
        seqs_of(r@) == uq_lines(lines_spec(content@), 0),
{
    let lines = split_lines(content);
    let ghost lw = seqs_of(lines@);
    let mut out: Vec<Vec<char>> = Vec::new();
    let mut j: usize = 0;
    proof {
        assert(seqs_of(out@) + uq_lines(lw, 0) =~= uq_lines(lw, 0));
    }
    while j < lines.len()
        invariant
            0 <= j <= lw.len(),
            seqs_of(lines@) == lw,
            uq_lines(lw, 0) == seqs_of(out@) + uq_lines(lw, j as int),
        decreases lw.len() - j,
    {
        let t = trim_chars(&lines[j]);
        let ghost pre = seqs_of(out@);
        if t.len() > 20 && t[t.len() - 1] == '?' {
            let q = crate::text::take_chars(&t, 150);
            let ghost qv = q@;
            out.push(q);
            proof {
                assert(question_of_line(lw[j as int]) == Some(qv));
                assert(seqs_of(out@) =~= pre.push(qv));
                assert(pre + (seq![qv] + uq_lines(lw, j + 1)) =~= pre.push(qv) + uq_lines(
                    lw,
                    j + 1,
                ));
            }
        } else {
            proof {
                assert(question_of_line(lw[j as int]) is None);
            }
        }
        j += 1;
    }
    assert(uq_lines(lw, lw.len() as int) =~= Seq::<Seq<char>>::empty());
    assert(seqs_of(out@) + Seq::<Seq<char>>::empty() =~= seqs_of(out@));
    out
}

/// The first qualifying conclusion sentence of one trimmed assistant
/// message.
#[verifier::loop_isolation(false)]
fn message_conclusion(content: &Vec<char>) -> (r: Option<Vec<char>>)
    ensures
        match r {
            Some(c) => first_conclusion(split_char_spec(content@, '.'), 0, 3) == Some(c@),
            None => first_conclusion(split_char_spec(content@, '.'), 0, 3) is None,
        },
{
    let pieces = split_char(content, '.');
    let ghost pw = split_char_spec(content@, '.');
    let limit: usize = if pieces.len() < 3 {
        pieces.len()
    } else {
        3
    };
    let mut k: usize = 0;
    while k < limit
        invariant
            0 <= k <= limit,
            limit == min_int(3, pw.len() as int),
            seqs_of(pieces@) == pw,
            first_conclusion(pw, 0, 3) == first_conclusion(pw, k as int, 3),
        decreases limit - k,
    {
        let t = trim_chars(&pieces[k]);
        if t.len() > 30 {
            let c = crate::text::take_chars(&t, 150);
            proof {
                assert(first_conclusion(pw, k as int, 3) == Some(c@));
            }
            return Some(c);
        }
        proof {
            assert(first_conclusion(pw, k as int, 3) == first_conclusion(pw, k + 1, 3));
        }
        k += 1;
    }
    proof {
        assert(first_conclusion(pw, limit as int, 3) is None);
    }
    None
}

/// Equal copies of `ms[from..to]`.
fn copy_messages(ms: &Vec<ChatMessage>, from: usize, to: usize) -> (r: Vec<ChatMessage>)
    requires
        from <= to <= ms@.len(),
    ensures
        r@ == ms@.subrange(from as int, to as int),
{
    let mut r: Vec<ChatMessage> = Vec::new();
    let mut i: usize = from;
    while i < to
        invariant
            from <= i <= to <= ms@.len(),
            r@ == ms@.subrange(from as int, i as int),
        decreases to - i,
    {
        r.push(ms[i].duplicate());
        assert(r@ =~= ms@.subrange(from as int, i + 1));
        i += 1;
    }
    r
}

} // verus!
