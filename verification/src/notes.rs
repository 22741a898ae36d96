//! File-based notes store: a curated long-term note and a per-day scratch
//! note, read-composed into a budgeted prompt excerpt. All file I/O happens
//! outside; this module owns the paths and the budgeting logic.

use vstd::prelude::*;

use crate::text::chars_of;
use crate::text::dec_spec;
use crate::text::format_u64;
use crate::text::push_all;
use crate::text::rfind_sub_before;
use crate::text::rfind_within;
use crate::text::seqs_of;
use crate::text::string_from;

verus! {

/// Token budget the assistant allows for notes context.
pub const MAX_CONTEXT_TOKENS: usize = 2000;

/// Characters per token assumed when budgeting.
pub const CHARS_PER_TOKEN: usize = 4;

/// Character budget for the notes excerpt of a prompt.
pub const MAX_CONTEXT_CHARS: usize = 8000;

/// `truncate(s, max)` when `s` is too long and a separator occurrence at `p`
/// was chosen: everything up to and including the separator, plus the marker.
pub open spec fn cut_at(s: Seq<char>, p: int, sep_len: int) -> Seq<char> {
    s.take(p + sep_len) + "\n... (truncated)"@
}

/// Budgeted truncation: the text unchanged when it fits, else cut at the
/// boundary nearest the budget edge, searching backward for a paragraph
/// break, a sentence end, a line break, then a space, before a hard cut;
/// always with a truncation marker.
pub open spec fn truncate_spec(s: Seq<char>, max: int) -> Seq<char> {
    if s.len() <= max {
        s
    } else {
        let ta = if max >= 20 {
            max - 20
        } else {
            0
        };
        let p1 = rfind_within(s, "\n\n"@, ta);
        let p2 = rfind_within(s, ".\n"@, ta);
        let p3 = rfind_within(s, ". "@, ta);
        let p4 = rfind_within(s, "\n"@, ta);
        let ps = rfind_within(s, " "@, ta);
        if p1 >= 0 && p1 > ta / 2 {
            cut_at(s, p1, 2)
        } else if p2 >= 0 && p2 > ta / 2 {
            cut_at(s, p2, 2)
        } else if p3 >= 0 && p3 > ta / 2 {
            cut_at(s, p3, 2)
        } else if p4 >= 0 && p4 > ta / 2 {
            cut_at(s, p4, 1)
        } else if ps >= 0 && ps > ta / 2 {
            s.take(ps) + " ... (truncated)"@
        } else {
            s.take(ta) + "... (truncated)"@
        }
    }
}

/// The truncated text never exceeds the budget plus the marker length, and
/// fits the budget itself once the budget covers the marker.
pub proof fn lemma_truncate_bound(s: Seq<char>, max: int)
    requires
        max >= 0,
    ensures
        truncate_spec(s, max).len() <= max + 16,
        max >= 20 ==> truncate_spec(s, max).len() <= max,
        s.len() <= max ==> truncate_spec(s, max) == s,
{
    if s.len() > max {
        let ta = if max >= 20 {
            max - 20
        } else {
            0
        };
        lemma_rfind_le(s, "\n\n"@, ta);
        lemma_rfind_le(s, ".\n"@, ta);
        lemma_rfind_le(s, ". "@, ta);
        lemma_rfind_le(s, "\n"@, ta);
        lemma_rfind_le(s, " "@, ta);
        reveal_strlit("\n... (truncated)");
        reveal_strlit(" ... (truncated)");
        reveal_strlit("... (truncated)");
        reveal_strlit("\n\n");
        reveal_strlit(".\n");
        reveal_strlit(". ");
        reveal_strlit("\n");
        reveal_strlit(" ");
    }
}

/// A found separator occurrence ends within the search limit.
proof fn lemma_rfind_le(s: Seq<char>, pat: Seq<char>, limit: int)
    requires
        0 <= limit <= s.len(),
    ensures
        rfind_within(s, pat, limit) >= 0 ==> rfind_within(s, pat, limit) + pat.len() <= limit,
    decreases limit,
{
    if limit > 0 && !crate::text::occurs_at(s, pat, limit - pat.len()) {
        lemma_rfind_le(s, pat, limit - 1);
    } else if limit > 0 {
        if !(crate::text::occurs_at(s, pat, limit - pat.len()) && limit - pat.len() + pat.len()
            <= limit) {
            lemma_rfind_le(s, pat, limit - 1);
        }
    }
}

/// Truncate `content` to at most `max_chars` characters (for budgets of at
/// least the marker length), preferring paragraph, sentence, line and word
/// boundaries near the budget edge.
pub fn truncate(content: &str, max_chars: usize) -> (r: String)
    ensures
        r@ == truncate_spec(content@, max_chars as int),
{
    proof {
        reveal_strlit("\n\n");
        reveal_strlit(".\n");
        reveal_strlit(". ");
        reveal_strlit("\n");
        reveal_strlit(" ");
        reveal_strlit("\n... (truncated)");
        reveal_strlit(" ... (truncated)");
        reveal_strlit("... (truncated)");
    }
    let s = chars_of(content);
    if s.len() <= max_chars {
        return string_from(&s);
    }
    let ta = if max_chars >= 20 {
        max_chars - 20
    } else {
        0
    };
    let half = ta / 2;
    if let Some(p) = rfind_sub_before(&s, &chars_of("\n\n"), ta) {
        if p > half {
            let mut r = crate::text::slice_range(&s, 0, p + 2);
            push_all(&mut r, &chars_of("\n... (truncated)"));
            assert(r@ =~= truncate_spec(content@, max_chars as int));
            return string_from(&r);
        }
    }
    if let Some(p) = rfind_sub_before(&s, &chars_of(".\n"), ta) {
        if p > half {
            let mut r = crate::text::slice_range(&s, 0, p + 2);
            push_all(&mut r, &chars_of("\n... (truncated)"));
            assert(r@ =~= truncate_spec(content@, max_chars as int));
            return string_from(&r);
        }
    }
    if let Some(p) = rfind_sub_before(&s, &chars_of(". "), ta) {
        if p > half {
            let mut r = crate::text::slice_range(&s, 0, p + 2);
            push_all(&mut r, &chars_of("\n... (truncated)"));
            assert(r@ =~= truncate_spec(content@, max_chars as int));
            return string_from(&r);
        }
    }
    if let Some(p) = rfind_sub_before(&s, &chars_of("\n"), ta) {
        if p > half {
            let mut r = crate::text::slice_range(&s, 0, p + 1);
            push_all(&mut r, &chars_of("\n... (truncated)"));
            assert(r@ =~= truncate_spec(content@, max_chars as int));
            return string_from(&r);
        }
    }
    if let Some(p) = rfind_sub_before(&s, &chars_of(" "), ta) {
        if p > half {
            let mut r = crate::text::slice_range(&s, 0, p);
            push_all(&mut r, &chars_of(" ... (truncated)"));
            assert(r@ =~= truncate_spec(content@, max_chars as int));
            return string_from(&r);
        }
    }
    let mut r = crate::text::slice_range(&s, 0, ta);
    push_all(&mut r, &chars_of("... (truncated)"));
    assert(r@ =~= truncate_spec(content@, max_chars as int));
    string_from(&r)
}

/// The composed notes excerpt: long-term notes get 60% of the budget,
/// today's notes the remainder when at least 100 characters of budget are
/// left; empty sections are omitted.
pub open spec fn memory_context_spec(lt: Seq<char>, today: Seq<char>, max: int) -> Seq<char> {
    let ltb = max * 6 / 10;
    let t1 = truncate_spec(lt, ltb);
    let remaining = if lt.len() == 0 {
        max
    } else if max >= t1.len() {
        max - t1.len()
    } else {
        0
    };
    let part1 = "## Long-term Memory\n"@ + t1;
    let part2 = "## Today's Notes\n"@ + truncate_spec(today, remaining);
    if lt.len() == 0 && (today.len() == 0 || remaining <= 100) {
        Seq::empty()
    } else if lt.len() == 0 {
        part2
    } else if today.len() == 0 || remaining <= 100 {
        part1
    } else {
        part1 + "\n\n"@ + part2
    }
}

/// Budget conformance: the excerpt stays within the budget plus the fixed
/// header/marker overhead, and the long-term share never exceeds 60% of the
/// budget plus the marker.
pub proof fn lemma_context_budget(lt: Seq<char>, today: Seq<char>, max: int)
    requires
        max >= 0,
    ensures
        memory_context_spec(lt, today, max).len() <= max + 55,
        truncate_spec(lt, max * 6 / 10).len() <= max * 6 / 10 + 16,
{
    let ltb = max * 6 / 10;
    lemma_truncate_bound(lt, ltb);
    let t1 = truncate_spec(lt, ltb);
    let remaining = if lt.len() == 0 {
        max
    } else if max >= t1.len() {
        max - t1.len()
    } else {
        0
    };
    lemma_truncate_bound(today, remaining);
    reveal_strlit("## Long-term Memory\n");
    reveal_strlit("## Today's Notes\n");
    reveal_strlit("\n\n");
    assert(ltb <= max) by (nonlinear_arith)
        requires
            max >= 0,
            ltb == max * 6 / 10,
    ;
}

/// Paths of the two durable note files of a workspace, and the composition
/// of their contents into a budgeted excerpt.
pub struct MemoryStore {
    workspace: String,
    memory_dir: String,
    memory_file: String,
}

/// A calendar date as plain values, for naming the daily note file.
pub struct DateStamp {
    pub year: u32,
    pub month: u32,
    pub day: u32,
}

/// Left-pad with zeros to width `w`.
pub open spec fn zpad(s: Seq<char>, w: int) -> Seq<char>
    decreases w,
{
    if s.len() >= w || w <= 0 {
        s
    } else {
        seq!['0'] + zpad(s, w - 1)
    }
}

fn zpad_exec(s: Vec<char>, w: usize) -> (r: Vec<char>)
    ensures
        r@ == zpad(s@, w as int),
{
    let mut missing: usize = if s.len() >= w {
        0
    } else {
        w - s.len()
    };
    let mut r: Vec<char> = Vec::new();
    let mut i: usize = 0;
    while i < missing
        invariant
            missing == if s@.len() >= w {
                0int
            } else {
                w - s@.len()
            },
            0 <= i <= missing,
            r@.len() == i,
            forall|t: int| 0 <= t < i ==> r@[t] == '0',
        decreases missing - i,
    {
        r.push('0');
        i += 1;
    }
    push_all(&mut r, &s);
    proof {
        lemma_zpad_shape(s@, w as int);
        assert(r@ =~= zpad(s@, w as int));
    }
    r
}

proof fn lemma_zpad_shape(s: Seq<char>, w: int)
    ensures
        zpad(s, w).len() == if s.len() >= w || w <= 0 {
            s.len() as int
        } else {
            w
        },
        zpad(s, w).skip(zpad(s, w).len() - s.len()) == s,
        forall|t: int| 0 <= t < zpad(s, w).len() - s.len() ==> zpad(s, w)[t] == '0',
    decreases w,
{
    if s.len() >= w || w <= 0 {
        assert(zpad(s, w) == s);
        assert(s.skip(0) =~= s);
    } else {
        lemma_zpad_shape(s, w - 1);
        assert(zpad(s, w) == seq!['0'] + zpad(s, w - 1));
        assert(zpad(s, w).skip(zpad(s, w).len() - s.len()) =~= zpad(s, w - 1).skip(
            zpad(s, w - 1).len() - s.len(),
        ));
    }
}

/// The daily note file name for a date: zero-padded year, month and day.
pub open spec fn date_name_spec(d: DateStamp) -> Seq<char> {
    zpad(dec_spec(d.year as int), 4) + "-"@ + zpad(dec_spec(d.month as int), 2) + "-"@ + zpad(
        dec_spec(d.day as int),
        2,
    ) + ".md"@
}

impl MemoryStore {
    /// A store rooted at a workspace directory; notes live under its
    /// `memory` subdirectory.
    pub fn new(workspace: String) -> (r: MemoryStore)
        ensures
            r.workspace_view() == workspace@,
            r.memory_dir_view() == workspace@ + "/memory"@,
            r.memory_file_view() == workspace@ + "/memory"@ + "/MEMORY.md"@,
    {
        let mut dir = chars_of(workspace.as_str());
        push_all(&mut dir, &chars_of("/memory"));
        let mut file = crate::text::slice_range(&dir, 0, dir.len());
        assert(file@ =~= dir@);
        push_all(&mut file, &chars_of("/MEMORY.md"));
        let r = MemoryStore {
            workspace,
            memory_dir: string_from(&dir),
            memory_file: string_from(&file),
        };
        r
    }

    pub closed spec fn workspace_view(&self) -> Seq<char> {
        self.workspace@
    }

    pub closed spec fn memory_dir_view(&self) -> Seq<char> {
        self.memory_dir@
    }

    pub closed spec fn memory_file_view(&self) -> Seq<char> {
        self.memory_file@
    }

    /// The workspace directory this store is rooted at.
    pub fn workspace(&self) -> (r: &String)
        ensures
            r@ == self.workspace_view(),
    {
        &self.workspace
    }

    /// Path of the long-term note file.
    pub fn long_term_file(&self) -> (r: &String)
        ensures
            r@ == self.memory_file_view(),
    {
        &self.memory_file
    }

    /// Path of the daily note file for the given date.
    pub fn get_today_file(&self, date: &DateStamp) -> (r: String)
        ensures
            r@ == self.memory_dir_view() + "/"@ + date_name_spec(*date),
    {
        let mut p = chars_of(self.memory_dir.as_str());
        push_all(&mut p, &chars_of("/"));
        push_all(&mut p, &zpad_exec(format_u64(date.year as u64), 4));
        push_all(&mut p, &chars_of("-"));
        push_all(&mut p, &zpad_exec(format_u64(date.month as u64), 2));
        push_all(&mut p, &chars_of("-"));
        push_all(&mut p, &zpad_exec(format_u64(date.day as u64), 2));
        push_all(&mut p, &chars_of(".md"));
        assert(p@ =~= self.memory_dir_view() + "/"@ + date_name_spec(*date));
        string_from(&p)
    }

    /// Compose the budgeted excerpt from the two note files' contents:
    /// long-term notes get 60% of the budget, today's notes the remainder
    /// when more than 100 characters are left.
    pub fn get_memory_context(&self, long_term: &str, today: &str, max_chars: usize) -> (r:
        String)
        requires
            max_chars <= 0x1000_0000,
        ensures
            r@ == memory_context_spec(long_term@, today@, max_chars as int),
    {
        proof {
            reveal_strlit("## Long-term Memory\n");
            reveal_strlit("## Today's Notes\n");
            reveal_strlit("\n\n");
        }
        let ltb = max_chars * 6 / 10;
        let lt = chars_of(long_term);
        let td = chars_of(today);
        let mut remaining = max_chars;
        let mut parts: Vec<Vec<char>> = Vec::new();
        if lt.len() > 0 {
            let t1 = truncate(long_term, ltb);
            let t1c = chars_of(t1.as_str());
            let mut part1 = chars_of("## Long-term Memory\n");
            push_all(&mut part1, &t1c);
            let ghost p1v = part1@;
            parts.push(part1);
            proof {
                assert(seqs_of(parts@) =~= seq![p1v]);
            }
            remaining = if remaining >= t1c.len() {
                remaining - t1c.len()
            } else {
                0
            };
        }
        if td.len() > 0 && remaining > 100 {
            let t2 = truncate(today, remaining);
            let mut part2 = chars_of("## Today's Notes\n");
            push_all(&mut part2, &chars_of(t2.as_str()));
            let ghost pre = seqs_of(parts@);
            let ghost p2v = part2@;
            parts.push(part2);
            proof {
                assert(seqs_of(parts@) =~= pre.push(p2v));
            }
        }
        let joined = crate::text::join_with(&parts, &chars_of("\n\n"));
        proof {
            let pv = seqs_of(parts@);
            if pv.len() == 2 {
                assert(pv.drop_first() =~= seq![pv[1]]);
                assert(crate::text::join_spec(seq![pv[1]], "\n\n"@) == pv[1]);
            }
        }
        assert(joined@ =~= memory_context_spec(long_term@, today@, max_chars as int));
        string_from(&joined)
    }
}

} // verus!
