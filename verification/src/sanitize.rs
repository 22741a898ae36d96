//! Sanitizers that neutralize markup and prompt-injection sequences before
//! text is stored or placed inside a model prompt.

use vstd::prelude::*;

use crate::chat::ChatMessage;
use crate::text::chars_of;
use crate::text::join_spec;
use crate::text::join_with;
use crate::text::lines_spec;
use crate::text::min_int;
use crate::text::occurs_at;
use crate::text::push_all;
use crate::text::replace_all;
use crate::text::replace_spec;
use crate::text::seqs_of;
use crate::text::split_lines;
use crate::text::starts_with_sub;
use crate::text::string_from;
use crate::text::take_chars;
use crate::text::to_upper;
use crate::text::trim_chars;
use crate::text::trim_spec;
use crate::text::upper_seq;

verus! {

/// Content shown inside a decision prompt: quotes escaped, newlines turned to
/// spaces, capped at 500 characters.
pub open spec fn sanitize_content_spec(s: Seq<char>) -> Seq<char> {
    let t = replace_spec(replace_spec(s, "\""@, "\\\""@), "\n"@, " "@);
    t.take(min_int(500, t.len() as int))
}

/// Escape quotes, flatten newlines and cap at 500 characters.
pub fn sanitize_content(text: &str) -> (r: String)
    ensures
        r@ == sanitize_content_spec(text@),
{
    proof {
        reveal_strlit("\"");
        reveal_strlit("\\\"");
        reveal_strlit("\n");
        reveal_strlit(" ");
    }
    let s = chars_of(text);
    let s = replace_all(&s, &chars_of("\""), &chars_of("\\\""));
    let s = replace_all(&s, &chars_of("\n"), &chars_of(" "));
    let s = take_chars(&s, 500);
    string_from(&s)
}

/// Content written into the store: angle brackets neutralized.
pub open spec fn sanitize_storage_spec(s: Seq<char>) -> Seq<char> {
    replace_spec(replace_spec(s, "<"@, "&lt;"@), ">"@, "&gt;"@)
}

/// Neutralize angle brackets before storing content.
pub fn sanitize_storage_content(text: &str) -> (r: String)
    ensures
        r@ == sanitize_storage_spec(text@),
{
    proof {
        reveal_strlit("<");
        reveal_strlit("&lt;");
        reveal_strlit(">");
        reveal_strlit("&gt;");
    }
    let s = chars_of(text);
    let s = replace_all(&s, &chars_of("<"), &chars_of("&lt;"));
    let s = replace_all(&s, &chars_of(">"), &chars_of("&gt;"));
    string_from(&s)
}

/// Transcript text placed inside an extraction prompt: fences and HTML-like
/// brackets neutralized, capped at 2000 characters plus an ellipsis.
pub open spec fn sanitize_prompt_spec(s: Seq<char>) -> Seq<char> {
    let t = replace_spec(s, "```"@, "'''"@);
    let t = replace_spec(t, "</"@, "&lt;/"@);
    let t = replace_spec(t, "<"@, "&lt;"@);
    let t = replace_spec(t, ">"@, "&gt;"@);
    if t.len() > 2000 {
        t.take(2000) + "..."@
    } else {
        t
    }
}

/// Neutralize prompt-injection sequences and cap the length.
pub fn sanitize_for_prompt(text: &str) -> (r: String)
    ensures
        r@ == sanitize_prompt_spec(text@),
{
    let s = chars_of(text);
    let r = sanitize_prompt_chars(&s);
    string_from(&r)
}

/// Character-level body of `sanitize_for_prompt`.
pub fn sanitize_prompt_chars(s: &Vec<char>) -> (r: Vec<char>)
    ensures
        r@ == sanitize_prompt_spec(s@),
{
    proof {
        reveal_strlit("```");
        reveal_strlit("'''");
        reveal_strlit("</");
        reveal_strlit("&lt;/");
        reveal_strlit("<");
        reveal_strlit("&lt;");
        reveal_strlit(">");
        reveal_strlit("&gt;");
        reveal_strlit("...");
    }
    let t = replace_all(s, &chars_of("```"), &chars_of("'''"));
    let t = replace_all(&t, &chars_of("</"), &chars_of("&lt;/"));
    let t = replace_all(&t, &chars_of("<"), &chars_of("&lt;"));
    let mut t = replace_all(&t, &chars_of(">"), &chars_of("&gt;"));
    if t.len() > 2000 {
        let mut capped = take_chars(&t, 2000);
        push_all(&mut capped, &chars_of("..."));
        return capped;
    }
    t
}

/// A model reply with a surrounding markdown code fence removed.
pub open spec fn strip_fences_spec(s: Seq<char>) -> Seq<char> {
    let t = trim_spec(s);
    if occurs_at(t, "```"@, 0) {
        let ls = lines_spec(t).drop_first();
        let ls2 = if ls.len() > 0 && occurs_at(trim_spec(ls[ls.len() - 1]), "```"@, 0) {
            ls.drop_last()
        } else {
            ls
        };
        trim_spec(join_spec(ls2, "\n"@))
    } else {
        t
    }
}

/// Remove a surrounding markdown code fence from a model reply.
pub fn strip_code_fences(content: &str) -> (r: String)
    ensures
        r@ == strip_fences_spec(content@),
{
    proof {
        reveal_strlit("```");
        reveal_strlit("\n");
    }
    let s = chars_of(content);
    let t = trim_chars(&s);
    let fence = chars_of("```");
    if !starts_with_sub(&t, &fence) {
        return string_from(&t);
    }
    let mut ls = split_lines(&t);
    assert(ls@.len() > 0) by {
        assert(t@.len() >= 3);
        assert(lines_spec(t@).len() > 0);
    }
    let ghost pre = seqs_of(ls@);
    let _ = ls.remove(0);
    proof {
        assert(seqs_of(ls@) =~= pre.drop_first());
    }
    if ls.len() > 0 {
        let last_trim = trim_chars(&ls[ls.len() - 1]);
        if starts_with_sub(&last_trim, &fence) {
            let ghost pre2 = seqs_of(ls@);
            let _ = ls.pop();
            proof {
                assert(seqs_of(ls@) =~= pre2.drop_last());
            }
        }
    }
    let joined = join_with(&ls, &chars_of("\n"));
    let out = trim_chars(&joined);
    string_from(&out)
}

/// The transcript line for one message: upper-cased role, a separator, and the
/// sanitized content capped at 500 characters.
pub open spec fn transcript_line(m: ChatMessage) -> Seq<char> {
    let c = sanitize_prompt_spec(m.content@);
    upper_seq(m.role@) + ": "@ + c.take(min_int(500, c.len() as int))
}

/// The transcript lines of the user and assistant messages of `ms`, in order.
pub open spec fn transcript_lines(ms: Seq<ChatMessage>) -> Seq<Seq<char>>
    decreases ms.len(),
{
    if ms.len() == 0 {
        Seq::empty()
    } else {
        let rest = transcript_lines(ms.drop_first());
        if ms[0].is_user() || ms[0].is_assistant() {
            seq![transcript_line(ms[0])] + rest
        } else {
            rest
        }
    }
}

/// The serialized transcript window: the last (up to) 20 messages, with one
/// role-tagged line per user or assistant message.
pub open spec fn conversation_spec(ms: Seq<ChatMessage>) -> Seq<char> {
    let w = ms.skip(if ms.len() > 20 {
        ms.len() - 20
    } else {
        0
    });
    join_spec(transcript_lines(w), "\n"@)
}

/// Serialize the last (up to) 20 messages into a role-tagged transcript.
pub fn format_conversation(messages: &Vec<ChatMessage>) -> (r: String)
    ensures
        r@ == conversation_spec(messages@),
{
    proof {
        reveal_strlit(": ");
        reveal_strlit("\n");
    }
    let n = messages.len();
    let start: usize = if n > 20 {
        n - 20
    } else {
        0
    };
    let ghost w = messages@.skip(start as int);
    let mut parts: Vec<Vec<char>> = Vec::new();
    let mut i: usize = start;
    proof {
        assert(w.skip(0) =~= w);
        assert(seqs_of(parts@) + transcript_lines(w) =~= transcript_lines(w));
    }
    while i < n
        invariant
            n == messages@.len(),
            start <= i <= n,
            w == messages@.skip(start as int),
            transcript_lines(w) == seqs_of(parts@) + transcript_lines(w.skip(i - start as int)),
        decreases n - i,
    {
        let ghost tail = w.skip(i - start as int);
        proof {
            assert(tail[0] == messages@[i as int]);
            assert(tail.drop_first() =~= w.skip(i - start + 1));
        }
        let m = &messages[i];
        if m.user_role() || m.assistant_role() {
            let roleu = to_upper(&chars_of(m.role.as_str()));
            let mut line = roleu;
            push_all(&mut line, &chars_of(": "));
            let c = sanitize_prompt_chars(&chars_of(m.content.as_str()));
            let c = take_chars(&c, 500);
            push_all(&mut line, &c);
            let ghost pre = seqs_of(parts@);
            let ghost lv = line@;
            parts.push(line);
            proof {
                assert(seqs_of(parts@) =~= pre.push(lv));
                assert(lv == transcript_line(tail[0]));
                assert(pre + (seq![transcript_line(tail[0])] + transcript_lines(
                    tail.drop_first(),
                )) =~= pre.push(lv) + transcript_lines(tail.drop_first()));
            }
        }
        i += 1;
    }
    assert(transcript_lines(w.skip(n - start as int)) =~= Seq::<Seq<char>>::empty());
    assert(seqs_of(parts@) + Seq::<Seq<char>>::empty() =~= seqs_of(parts@));
    let joined = join_with(&parts, &chars_of("\n"));
    string_from(&joined)
}

} // verus!
