//! Per-turn decisions of the assistant loop: prompt composition, provider
//! failure classes and retry policy, history appends, and when an
//! extraction cycle is due. The loop itself, with its provider calls, runs
//! outside and consults these.

use vstd::prelude::*;

use crate::chat::ChatMessage;
use crate::text::chars_of;
use crate::text::contains_sub;
use crate::text::has_sub;
use crate::text::lower_seq;
use crate::text::push_all;
use crate::text::str_eq;
use crate::text::string_from;
use crate::text::to_lower;
use crate::text::trim_chars;
use crate::text::trim_spec;

verus! {

/// How many times one provider route is retried on transient failures.
pub const PER_ROUTE_MAX_RETRIES: usize = 2;

/// The failure class of a provider error message, by keyword.
pub open spec fn failure_class_spec(m: Seq<char>) -> Seq<char> {
    let l = lower_seq(m);
    if has_sub(l, "429"@) || has_sub(l, "rate limit"@) {
        "rate_limit"@
    } else if has_sub(l, "timeout"@) || has_sub(l, "timed out"@) || has_sub(l, "deadline"@) {
        "timeout"@
    } else if has_sub(l, "502"@) || has_sub(l, "503"@) || has_sub(l, "504"@) || has_sub(
        l,
        "connection reset"@,
    ) || has_sub(l, "temporarily unavailable"@) {
        "upstream"@
    } else if has_sub(l, "401"@) || has_sub(l, "403"@) || has_sub(l, "unauthorized"@) {
        "auth"@
    } else if has_sub(l, "400"@) || has_sub(l, "invalid request"@) || has_sub(l, "invalid model"@)
        || has_sub(l, "not found"@) {
        "request"@
    } else {
        "unknown"@
    }
}

/// Classify a provider error message into a retry class.
pub fn classify_failure(message: &str) -> (r: &'static str)
    ensures
        r@ == failure_class_spec(message@),
{
    let l = to_lower(&chars_of(message));
    if contains_sub(&l, &chars_of("429")) || contains_sub(&l, &chars_of("rate limit")) {
        "rate_limit"
    } else if contains_sub(&l, &chars_of("timeout")) || contains_sub(&l, &chars_of("timed out"))
        || contains_sub(&l, &chars_of("deadline")) {
        "timeout"
    } else if contains_sub(&l, &chars_of("502")) || contains_sub(&l, &chars_of("503"))
        || contains_sub(&l, &chars_of("504")) || contains_sub(&l, &chars_of("connection reset"))
        || contains_sub(&l, &chars_of("temporarily unavailable")) {
        "upstream"
    } else if contains_sub(&l, &chars_of("401")) || contains_sub(&l, &chars_of("403"))
        || contains_sub(&l, &chars_of("unauthorized")) {
        "auth"
    } else if contains_sub(&l, &chars_of("400")) || contains_sub(&l, &chars_of("invalid request"))
        || contains_sub(&l, &chars_of("invalid model")) || contains_sub(
        &l,
        &chars_of("not found"),
    ) {
        "request"
    } else {
        "unknown"
    }
}

/// Whether the same provider route is tried again: only transient classes,
/// and only below the per-route retry cap.
pub fn should_retry_same_route(class: &str, attempt: usize) -> (r: bool)
    ensures
        r == (attempt < PER_ROUTE_MAX_RETRIES && (class@ == "rate_limit"@ || class@ == "timeout"@
            || class@ == "upstream"@)),
{
    if attempt >= PER_ROUTE_MAX_RETRIES {
        return false;
    }
    str_eq(class, "rate_limit") || str_eq(class, "timeout") || str_eq(class, "upstream")
}

/// The session key of a conversation: its channel and chat id.
pub fn session_key(channel: &str, chat_id: &str) -> (r: String)
    ensures
        r@ == channel@ + ":"@ + chat_id@,
{
    let mut k = chars_of(channel);
    push_all(&mut k, &chars_of(":"));
    push_all(&mut k, &chars_of(chat_id));
    string_from(&k)
}

/// The prompt for one turn: the conversation context header, the notes
/// excerpt when there is one, and the user message.
pub open spec fn prompt_spec(
    channel: Seq<char>,
    chat_id: Seq<char>,
    sender_id: Seq<char>,
    file_memory: Seq<char>,
    user_text: Seq<char>,
) -> Seq<char> {
    let ctx = "[Conversation context]\nchannel: "@ + channel + "\nchat_id: "@ + chat_id
        + "\nsender_id: "@ + sender_id;
    if file_memory.len() == 0 {
        ctx + "\n\n[User message]\n"@ + user_text
    } else {
        ctx + "\n\n[Notes from memory]\n"@ + file_memory + "\n\n[User message]\n"@ + user_text
    }
}

/// Compose the prompt context handed to the completion provider: vector
/// recall is pulled separately at completion time, not pre-composed here.
pub fn compose_prompt_context(
    channel: &str,
    chat_id: &str,
    sender_id: &str,
    file_memory: &str,
    user_text: &str,
) -> (r: String)
    ensures
        r@ == prompt_spec(channel@, chat_id@, sender_id@, file_memory@, user_text@),
{
    let mut p = chars_of("[Conversation context]\nchannel: ");
    push_all(&mut p, &chars_of(channel));
    push_all(&mut p, &chars_of("\nchat_id: "));
    push_all(&mut p, &chars_of(chat_id));
    push_all(&mut p, &chars_of("\nsender_id: "));
    push_all(&mut p, &chars_of(sender_id));
    let fm = chars_of(file_memory);
    if fm.len() > 0 {
        push_all(&mut p, &chars_of("\n\n[Notes from memory]\n"));
        push_all(&mut p, &fm);
    }
    push_all(&mut p, &chars_of("\n\n[User message]\n"));
    push_all(&mut p, &chars_of(user_text));
    assert(p@ =~= prompt_spec(channel@, chat_id@, sender_id@, file_memory@, user_text@));
    string_from(&p)
}

/// Append a finished exchange to the stored history: the user text and the
/// assistant text each become a turn unless blank.
pub fn append_text_history(history: &mut Vec<ChatMessage>, user_text: &str, assistant_text: &str)
    ensures
        final(history)@.len() == old(history)@.len() + (if trim_spec(user_text@).len() > 0 {
            1int
        } else {
            0int
        }) + (if trim_spec(assistant_text@).len() > 0 {
            1int
        } else {
            0int
        }),
        forall|i: int| 0 <= i < old(history)@.len() ==> final(history)@[i] == old(history)@[i],
        trim_spec(user_text@).len() > 0 ==> {
            let m = final(history)@[old(history)@.len() as int];
            m.is_user() && m.content@ == user_text@
        },
        trim_spec(assistant_text@).len() > 0 ==> {
            let m = final(history)@.last();
            m.is_assistant() && m.content@ == assistant_text@
        },
{
    let ut = trim_chars(&chars_of(user_text));
    if ut.len() > 0 {
        history.push(ChatMessage::new("user", user_text.to_owned()));
    }
    let at = trim_chars(&chars_of(assistant_text));
    if at.len() > 0 {
        history.push(ChatMessage::new("assistant", assistant_text.to_owned()));
    }
}

/// Extraction runs only on every `interval`-th user turn.
pub fn should_run_extraction(user_count: usize, interval: usize) -> (r: bool)
    requires
        interval > 0,
    ensures
        r == (user_count > 0 && user_count % interval == 0),
{
    user_count > 0 && user_count % interval == 0
}

} // verus!
