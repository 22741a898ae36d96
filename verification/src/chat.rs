//! Conversation messages: the shared currency between the extractor, the
//! compactor and the channel-facing history buffer.

use vstd::prelude::*;

use crate::text::str_eq;

verus! {

/// One turn of conversation: a role tag ("user", "assistant", "system") and
/// its text.
pub struct ChatMessage {
    pub role: String,
    pub content: String,
}

impl ChatMessage {
    pub open spec fn is_user(&self) -> bool {
        self.role@ == "user"@
    }

    pub open spec fn is_assistant(&self) -> bool {
        self.role@ == "assistant"@
    }

    pub open spec fn is_system(&self) -> bool {
        self.role@ == "system"@
    }

    pub fn new(role: &str, content: String) -> (r: ChatMessage)
        ensures
            r.role@ == role@,
            r.content == content,
    {
        ChatMessage { role: role.to_owned(), content }
    }

    pub fn user_role(&self) -> (r: bool)
        ensures
            r == self.is_user(),
    {
        str_eq(self.role.as_str(), "user")
    }

    pub fn assistant_role(&self) -> (r: bool)
        ensures
            r == self.is_assistant(),
    {
        str_eq(self.role.as_str(), "assistant")
    }

    pub fn system_role(&self) -> (r: bool)
        ensures
            r == self.is_system(),
    {
        str_eq(self.role.as_str(), "system")
    }

    /// A copy that is equal to `self`.
    pub fn duplicate(&self) -> (r: ChatMessage)
        ensures
            r == *self,
    {
        ChatMessage { role: self.role.clone(), content: self.content.clone() }
    }
}

/// Number of user-authored turns in `ms`.
pub open spec fn user_count_spec(ms: Seq<ChatMessage>) -> int
    decreases ms.len(),
{
    if ms.len() == 0 {
        0
    } else {
        user_count_spec(ms.drop_last()) + if ms[ms.len() - 1].is_user() {
            1int
        } else {
            0int
        }
    }
}

/// Count the user turns of a history.
pub fn count_user_turns(ms: &Vec<ChatMessage>) -> (r: usize)
    ensures
        r == user_count_spec(ms@),
{
    let mut r: usize = 0;
    let mut i: usize = 0;
    while i < ms.len()
        invariant
            0 <= i <= ms@.len(),
            r <= i,
            r == user_count_spec(ms@.take(i as int)),
        decreases ms@.len() - i,
    {
        proof {
            assert(ms@.take(i + 1).drop_last() =~= ms@.take(i as int));
            assert(ms@.take(i + 1)[i as int] == ms@[i as int]);
        }
        if ms[i].user_role() {
            r += 1;
        }
        i += 1;
    }
    assert(ms@.take(ms@.len() as int) =~= ms@);
    r
}

/// The response mode requested from a completion provider (for example
/// "json_object" for the strict-JSON decision calls).
pub struct ResponseFormat {
    pub kind: String,
}

/// A message arriving from a channel adapter.
#[derive(Debug)]
pub struct InboundMessage {
    pub channel: String,
    pub chat_id: String,
    pub sender_id: String,
    pub content: String,
}

/// A message leaving for a channel adapter.
#[derive(Debug)]
pub struct OutboundMessage {
    pub channel: String,
    pub chat_id: String,
    pub content: String,
}

} // verus!
