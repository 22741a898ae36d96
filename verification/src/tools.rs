//! The validated core of the assistant's tools: argument records, error
//! values, and the decisions tools make before any side effect happens.

use vstd::prelude::*;

use crate::chat::OutboundMessage;
use crate::text::chars_eq;
use crate::text::chars_of;
use crate::text::lower_seq;
use crate::text::str_eq;
use crate::text::string_from;
use crate::text::to_lower;
use crate::text::trim_chars;
use crate::text::trim_spec;

verus! {

/// How a yes/no answer reads: affirmative and negative spellings, matched
/// case-insensitively after trimming; anything else is indeterminate.
pub open spec fn bool_input_spec(s: Seq<char>) -> Option<bool> {
    let t = lower_seq(trim_spec(s));
    if t == "1"@ || t == "true"@ || t == "yes"@ || t == "y"@ {
        Some(true)
    } else if t == "0"@ || t == "false"@ || t == "no"@ || t == "n"@ {
        Some(false)
    } else {
        None
    }
}

/// Read a yes/no answer from interactive configuration input.
pub fn parse_bool_input(value: &str) -> (r: Option<bool>)
    ensures
        r == bool_input_spec(value@),
{
    let t = to_lower(&trim_chars(&chars_of(value)));
    if chars_eq(&t, &chars_of("1")) || chars_eq(&t, &chars_of("true")) || chars_eq(
        &t,
        &chars_of("yes"),
    ) || chars_eq(&t, &chars_of("y")) {
        Some(true)
    } else if chars_eq(&t, &chars_of("0")) || chars_eq(&t, &chars_of("false")) || chars_eq(
        &t,
        &chars_of("no"),
    ) || chars_eq(&t, &chars_of("n")) {
        Some(false)
    } else {
        None
    }
}

/// A tool failure, as a message for the model to read.
#[derive(Debug)]
pub struct ToolError(pub String);

impl ToolError {
    pub fn msg(msg: &str) -> (r: ToolError)
        ensures
            r.0@ == msg@,
    {
        ToolError(msg.to_owned())
    }

    /// The failure text.
    pub fn message(&self) -> (r: &String)
        ensures
            r@ == self.0@,
    {
        &self.0
    }
}

/// Arguments of the message-sending tool.
pub struct SendMessageArgs {
    pub channel: String,
    pub chat_id: String,
    pub content: String,
}

/// Validate a send request: every field trimmed, none may be blank. On
/// success the outbound message carries the trimmed fields.
pub fn validate_send(args: &SendMessageArgs) -> (r: Result<OutboundMessage, ToolError>)
    ensures
        match r {
            Ok(m) => {
                &&& trim_spec(args.channel@).len() > 0
                &&& trim_spec(args.chat_id@).len() > 0
                &&& trim_spec(args.content@).len() > 0
                &&& m.channel@ == trim_spec(args.channel@)
                &&& m.chat_id@ == trim_spec(args.chat_id@)
                &&& m.content@ == trim_spec(args.content@)
            },
            Err(e) => {
                ||| (trim_spec(args.channel@).len() == 0 && e.0@
                    == "Missing required field: channel"@)
                ||| (trim_spec(args.channel@).len() > 0 && trim_spec(args.chat_id@).len() == 0
                    && e.0@ == "Missing required field: chat_id"@)
                ||| (trim_spec(args.channel@).len() > 0 && trim_spec(args.chat_id@).len() > 0
                    && trim_spec(args.content@).len() == 0 && e.0@
                    == "Missing required field: content"@)
            },
        },
{
    let channel = trim_chars(&chars_of(args.channel.as_str()));
    let chat_id = trim_chars(&chars_of(args.chat_id.as_str()));
    let content = trim_chars(&chars_of(args.content.as_str()));
    if channel.len() == 0 {
        return Err(ToolError::msg("Missing required field: channel"));
    }
    if chat_id.len() == 0 {
        return Err(ToolError::msg("Missing required field: chat_id"));
    }
    if content.len() == 0 {
        return Err(ToolError::msg("Missing required field: content"));
    }
    Ok(
        OutboundMessage {
            channel: string_from(&channel),
            chat_id: string_from(&chat_id),
            content: string_from(&content),
        },
    )
}

/// Arguments of the schedule-management tool.
pub struct CronArgs {
    /// One of "add", "list", "remove", "status".
    pub action: String,
    pub name: Option<String>,
    pub message: Option<String>,
    pub schedule: Option<String>,
    pub channel: Option<String>,
    pub to: Option<String>,
    pub id: Option<String>,
}

/// A validated schedule-management request.
pub enum CronAction {
    Add { name: String, message: String, schedule: String, channel: Option<String>, to: Option<String> },
    List,
    Remove { id: String },
    Status,
}

/// Validate a schedule-management request: an addition needs a name, a
/// message and a schedule; a removal needs an id; unknown actions are
/// rejected.
pub fn parse_cron_args(args: CronArgs) -> (r: Result<CronAction, ToolError>)
    ensures
        args.action@ == "list"@ ==> r matches Ok(CronAction::List),
        args.action@ == "status"@ ==> r matches Ok(CronAction::Status),
        args.action@ == "add"@ ==> (match r {
            Ok(CronAction::Add { name, message, schedule, channel, to }) => {
                &&& args.name is Some && name@ == args.name->Some_0@
                &&& args.message is Some && message@ == args.message->Some_0@
                &&& args.schedule is Some && schedule@ == args.schedule->Some_0@
                &&& channel == args.channel
                &&& to == args.to
            },
            Err(_) => args.name is None || args.message is None || args.schedule is None,
            _ => false,
        }),
        args.action@ == "remove"@ ==> (match r {
            Ok(CronAction::Remove { id }) => args.id is Some && id@ == args.id->Some_0@,
            Err(_) => args.id is None,
            _ => false,
        }),
        args.action@ != "add"@ && args.action@ != "list"@ && args.action@ != "remove"@
            && args.action@ != "status"@ ==> r is Err,
{
    proof {
        broadcast use vstd::string::group_string_axioms;

        reveal_strlit("add");
        reveal_strlit("list");
        reveal_strlit("remove");
        reveal_strlit("status");
        assert("add"@.len() == 3);
        assert("list"@.len() == 4);
        assert("remove"@.len() == 6);
        assert("status"@.len() == 6);
        assert("remove"@[0] == 'r');
        assert("status"@[0] == 's');
        assert("add"@ != "list"@ && "add"@ != "remove"@ && "add"@ != "status"@);
        assert("list"@ != "remove"@ && "list"@ != "status"@);
        assert("remove"@ != "status"@);
    }
    if str_eq(args.action.as_str(), "list") {
        Ok(CronAction::List)
    } else if str_eq(args.action.as_str(), "status") {
        Ok(CronAction::Status)
    } else if str_eq(args.action.as_str(), "add") {
        match (args.name, args.message, args.schedule) {
            (Some(name), Some(message), Some(schedule)) => Ok(
                CronAction::Add { name, message, schedule, channel: args.channel, to: args.to },
            ),
            _ => Err(ToolError::msg("add requires name, message and schedule")),
        }
    } else if str_eq(args.action.as_str(), "remove") {
        match args.id {
            Some(id) => Ok(CronAction::Remove { id }),
            None => Err(ToolError::msg("remove requires id")),
        }
    } else {
        Err(ToolError::msg("unknown action; use add, list, remove or status"))
    }
}

} // verus!
