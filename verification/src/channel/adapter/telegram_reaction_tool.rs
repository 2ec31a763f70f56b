//! The tool with which the model reacts to a message.

use vstd::prelude::*;
use crate::text;
use vstd::string::*;

verus! {

/// What a tool gives back to the model.
#[derive(Debug, Clone, PartialEq, Eq)]
pub struct ToolOutcome {
    pub content: String,
    pub is_error: bool,
}

/// The tool's arguments, each as far as it is there and of its kind.
#[derive(Debug, Clone, PartialEq, Eq)]
pub struct ReactionArguments {
    pub action: Option<String>,
    pub emoji: Option<String>,
    pub message_id: Option<i64>,
}

/// A reaction to set on a message, or to take away where there is no emoji.
#[derive(Debug, Clone, PartialEq, Eq)]
pub struct ReactionRequest {
    pub chat_id: i64,
    pub message_id: i32,
    pub emoji: Option<String>,
}

/// What the arguments say.
#[verifier::ext_equal]
pub struct ArgumentsView {
    pub action: Option<Seq<char>>,
    pub emoji: Option<Seq<char>>,
    pub message_id: Option<i64>,
}

impl View for ReactionArguments {
    type V = ArgumentsView;

    open spec fn view(&self) -> ArgumentsView {
        ArgumentsView {
            action: text::opt_view(self.action),
            emoji: text::opt_view(self.emoji),
            message_id: self.message_id,
        }
    }
}

/// What a parse says: the arguments, or why there are none.
pub open spec fn parse_view(r: Result<ReactionArguments, String>) -> Result<
    ArgumentsView,
    Seq<char>,
> {
    match r {
        Ok(a) => Ok(a@),
        Err(e) => Err(e@),
    }
}

/// What `serde_json` reads from a text: the strings under `action` and `emoji` and the integer
/// under `message_id`, or its error.
pub uninterp spec fn json_arguments(arguments: Seq<char>) -> Result<ArgumentsView, Seq<char>>;

/// `serde_json::from_str` into a `Value`, the fields of which are then read with `as_str` and
/// `as_i64`. The result depends on the text alone.
#[verifier::external_body]
fn parse_arguments(arguments: &str) -> (r: Result<ReactionArguments, String>)
    ensures
        parse_view(r) == json_arguments(arguments@),
{
    match serde_json::from_str::<serde_json::Value>(arguments) {
        Ok(v) => Ok(ReactionArguments {
            action: v["action"].as_str().map(str::to_owned),
            emoji: v["emoji"].as_str().map(str::to_owned),
            message_id: v["message_id"].as_i64(),
        }),
        Err(e) => Err(e.to_string()),
    }
}

/// The tool's name.
pub fn name() -> (r: &'static str)
    ensures
        r@ == "telegram_reaction"@,
{
    "telegram_reaction"
}

/// An outcome that is an error with this text.
pub open spec fn failed_with(o: ToolOutcome, content: Seq<char>) -> bool {
    o.is_error && o.content@ == content
}

/// The request is to take the reaction away.
pub open spec fn is_unset(a: ArgumentsView) -> bool {
    a.action == Some("unset"@)
}

/// What to do with parsed arguments. The parse comes first, then the emoji, the message and the
/// chat: the first one that is missing is named.
pub open spec fn plans(
    r: Result<ReactionRequest, ToolOutcome>,
    parsed: Result<ArgumentsView, Seq<char>>,
    chat_id: Option<i64>,
) -> bool {
    match parsed {
        Err(e) => r matches Err(o) && failed_with(o, "Failed to parse arguments: "@ + e),
        Ok(a) => match (a.emoji, a.message_id, chat_id) {
            (None, _, _) => r matches Err(o) && failed_with(
                o,
                "Missing required parameter: emoji"@,
            ),
            (Some(_), None, _) => r matches Err(o) && failed_with(
                o,
                "Missing required parameter: message_id"@,
            ),
            (Some(_), Some(_), None) => r matches Err(o) && failed_with(
                o,
                "No active Telegram chat. Send a message first."@,
            ),
            (Some(emoji), Some(id), Some(chat)) => r matches Ok(q) && q.chat_id == chat
                && q.message_id == id as i32 && text::opt_view(q.emoji) == (if is_unset(a) {
                None
            } else {
                Some(emoji)
            }),
        },
    }
}

fn failure(content: &str) -> (o: ToolOutcome)
    ensures
        failed_with(o, content@),
{
    ToolOutcome { content: content.to_string(), is_error: true }
}

/// What to do with parsed arguments.
pub fn plan_parsed(parsed: Result<ReactionArguments, String>, chat_id: Option<i64>) -> (r: Result<
    ReactionRequest,
    ToolOutcome,
>)
    ensures
        plans(r, parse_view(parsed), chat_id),
{
    match parsed {
        Err(e) => Err(
            failure(text::concat2("Failed to parse arguments: ", e.as_str()).as_str()),
        ),
        Ok(a) => {
            let unset = match &a.action {
                Some(action) => text::same(action.as_str(), "unset"),
                None => false,
            };
            let emoji = match a.emoji {
                Some(e) => e,
                None => {
                    return Err(failure("Missing required parameter: emoji"));
                },
            };
            let message_id: i32 = match a.message_id {
                Some(id) => #[verifier::truncate] (id as i32),
                None => {
                    return Err(failure("Missing required parameter: message_id"));
                },
            };
            match chat_id {
                None => Err(failure("No active Telegram chat. Send a message first.")),
                Some(chat) => Ok(
                    ReactionRequest {
                        chat_id: chat,
                        message_id,
                        emoji: if unset {
                            None
                        } else {
                            Some(emoji)
                        },
                    },
                ),
            }
        },
    }
}

/// What to do with the arguments of a call.
pub fn plan_reaction(arguments: &str, chat_id: Option<i64>) -> (r: Result<
    ReactionRequest,
    ToolOutcome,
>)
    ensures
        plans(r, json_arguments(arguments@), chat_id),
{
    plan_parsed(parse_arguments(arguments), chat_id)
}

/// What the model is told after the request was carried out, or why it was not.
pub fn reaction_outcome(request: &ReactionRequest, result: &Result<(), String>) -> (o: ToolOutcome)
    ensures
        match *result {
            Ok(()) => !o.is_error && o.content@ == "Reaction "@ + (match request.emoji {
                Some(e) => e@,
                None => "removed"@,
            }) + " on message "@ + text::decimal_int(request.message_id as int),
            Err(e) => failed_with(o, "Failed to set reaction: "@ + e@),
        },
{
    match result {
        Ok(()) => {
            let mut content: String = "Reaction ".to_string();
            match &request.emoji {
                Some(e) => {
                    content.append(e.as_str());
                },
                None => {
                    content.append("removed");
                },
            }
            content.append(" on message ");
            let id = text::decimal_int_string(request.message_id as i64);
            content.append(id.as_str());
            ToolOutcome { content, is_error: false }
        },
        Err(e) => failure(text::concat2("Failed to set reaction: ", e.as_str()).as_str()),
    }
}

/// A reaction is asked for exactly where the arguments can be read, name an emoji and a message, and
/// a chat is open; it is then about that message in that chat, and takes the emoji back where it is
/// to be unset.
pub proof fn a_complete_call_is_planned(
    r: Result<ReactionRequest, ToolOutcome>,
    parsed: Result<ArgumentsView, Seq<char>>,
    chat_id: Option<i64>,
)
    requires
        plans(r, parsed, chat_id),
    ensures
        r is Ok <==> (parsed matches Ok(a) && a.emoji is Some && a.message_id is Some && chat_id
            is Some),
        r matches Ok(q) ==> {
            let a = parsed->Ok_0;
            &&& q.chat_id == chat_id->0
            &&& q.message_id == a.message_id->0 as i32
            &&& a.action == Some("unset"@) ==> q.emoji is None
            &&& a.action != Some("unset"@) ==> (q.emoji matches Some(e) && Some(e@) == a.emoji)
        },
        r matches Err(o) ==> o.is_error,
{
}

/// A call that lacks something is told what it lacks: the emoji before the message, and both before
/// the chat.
pub proof fn a_call_is_told_what_it_lacks(
    r: Result<ReactionRequest, ToolOutcome>,
    a: ArgumentsView,
    chat_id: Option<i64>,
)
    requires
        plans(r, Ok(a), chat_id),
    ensures
        r is Ok <==> a.emoji is Some && a.message_id is Some && chat_id is Some,
        r matches Err(o) ==> o.is_error,
        a.emoji is None ==> r->Err_0.content@ == "Missing required parameter: emoji"@,
        a.emoji is Some && a.message_id is None ==> r->Err_0.content@
            == "Missing required parameter: message_id"@,
        a.emoji is Some && a.message_id is Some && chat_id is None ==> r->Err_0.content@
            == "No active Telegram chat. Send a message first."@,
{
}

/// Arguments that cannot be read are told with the reason.
pub proof fn unread_arguments_are_told(
    r: Result<ReactionRequest, ToolOutcome>,
    e: Seq<char>,
    chat_id: Option<i64>,
)
    requires
        plans(r, Err(e), chat_id),
    ensures
        r matches Err(o) && o.is_error && o.content@ == "Failed to parse arguments: "@ + e,
{
}

/// Arguments are seen with all their parts.
pub proof fn arguments_are_their_parts(a: ReactionArguments)
    ensures
        a@.message_id == a.message_id,
        a.emoji matches Some(s) ==> a@.emoji == Some(s@),
        a.emoji is None ==> a@.emoji is None,
        a.action matches Some(s) ==> a@.action == Some(s@),
        a.action is None ==> a@.action is None,
{
}

} // verus!
