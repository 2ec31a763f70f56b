//! Messages and the entries that a conversation is made of.

use vstd::prelude::*;
use vstd::string::*;

verus! {

/// What a user says.
#[derive(Debug, Clone, PartialEq)]
pub enum UserContent {
    Text(String),
}

/// A call of a tool that the model asks for.
#[derive(Debug, Clone, PartialEq)]
pub struct ToolCall {
    /// Its place among the calls of one message.
    pub index: Option<usize>,
    pub id: String,
    /// What is called; so far always a function.
    pub kind: String,
    pub function: FunctionCall,
    /// The calls that come before it.
    pub depends_on: Option<Vec<String>>,
}

/// A function and what it is called with.
#[derive(Debug, Clone, PartialEq)]
pub struct FunctionCall {
    pub name: String,
    pub arguments: String,
}

/// A message of a conversation.
#[allow(inconsistent_fields)]
#[derive(Debug, Clone, PartialEq)]
pub enum Message {
    System { content: String },
    User { content: UserContent },
    Assistant {
        content: Option<String>,
        reasoning_content: Option<String>,
        tool_calls: Option<Vec<ToolCall>>,
        partial: Option<bool>,
    },
    Tool { tool_call_id: String, name: Option<String>, content: String },
}

/// Where an entry comes from.
#[derive(Debug, Clone, PartialEq)]
pub enum EntryOrigin {
    User { channel: String },
    Assistant,
    System,
}

/// What Telegram's part of an entry's channel metadata holds.
#[derive(Debug, Clone, Copy, PartialEq, Eq)]
pub struct TelegramMetadata {
    pub chat_id: Option<i64>,
    pub message_id: Option<i64>,
}

/// One entry of a conversation.
#[derive(Debug, Clone, PartialEq)]
pub struct Entry {
    pub id: usize,
    pub parent_id: Option<usize>,
    pub message: Message,
    pub origin: EntryOrigin,
    pub channel_metadata: Option<TelegramMetadata>,
}

impl Message {
    /// The text of a message; empty where the assistant said nothing.
    pub open spec fn text(self) -> Seq<char> {
        match self {
            Message::System { content } => content@,
            Message::User { content: UserContent::Text(t) } => t@,
            Message::Assistant { content: Some(t), .. } => t@,
            Message::Assistant { content: None, .. } => Seq::empty(),
            Message::Tool { content, .. } => content@,
        }
    }

    /// What the assistant says, and nothing else.
    pub fn said(text: String) -> (m: Self)
        ensures
            m == (Message::Assistant {
                content: Some(text),
                reasoning_content: None,
                tool_calls: None,
                partial: None,
            }),
    {
        Message::Assistant {
            content: Some(text),
            reasoning_content: None,
            tool_calls: None,
            partial: None,
        }
    }

    /// The text of a message; empty where the assistant said nothing.
    pub fn content_text(&self) -> (r: String)
        ensures
            r@ == self.text(),
    {
        match self {
            Message::System { content } => content.clone(),
            Message::User { content: UserContent::Text(t) } => t.clone(),
            Message::Assistant { content: Some(t), .. } => t.clone(),
            Message::Assistant { content: None, .. } => String::new(),
            Message::Tool { content, .. } => content.clone(),
        }
    }
}

/// A message's text is all that was said in it, whoever said it.
pub proof fn text_is_what_was_said(t: String, m: Message)
    ensures
        (Message::System { content: t }).text() == t@,
        (Message::User { content: UserContent::Text(t) }).text() == t@,
        m matches Message::Assistant { content: Some(u), .. } ==> m.text() == u@,
        m matches Message::Assistant { content: None, .. } ==> m.text() == Seq::<char>::empty(),
        m matches Message::Tool { content, .. } ==> m.text() == content@,
{
}

} // verus!
