//! The streams of the agent: what listeners are told, and what they may say.

use vstd::prelude::*;
use crate::conversation::{EntryOrigin, Message, UserContent};
use crate::text;
use vstd::string::*;

verus! {

/// What a listener says.
#[derive(Debug, Clone, PartialEq, Eq)]
pub struct ChatInboundMessage {
    pub kind: String,
    pub text: String,
}

pub const USER_MESSAGE: &'static str = "user_message";

/// The name of the gateway as a channel.
pub const GATEWAY_CHANNEL: &'static str = "gateway";

/// What came over a socket. A text is read where it can be.
#[derive(Debug, Clone, PartialEq, Eq)]
pub enum SocketEvent<T> {
    Text(Option<T>),
    Other,
    Closed,
    Failed,
}

/// What to do after something came over a chat's socket.
#[derive(Debug, Clone, PartialEq)]
pub enum ChatStep {
    /// The agent is to take the message in.
    Say { message: Message, origin: EntryOrigin },
    Continue,
    Stop,
}

/// A listener's words are the user's: a message of theirs that is not empty.
pub open spec fn is_said(m: ChatInboundMessage) -> bool {
    m.kind@ == USER_MESSAGE@ && m.text@.len() > 0
}

/// What to do after something came over a chat's socket.
pub fn chat_step(event: SocketEvent<ChatInboundMessage>) -> (step: ChatStep)
    ensures
        match event {
            SocketEvent::Text(Some(m)) => if is_said(m) {
                step matches ChatStep::Say { message, origin } && message == (Message::User {
                    content: UserContent::Text(m.text),
                }) && (origin matches EntryOrigin::User { channel } && channel@
                    == GATEWAY_CHANNEL@)
            } else {
                step is Continue
            },
            SocketEvent::Text(None) => step is Continue,
            SocketEvent::Other => step is Continue,
            SocketEvent::Closed => step is Stop,
            SocketEvent::Failed => step is Stop,
        },
{
    match event {
        SocketEvent::Text(Some(m)) => {
            if text::same(m.kind.as_str(), USER_MESSAGE) && text::to_chars(m.text.as_str()).len()
                > 0 {
                ChatStep::Say {
                    message: Message::User { content: UserContent::Text(m.text) },
                    origin: EntryOrigin::User { channel: GATEWAY_CHANNEL.to_string() },
                }
            } else {
                ChatStep::Continue
            }
        },
        SocketEvent::Text(None) => ChatStep::Continue,
        SocketEvent::Other => ChatStep::Continue,
        SocketEvent::Closed => ChatStep::Stop,
        SocketEvent::Failed => ChatStep::Stop,
    }
}

/// What a listener finds in its queue.
#[derive(Debug, Clone, PartialEq, Eq)]
pub enum StreamEvent<T> {
    Item(T),
    /// Some were missed.
    Lagged,
    Closed,
}

/// What to do with what a listener found.
#[derive(Debug, Clone, PartialEq, Eq)]
pub enum StreamStep<T> {
    Send(T),
    Continue,
    Stop,
}

/// What to do with what a listener found: who missed some goes on with what comes.
pub fn stream_step<T>(event: StreamEvent<T>) -> (step: StreamStep<T>)
    ensures
        step == (match event {
            StreamEvent::Item(x) => StreamStep::Send(x),
            StreamEvent::Lagged => StreamStep::Continue,
            StreamEvent::Closed => StreamStep::Stop,
        }),
{
    match event {
        StreamEvent::Item(x) => StreamStep::Send(x),
        StreamEvent::Lagged => StreamStep::Continue,
        StreamEvent::Closed => StreamStep::Stop,
    }
}

/// An empty message says nothing, and a message of another kind is not the user's.
pub proof fn only_words_are_said(m: ChatInboundMessage)
    ensures
        is_said(m) <==> m.kind@ == USER_MESSAGE@ && m.text@ != Seq::<char>::empty(),
{
    if m.text@.len() == 0 {
        assert(m.text@ =~= Seq::empty());
    }
}

} // verus!
