//! The channels through which users talk to the agent.

pub mod adapter;
pub mod interpreter;

use vstd::prelude::*;
use crate::channel::interpreter::InterpretedMessage;
use vstd::string::*;

verus! {

/// What a channel hands to the agent.
#[derive(Debug, Clone)]
pub enum ChannelEvent {
    /// Something for the model to answer.
    UserInput { interpreted: InterpretedMessage, telegram_message_id: Option<i32> },
    /// Something that changes what is known, without an answer.
    InternalEvent(InternalEvent),
}

/// A channel's own events.
#[derive(Debug, Clone, PartialEq, Eq)]
pub enum InternalEvent {
    /// The channel's number for a message of the assistant's.
    UpdateAssistantMessageId { entry_id: usize, message_id: i32 },
    /// The part of the system prompt about reactions has changed.
    UpdateAvailableReactions { reaction_section: String },
}

/// What the agent answers.
#[derive(Debug, Clone, PartialEq, Eq)]
pub struct AgentResponse {
    pub text: String,
    pub entry_id: usize,
    pub is_final: bool,
    pub reply_to_message_id: Option<i32>,
}

} // verus!
