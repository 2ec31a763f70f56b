//! The host: it relays between peers and surfaces, starts child machines and keeps the books.

pub mod accept;
pub mod broker;
pub mod child_run;
pub mod child_vm;
pub mod config;
pub mod outbox;
pub mod startup;
pub mod surface;

use vstd::prelude::*;
use crate::channel::adapter::telegram;
use crate::hardened_prompts;
use vstd::string::*;

verus! {

/// The model of a session where none is configured.
pub const DEFAULT_MODEL: &'static str = "kimi-for-coding";

/// The model of a session.
pub fn session_model(configured: Option<String>) -> (r: String)
    ensures
        r@ == (match configured {
            Some(m) => m@,
            None => DEFAULT_MODEL@,
        }),
{
    match configured {
        Some(m) => m,
        None => DEFAULT_MODEL.to_string(),
    }
}

/// The system prompt of the main agent: the parts, the guidance of the conventions and what the
/// channel asks for.
pub fn main_system_prompt(parts: Vec<String>, guidance: String) -> (prompt: String)
    ensures
        prompt@ == hardened_prompts::system_prompt(
            parts@.push(guidance),
            Some(telegram::TELEGRAM_PROMPT),
        ),
{
    let mut all: Vec<String> = parts;
    all.push(guidance);
    hardened_prompts::compose_system_prompt(all.as_slice(), Some(telegram::channel_prompt()))
}

} // verus!
