//! The Telegram dialect: markup, model output and the guardrails around it.

pub mod markup;
pub mod parser;
pub mod rereading;
pub mod round_trip;
pub mod telegram;
pub mod telegram_guardrails;
pub mod telegram_reaction_tool;
