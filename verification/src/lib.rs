//! A board of apps, each with an agent of its own, that talk to their user and to each other.

use vstd::prelude::*;

pub mod app;
pub mod channel;
pub mod child;
pub mod cli;
pub mod conversation;
pub mod error;
pub mod frontmatter;
pub mod gateway;
pub mod guardrail;
pub mod hardened_prompts;
pub mod host;
pub mod json_object;
pub mod jsonl;
pub mod markdown;
pub mod name_map;
pub mod name_set;
pub mod protocol;
pub mod text;

verus! {

} // verus!
