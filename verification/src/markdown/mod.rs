//! Markdown for the channels that take less of it than the model writes.

pub mod telegram;
