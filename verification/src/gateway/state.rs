//! What the gateway knows.

use vstd::prelude::*;
use crate::conversation::Entry;
use crate::gateway::error::GatewayError;
use vstd::string::*;

verus! {

/// How many announcements wait for a slow listener.
pub const BROADCAST_CAPACITY: usize = 256;

/// What the gateway knows: the entries so far, the prompts, and whether there is a board.
#[derive(Debug)]
pub struct GatewayState {
    pub entries: Vec<Entry>,
    pub system_prompt: String,
    pub identity_prompt: String,
    pub soul_prompt: String,
    pub events_path: Option<String>,
    pub has_apps: bool,
}

impl GatewayState {
    /// A gateway without entries and without a board.
    pub fn new(system_prompt: String, identity_prompt: String, soul_prompt: String) -> (s: Self)
        ensures
            s.entries@.len() == 0,
            s.system_prompt == system_prompt,
            s.identity_prompt == identity_prompt,
            s.soul_prompt == soul_prompt,
            s.events_path is None,
            !s.has_apps,
    {
        GatewayState {
            entries: Vec::new(),
            system_prompt,
            identity_prompt,
            soul_prompt,
            events_path: None,
            has_apps: false,
        }
    }

    /// A gateway that knows where the agent's events are written.
    pub fn with_trajectory_tx(
        system_prompt: String,
        identity_prompt: String,
        soul_prompt: String,
        events_path: Option<String>,
    ) -> (s: Self)
        ensures
            s.entries@.len() == 0,
            s.system_prompt == system_prompt,
            s.identity_prompt == identity_prompt,
            s.soul_prompt == soul_prompt,
            s.events_path == events_path,
            !s.has_apps,
    {
        let mut s = GatewayState::new(system_prompt, identity_prompt, soul_prompt);
        s.events_path = events_path;
        s
    }

    /// A gateway with a board.
    pub fn with_apps(
        system_prompt: String,
        identity_prompt: String,
        soul_prompt: String,
    ) -> (s: Self)
        ensures
            s.entries@.len() == 0,
            s.system_prompt == system_prompt,
            s.identity_prompt == identity_prompt,
            s.soul_prompt == soul_prompt,
            s.events_path is None,
            s.has_apps,
    {
        let mut s = GatewayState::new(system_prompt, identity_prompt, soul_prompt);
        s.has_apps = true;
        s
    }

    /// Now there is a board.
    pub fn attach_apps(&mut self)
        ensures
            final(self).has_apps,
            final(self).entries == old(self).entries,
            final(self).system_prompt == old(self).system_prompt,
            final(self).identity_prompt == old(self).identity_prompt,
            final(self).soul_prompt == old(self).soul_prompt,
            final(self).events_path == old(self).events_path,
    {
        self.has_apps = true;
    }

    /// Takes an entry of the agent's in.
    pub fn mirror(&mut self, entry: Entry)
        ensures
            final(self).entries@ == old(self).entries@.push(entry),
            final(self).system_prompt == old(self).system_prompt,
            final(self).identity_prompt == old(self).identity_prompt,
            final(self).soul_prompt == old(self).soul_prompt,
            final(self).events_path == old(self).events_path,
            final(self).has_apps == old(self).has_apps,
    {
        self.entries.push(entry);
    }

    /// Whether there is a board to ask.
    pub fn require_supervisor(&self) -> (r: Result<(), GatewayError>)
        ensures
            match r {
                Ok(()) => self.has_apps,
                Err(e) => !self.has_apps && e is BoardDisabled,
            },
    {
        if self.has_apps {
            Ok(())
        } else {
            Err(GatewayError::BoardDisabled)
        }
    }
}

} // verus!
