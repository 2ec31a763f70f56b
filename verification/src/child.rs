//! The agent on a child machine: which agent it runs, what it tells the host and when it stops.

use vstd::prelude::*;
use crate::protocol::{AgentInteraction, AgentToHost, HostToAgent, InteractionResponse};
use crate::text;
use vstd::string::*;

verus! {

pub const SHARE_DIR_MACOS: &'static str = "/Volumes/My Shared Files";

pub const SHARE_DIR: &'static str = "/mnt/shared";

/// Where the host and the machine share files.
pub fn find_share_dir(macos: bool) -> (r: &'static str)
    ensures
        r@ == (if macos {
            SHARE_DIR_MACOS@
        } else {
            SHARE_DIR@
        }),
{
    if macos {
        SHARE_DIR_MACOS
    } else {
        SHARE_DIR
    }
}

/// The frame is the last word of an agent.
pub open spec fn is_last_word(f: AgentToHost, t: Seq<char>) -> bool {
    f matches AgentToHost::Response { text, entry_id, is_final, reply_to_message_id } && text@ == t
        && entry_id == 0 && is_final && reply_to_message_id is None
}

fn last_word(text: String) -> (f: AgentToHost)
    ensures
        is_last_word(f, text@),
{
    AgentToHost::Response { text, entry_id: 0, is_final: true, reply_to_message_id: None }
}

/// Whether the machine can run a kind of agent. What it says where it cannot.
pub fn check_subagent_type(subagent_type: &str) -> (r: Result<(), AgentToHost>)
    ensures
        match r {
            Ok(()) => text::trim(subagent_type@) == "external"@,
            Err(f) => text::trim(subagent_type@) != "external"@ && is_last_word(
                f,
                "Child agent mode for '"@ + text::trim(subagent_type@)
                    + "' not yet implemented"@,
            ),
        },
{
    let name = text::trimmed(subagent_type);
    if text::same(name.as_str(), "external") {
        Ok(())
    } else {
        Err(
            last_word(
                text::concat3("Child agent mode for '", name.as_str(), "' not yet implemented"),
            ),
        )
    }
}

/// An agent of somebody else's.
#[derive(Debug, Clone, Copy, PartialEq, Eq, Structural)]
pub enum ExternalAgent {
    ClaudeCode,
    Codex,
}

/// The agent's name where none is given.
pub const DEFAULT_AGENT: &'static str = "claude_code";

/// The name under which an agent is asked for.
pub open spec fn asked_name(name: Option<String>) -> Seq<char> {
    match name {
        Some(n) => text::trim(n@),
        None => DEFAULT_AGENT@,
    }
}

/// The agent of a name. What the machine says where it knows none of that name.
pub fn external_agent(name: &Option<String>) -> (r: Result<ExternalAgent, AgentToHost>)
    ensures
        match r {
            Ok(ExternalAgent::ClaudeCode) => asked_name(*name) == "claude_code"@,
            Ok(ExternalAgent::Codex) => asked_name(*name) == "codex"@,
            Err(f) => {
                &&& asked_name(*name) != "claude_code"@
                &&& asked_name(*name) != "codex"@
                &&& is_last_word(f, "Unknown external agent name: "@ + asked_name(*name))
            },
        },
{
    let name = match name {
        Some(n) => text::trimmed(n.as_str()),
        None => DEFAULT_AGENT.to_string(),
    };
    if text::same(name.as_str(), "claude_code") {
        Ok(ExternalAgent::ClaudeCode)
    } else if text::same(name.as_str(), "codex") {
        Ok(ExternalAgent::Codex)
    } else {
        Err(last_word(text::concat2("Unknown external agent name: ", name.as_str())))
    }
}

/// A letter as a capital.
pub open spec fn capital(c: char) -> char {
    if 'a' <= c && c <= 'z' {
        (c as u32 - 32) as char
    } else {
        c
    }
}

/// A name with underscores as it is shown: its words, each with a capital, with spaces between.
pub open spec fn titled(name: Seq<char>) -> Seq<char> {
    Seq::new(
        name.len(),
        |i: int|
            if name[i] == '_' {
                ' '
            } else if i == 0 || name[i - 1] == '_' {
                capital(name[i])
            } else {
                name[i]
            },
    )
}

fn titled_text(name: &str) -> (r: String)
    ensures
        r@ == titled(name@),
{
    let chars = text::to_chars(name);
    let mut r: String = String::new();
    let mut i: usize = 0;
    while i < chars.len()
        invariant
            i <= chars.len(),
            chars@ == name@,
            r@ == titled(name@).take(i as int),
        decreases chars.len() - i,
    {
        let c = chars[i];
        let shown = if c == '_' {
            ' '
        } else if (i == 0 || chars[i - 1] == '_') && 'a' <= c && c <= 'z' {
            (c as u8 - 32) as char
        } else {
            c
        };
        r.push(shown);
        assert(titled(name@).take(i as int + 1) =~= titled(name@).take(i as int).push(shown));
        i = i + 1;
    }
    assert(titled(name@).take(i as int) =~= titled(name@));
    r
}

/// The name under which an agent is asked for.
pub open spec fn name_of(agent: ExternalAgent) -> Seq<char> {
    match agent {
        ExternalAgent::ClaudeCode => "claude_code"@,
        ExternalAgent::Codex => "codex"@,
    }
}

/// An agent's name as it is shown.
pub fn shown_name(agent: ExternalAgent) -> (r: String)
    ensures
        r@ == titled(name_of(agent)),
{
    match agent {
        ExternalAgent::ClaudeCode => titled_text("claude_code"),
        ExternalAgent::Codex => titled_text("codex"),
    }
}

/// What the machine says where an agent cannot be started.
pub fn spawn_failure(agent: ExternalAgent, error: &str) -> (f: AgentToHost)
    ensures
        is_last_word(f, "Failed to spawn "@ + titled(name_of(agent)) + " session: "@ + error@),
{
    let name = shown_name(agent);
    let head = text::concat3("Failed to spawn ", name.as_str(), " session: ");
    last_word(text::concat2(head.as_str(), error))
}

/// What an agent reports.
#[derive(Debug, Clone, PartialEq, Eq)]
pub enum ExternalAgentEvent {
    UIInteraction(AgentInteraction),
    Completed { result: String },
    Failed { error: String },
    Progress { message: String },
}

/// What to do after a report.
#[derive(Debug, Clone, PartialEq)]
pub enum EventStep {
    /// Tell the host and go on, unless that fails.
    Tell { frame: AgentToHost },
    /// Tell the host and stop.
    TellAndStop { frame: AgentToHost },
    Continue,
    Stop,
}

/// What to do after a report of an agent's, or after its last one.
pub fn on_event(event: Option<ExternalAgentEvent>, task_id: &str) -> (step: EventStep)
    ensures
        match event {
            Some(ExternalAgentEvent::UIInteraction(q)) => step matches EventStep::Tell {
                frame: AgentToHost::ExternalInteraction { task_id: t, request },
            } && t@ == task_id@ && request == q,
            Some(ExternalAgentEvent::Completed { result }) => step
                matches EventStep::TellAndStop { frame } && is_last_word(frame, result@),
            Some(ExternalAgentEvent::Failed { error }) => step matches EventStep::TellAndStop {
                frame,
            } && is_last_word(frame, "External agent failed: "@ + error@),
            Some(ExternalAgentEvent::Progress { .. }) => step is Continue,
            None => step is Stop,
        },
{
    match event {
        Some(ExternalAgentEvent::UIInteraction(request)) => EventStep::Tell {
            frame: AgentToHost::ExternalInteraction { task_id: task_id.to_string(), request },
        },
        Some(ExternalAgentEvent::Completed { result }) => EventStep::TellAndStop {
            frame: last_word(result),
        },
        Some(ExternalAgentEvent::Failed { error }) => EventStep::TellAndStop {
            frame: last_word(text::concat2("External agent failed: ", error.as_str())),
        },
        Some(ExternalAgentEvent::Progress { .. }) => EventStep::Continue,
        None => EventStep::Stop,
    }
}

/// What to do after a frame of the host's.
#[derive(Debug, Clone, PartialEq)]
pub enum HostStep {
    /// The agent is to have the answer.
    Forward { response: InteractionResponse },
    Continue,
    Stop,
}

/// What to do after a frame of the host's, or where none can be read any more.
pub fn on_host_frame(frame: Option<HostToAgent>) -> (step: HostStep)
    ensures
        step == (match frame {
            Some(HostToAgent::InteractionResponse { response, .. }) => HostStep::Forward {
                response,
            },
            Some(HostToAgent::Shutdown) => HostStep::Stop,
            Some(_) => HostStep::Continue,
            None => HostStep::Stop,
        }),
{
    match frame {
        Some(HostToAgent::InteractionResponse { response, .. }) => HostStep::Forward { response },
        Some(HostToAgent::Shutdown) => HostStep::Stop,
        Some(_) => HostStep::Continue,
        None => HostStep::Stop,
    }
}

/// The last word of an agent ends the host's conversation with its machine, with its text as the
/// answer.
pub proof fn last_word_is_the_answer(f: AgentToHost, t: Seq<char>, before: Seq<char>)
    requires
        is_last_word(f, t),
    ensures
        crate::host::child_vm::ends(Some(f)),
        crate::host::child_vm::said(before, Some(f)) == t,
{
}

/// A name is shown word by word: the parts between underscores, with blanks between them.
pub proof fn words_of_a_name_are_shown(a: Seq<char>, b: Seq<char>)
    ensures
        titled(a + seq!['_'] + b) == titled(a) + seq![' '] + titled(b),
        (a.len() > 0 && forall|k: int| 0 <= k < a.len() ==> #[trigger] a[k] != '_') ==> titled(a)
            == seq![capital(a[0])] + a.skip(1),
{
    let s = a + seq!['_'] + b;
    assert forall|i: int| 0 <= i < s.len() implies titled(s)[i] == (titled(a) + seq![' '] + titled(
        b,
    ))[i] by {
        if i < a.len() {
            assert(s[i] == a[i]);
            if i > 0 {
                assert(s[i - 1] == a[i - 1]);
            }
        } else if i > a.len() {
            let j = i - a.len() - 1;
            assert(s[i] == b[j]);
            if j > 0 {
                assert(s[i - 1] == b[j - 1]);
            } else {
                assert(s[i - 1] == '_');
            }
        }
    }
    assert(titled(s) =~= titled(a) + seq![' '] + titled(b));
    if a.len() > 0 && forall|k: int| 0 <= k < a.len() ==> #[trigger] a[k] != '_' {
        assert(titled(a) =~= seq![capital(a[0])] + a.skip(1));
    }
}

/// Spaces around an agent's name do not count, and where no name is given the first of the agents
/// is asked for.
pub proof fn spaces_around_a_name_do_not_count(a: String, b: String)
    requires
        text::trim(a@) == text::trim(b@),
    ensures
        asked_name(Some(a)) == asked_name(Some(b)),
        asked_name(Some(a)) == text::trim(a@),
        asked_name(None) == name_of(ExternalAgent::ClaudeCode),
{
}

/// No two agents have one name.
pub proof fn agents_are_told_apart_by_name(a: ExternalAgent, b: ExternalAgent)
    requires
        name_of(a) == name_of(b),
    ensures
        a == b,
{
    reveal_strlit("claude_code");
    reveal_strlit("codex");
    assert("claude_code"@.len() == 11 && "codex"@.len() == 5);
}

} // verus!
