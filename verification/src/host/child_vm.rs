//! A child machine: how it is started, what it is asked, and what it answers.

use vstd::prelude::*;
use crate::error::Error;
use crate::protocol::{AgentInteraction, AgentToHost, HostToAgent, InteractionResponse};
use crate::text;
use vstd::string::*;

verus! {

pub const STATUS_CREATING: &'static str = "run_child_vm: creating VM";

pub const STATUS_SSH: &'static str = "run_child_vm: waiting for SSH";

pub const STATUS_COPYING: &'static str = "run_child_vm: copying binary and prompt";

pub const STATUS_STARTING: &'static str = "run_child_vm: starting agent";

pub const STATUS_WAITING: &'static str = "run_child_vm: waiting for RPC connection";

/// What prints the agent's log on the machine.
pub const READ_LOG_COMMAND: &'static str = "cat /tmp/rubberdux-agent.log 2>/dev/null || true";

/// Where the machine finds what it is to do.
pub const PROMPT_FILE: &'static str = "prompt.txt";

/// Where the machine finds what kind of agent it is to run.
pub const SUBAGENT_TYPE_FILE: &'static str = "subagent_type.txt";

/// Where the machine finds the agent's name.
pub const AGENT_NAME_FILE: &'static str = "agent_name.txt";

/// A file on the share of a machine.
#[derive(Debug, Clone, PartialEq, Eq)]
pub struct SharedFile {
    pub name: &'static str,
    pub content: String,
}

/// What a file holds under its name.
pub open spec fn holds(f: SharedFile, name: Seq<char>, content: Seq<char>) -> bool {
    f.name@ == name && f.content@ == content
}

/// The files that tell a machine what it is to do.
pub fn files_to_place(prompt: &str, subagent_type: &str, agent_name: Option<&str>) -> (files: Vec<
    SharedFile,
>)
    ensures
        files@.len() == (if agent_name is Some {
            3int
        } else {
            2int
        }),
        holds(files@[0], PROMPT_FILE@, prompt@),
        holds(files@[1], SUBAGENT_TYPE_FILE@, subagent_type@),
        agent_name matches Some(n) ==> holds(files@[2], AGENT_NAME_FILE@, n@),
{
    let mut files: Vec<SharedFile> = Vec::new();
    files.push(SharedFile { name: PROMPT_FILE, content: prompt.to_string() });
    files.push(SharedFile { name: SUBAGENT_TYPE_FILE, content: subagent_type.to_string() });
    if let Some(n) = agent_name {
        files.push(SharedFile { name: AGENT_NAME_FILE, content: n.to_string() });
    }
    files
}

/// What is said where the agent could not be started.
pub open spec fn start_failure(exit_code: int, stdout: Seq<char>, stderr: Seq<char>) -> Seq<char> {
    "Child VM agent failed to start (exit "@ + text::decimal_int(exit_code) + "): stdout="@
        + stdout + " stderr="@ + stderr
}

/// Whether the agent was started: an exit code other than zero is an error.
pub fn started(exit_code: i32, stdout: &str, stderr: &str) -> (r: Result<(), Error>)
    ensures
        match r {
            Ok(_) => exit_code == 0,
            Err(e) => exit_code != 0 && (e matches Error::Vm(m) && m@ == start_failure(
                exit_code as int,
                stdout@,
                stderr@,
            )),
        },
{
    if exit_code == 0 {
        Ok(())
    } else {
        let code = text::decimal_int_string(exit_code as i64);
        let mut m: String = text::concat3(
            "Child VM agent failed to start (exit ",
            code.as_str(),
            "): stdout=",
        );
        m.append(stdout);
        m.append(" stderr=");
        m.append(stderr);
        Err(Error::Vm(m))
    }
}

/// Where the host keeps the log of a task's machine.
pub fn host_log_path(task_id: &str) -> (r: String)
    ensures
        r@ == "/tmp/rubberdux-child-"@ + task_id@ + ".log"@,
{
    text::concat3("/tmp/rubberdux-child-", task_id, ".log")
}

/// What to do after a frame.
#[derive(Debug, Clone, PartialEq, Eq)]
pub enum ChildStep {
    /// Read the next frame.
    Continue,
    /// Put the question to the user, and send the answer under the request's id.
    Ask { request_id: String, request: AgentInteraction },
    /// The machine is done.
    Finish,
}

/// What the machine has said last.
pub open spec fn said(before: Seq<char>, frame: Option<AgentToHost>) -> Seq<char> {
    match frame {
        Some(AgentToHost::Response { text, .. }) => text@,
        _ => before,
    }
}

/// The frame is the last one: a final response, or the end of the connection.
pub open spec fn ends(frame: Option<AgentToHost>) -> bool {
    match frame {
        Some(AgentToHost::Response { is_final, .. }) => is_final,
        Some(_) => false,
        None => true,
    }
}

/// A conversation with a child machine.
#[derive(Debug, Clone)]
pub struct ChildConversation {
    final_text: String,
}

impl View for ChildConversation {
    type V = Seq<char>;

    closed spec fn view(&self) -> Seq<char> {
        self.final_text@
    }
}

impl ChildConversation {
    pub fn new() -> (c: Self)
        ensures
            c@ == Seq::<char>::empty(),
    {
        ChildConversation { final_text: String::new() }
    }

    /// Takes a frame in, or the end of the connection.
    pub fn take(&mut self, frame: Option<AgentToHost>) -> (step: ChildStep)
        ensures
            final(self)@ == said(old(self)@, frame),
            ends(frame) <==> step is Finish,
            match frame {
                Some(AgentToHost::ExternalInteraction { task_id, request }) => step
                    matches ChildStep::Ask { request_id: id, request: q } && id@
                    == request.request_id@ && q == request,
                _ => !(step is Ask),
            },
    {
        match frame {
            Some(AgentToHost::Response { text, is_final, .. }) => {
                self.final_text = text;
                if is_final {
                    ChildStep::Finish
                } else {
                    ChildStep::Continue
                }
            },
            Some(AgentToHost::ExternalInteraction { task_id: _, request }) => ChildStep::Ask {
                request_id: request.request_id.clone(),
                request,
            },
            Some(_) => ChildStep::Continue,
            None => ChildStep::Finish,
        }
    }

    /// What the machine has said last.
    pub fn text(&self) -> (r: String)
        ensures
            r@ == self@,
    {
        self.final_text.clone()
    }

    /// What the machine has answered.
    pub fn into_text(self) -> (r: String)
        ensures
            r@ == self@,
    {
        self.final_text
    }
}

/// The frame that brings an answer back to the machine.
pub fn answer_frame(request_id: String, response: InteractionResponse) -> (f: HostToAgent)
    ensures
        f == (HostToAgent::InteractionResponse { request_id, response }),
{
    HostToAgent::InteractionResponse { request_id, response }
}

/// What a machine has answered after a number of frames, none of which was the last one before.
pub open spec fn answer(frames: Seq<AgentToHost>) -> Seq<char>
    decreases frames.len(),
{
    if frames.len() == 0 {
        Seq::empty()
    } else {
        said(answer(frames.drop_last()), Some(frames.last()))
    }
}

/// The answer is the text of the last response, and empty where there was none.
pub proof fn last_response_is_the_answer(frames: Seq<AgentToHost>)
    ensures
        (forall|i: int| 0 <= i < frames.len() ==> !(#[trigger] frames[i] is Response)) ==> answer(
            frames,
        ) == Seq::<char>::empty(),
        forall|i: int|
            0 <= i < frames.len() && (#[trigger] frames[i] is Response) && (forall|j: int|
                i < j < frames.len() ==> !(#[trigger] frames[j] is Response)) ==> answer(frames)
                == said(Seq::empty(), Some(frames[i])),
    decreases frames.len(),
{
    if frames.len() > 0 {
        let init = frames.drop_last();
        last_response_is_the_answer(init);
        if !(frames.last() is Response) {
            assert forall|i: int|
                0 <= i < frames.len() && (#[trigger] frames[i] is Response) && (forall|j: int|
                    i < j < frames.len() ==> !(#[trigger] frames[j] is Response)) implies answer(
                frames,
            ) == said(Seq::empty(), Some(frames[i])) by {
                assert(init[i] == frames[i]);
            }
        }
        if forall|i: int| 0 <= i < frames.len() ==> !(#[trigger] frames[i] is Response) {
            assert(!(frames[frames.len() - 1] is Response));
        }
    }
}

} // verus!
