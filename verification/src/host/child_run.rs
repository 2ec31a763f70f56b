//! The life of a child machine, from its creation to its end.

use vstd::prelude::*;
use crate::error::Error;
use crate::host::accept::AcceptedWorker;
use crate::host::child_vm::{self, ChildConversation, ChildStep};
use crate::protocol::{AgentInteraction, AgentToHost};
use vstd::string::*;

verus! {

/// Where a machine's life stands: what is being done.
#[derive(Debug, Clone, Copy, PartialEq, Eq, Structural)]
pub enum VmPhase {
    Creating,
    WaitingForSsh,
    PlacingFiles,
    Starting,
    KeepingEarlyLog,
    Accepting,
    Talking,
    KeepingLog,
    Destroying,
    Ended,
}

/// What became of what was done.
#[derive(Debug, Clone, PartialEq)]
pub enum VmEvent {
    Done,
    Failed(Error),
    /// A command ran.
    Ran { exit_code: i32, stdout: String, stderr: String },
    /// Somebody connected.
    Accepted(AcceptedWorker),
    /// The machine said something, or its connection ended.
    Frame(Option<AgentToHost>),
}

/// What to do next.
#[derive(Debug, PartialEq)]
pub enum VmAction {
    Create,
    WaitForSsh,
    /// Copy the agent, and write down what it is to do.
    PlaceFiles,
    Start,
    /// Keep the agent's log, so that it can be read should the machine never connect.
    KeepEarlyLog,
    Accept,
    Read,
    /// Put the question to the user, and read on.
    Ask { request_id: String, request: AgentInteraction },
    /// Keep the agent's log before the machine is gone.
    KeepLog,
    Destroy,
    Return { result: Result<String, Error> },
}

/// A machine's life as plain values: what is being done, what the machine has said last, and what
/// went wrong.
pub struct RunView {
    pub phase: VmPhase,
    pub text: Seq<char>,
    pub failure: Option<Error>,
}

/// A life at its beginning.
pub open spec fn unborn() -> RunView {
    RunView { phase: VmPhase::Creating, text: Seq::empty(), failure: None }
}

/// The life goes on with something else.
pub open spec fn goes_to(v: RunView, phase: VmPhase) -> RunView {
    RunView { phase, ..v }
}

/// Something went wrong: the machine is destroyed, where there is one.
pub open spec fn fails(v: RunView, e: Error) -> RunView {
    RunView {
        phase: if v.phase is Creating {
            VmPhase::Ended
        } else {
            VmPhase::Destroying
        },
        text: v.text,
        failure: Some(e),
    }
}

/// The machine said something: the last response ends the conversation.
pub open spec fn hears(v: RunView, frame: Option<AgentToHost>) -> RunView {
    RunView {
        phase: if child_vm::ends(frame) {
            VmPhase::KeepingLog
        } else {
            VmPhase::Talking
        },
        text: child_vm::said(v.text, frame),
        failure: v.failure,
    }
}

/// A life after what was done. What does not fit changes nothing.
pub open spec fn lives_on(v: RunView, event: VmEvent, after: RunView) -> bool {
    match (v.phase, event) {
        (VmPhase::Creating, VmEvent::Done) => after == goes_to(v, VmPhase::WaitingForSsh),
        (VmPhase::WaitingForSsh, VmEvent::Done) => after == goes_to(v, VmPhase::PlacingFiles),
        (VmPhase::PlacingFiles, VmEvent::Done) => after == goes_to(v, VmPhase::Starting),
        (VmPhase::Creating, VmEvent::Failed(e)) => after == fails(v, e),
        (VmPhase::WaitingForSsh, VmEvent::Failed(e)) => after == fails(v, e),
        (VmPhase::PlacingFiles, VmEvent::Failed(e)) => after == fails(v, e),
        (VmPhase::Starting, VmEvent::Failed(e)) => after == fails(v, e),
        (VmPhase::Accepting, VmEvent::Failed(e)) => after == fails(v, e),
        (VmPhase::Talking, VmEvent::Failed(e)) => after == fails(v, e),
        (VmPhase::Starting, VmEvent::Ran { exit_code, stdout, stderr }) => if exit_code == 0 {
            after == goes_to(v, VmPhase::KeepingEarlyLog)
        } else {
            &&& after.failure matches Some(Error::Vm(m))
            &&& m@ == child_vm::start_failure(exit_code as int, stdout@, stderr@)
            &&& after == fails(v, after.failure->0)
        },
        (VmPhase::KeepingEarlyLog, _) => after == goes_to(v, VmPhase::Accepting),
        (VmPhase::Accepting, VmEvent::Accepted(AcceptedWorker::VmChild { first_frame })) => after
            == hears(v, Some(first_frame)),
        (VmPhase::Talking, VmEvent::Frame(frame)) => after == hears(v, frame),
        (VmPhase::KeepingLog, _) => after == goes_to(v, VmPhase::Destroying),
        (VmPhase::Destroying, _) => after == goes_to(v, VmPhase::Ended),
        _ => after == v,
    }
}

/// The question that the machine asks, where it asks one.
pub open spec fn asks(v: RunView, event: VmEvent) -> Option<AgentInteraction> {
    let frame = match (v.phase, event) {
        (VmPhase::Accepting, VmEvent::Accepted(AcceptedWorker::VmChild { first_frame })) => Some(
            first_frame,
        ),
        (VmPhase::Talking, VmEvent::Frame(frame)) => frame,
        _ => None,
    };
    match frame {
        Some(AgentToHost::ExternalInteraction { request, .. }) => Some(request),
        _ => None,
    }
}

/// What comes of a life: what the machine has said last, unless something went wrong.
pub open spec fn is_result(r: Result<String, Error>, v: RunView) -> bool {
    match v.failure {
        Some(e) => r == Err::<String, Error>(e),
        None => r matches Ok(t) && t@ == v.text,
    }
}

/// What to do where a life stands.
pub open spec fn is_action(a: VmAction, v: RunView) -> bool {
    match v.phase {
        VmPhase::Creating => a is Create,
        VmPhase::WaitingForSsh => a is WaitForSsh,
        VmPhase::PlacingFiles => a is PlaceFiles,
        VmPhase::Starting => a is Start,
        VmPhase::KeepingEarlyLog => a is KeepEarlyLog,
        VmPhase::Accepting => a is Accept,
        VmPhase::Talking => a is Read,
        VmPhase::KeepingLog => a is KeepLog,
        VmPhase::Destroying => a is Destroy,
        VmPhase::Ended => a matches VmAction::Return { result } && is_result(result, v),
    }
}

/// The life of one child machine.
#[derive(Debug)]
pub struct ChildRun {
    phase: VmPhase,
    conversation: ChildConversation,
    failure: Option<Error>,
}

impl View for ChildRun {
    type V = RunView;

    closed spec fn view(&self) -> RunView {
        RunView { phase: self.phase, text: self.conversation@, failure: self.failure }
    }
}

impl ChildRun {
    /// The machine is to be created.
    pub fn new() -> (r: (Self, VmAction))
        ensures
            r.0@ == unborn(),
            is_action(r.1, r.0@),
    {
        let run = ChildRun {
            phase: VmPhase::Creating,
            conversation: ChildConversation::new(),
            failure: None,
        };
        (run, VmAction::Create)
    }

    fn fail(&mut self, e: Error)
        ensures
            final(self)@ == fails(old(self)@, e),
    {
        self.phase = match self.phase {
            VmPhase::Creating => VmPhase::Ended,
            _ => VmPhase::Destroying,
        };
        self.failure = Some(e);
    }

    fn hear(&mut self, frame: Option<AgentToHost>) -> (question: Option<(String, AgentInteraction)>)
        ensures
            final(self)@ == hears(old(self)@, frame),
            match (frame, question) {
                (Some(AgentToHost::ExternalInteraction { request, .. }), Some(q)) => q.0@
                    == request.request_id@ && q.1 == request,
                (Some(AgentToHost::ExternalInteraction { .. }), None) => false,
                (_, q) => q is None,
            },
    {
        match self.conversation.take(frame) {
            ChildStep::Continue => {
                self.phase = VmPhase::Talking;
                None
            },
            ChildStep::Ask { request_id, request } => {
                self.phase = VmPhase::Talking;
                Some((request_id, request))
            },
            ChildStep::Finish => {
                self.phase = VmPhase::KeepingLog;
                None
            },
        }
    }

    /// Goes on after what was done, and says what to do next.
    pub fn advance(&mut self, event: VmEvent) -> (a: VmAction)
        ensures
            lives_on(old(self)@, event, final(self)@),
            match asks(old(self)@, event) {
                Some(q) => a matches VmAction::Ask { request_id, request } && request_id@
                    == q.request_id@ && request == q,
                None => is_action(a, final(self)@),
            },
    {
        let mut question: Option<(String, AgentInteraction)> = None;
        match (self.phase, event) {
            (VmPhase::Creating, VmEvent::Done) => {
                self.phase = VmPhase::WaitingForSsh;
            },
            (VmPhase::WaitingForSsh, VmEvent::Done) => {
                self.phase = VmPhase::PlacingFiles;
            },
            (VmPhase::PlacingFiles, VmEvent::Done) => {
                self.phase = VmPhase::Starting;
            },
            (VmPhase::Creating, VmEvent::Failed(e)) => {
                self.fail(e);
            },
            (VmPhase::WaitingForSsh, VmEvent::Failed(e)) => {
                self.fail(e);
            },
            (VmPhase::PlacingFiles, VmEvent::Failed(e)) => {
                self.fail(e);
            },
            (VmPhase::Starting, VmEvent::Failed(e)) => {
                self.fail(e);
            },
            (VmPhase::Accepting, VmEvent::Failed(e)) => {
                self.fail(e);
            },
            (VmPhase::Talking, VmEvent::Failed(e)) => {
                self.fail(e);
            },
            (VmPhase::Starting, VmEvent::Ran { exit_code, stdout, stderr }) => {
                match child_vm::started(exit_code, stdout.as_str(), stderr.as_str()) {
                    Ok(()) => {
                        self.phase = VmPhase::KeepingEarlyLog;
                    },
                    Err(e) => {
                        self.fail(e);
                    },
                }
            },
            (VmPhase::KeepingEarlyLog, _) => {
                self.phase = VmPhase::Accepting;
            },
            (VmPhase::Accepting, VmEvent::Accepted(AcceptedWorker::VmChild { first_frame })) => {
                question = self.hear(Some(first_frame));
            },
            (VmPhase::Talking, VmEvent::Frame(frame)) => {
                question = self.hear(frame);
            },
            (VmPhase::KeepingLog, _) => {
                self.phase = VmPhase::Destroying;
            },
            (VmPhase::Destroying, _) => {
                self.phase = VmPhase::Ended;
            },
            _ => {},
        }
        match question {
            Some((request_id, request)) => VmAction::Ask { request_id, request },
            None => self.action(),
        }
    }

    /// What is noted down on the machine's share before something is done.
    pub fn status(&self) -> (r: Option<&'static str>)
        ensures
            match (self@.phase, r) {
                (VmPhase::Creating, Some(s)) => s@ == child_vm::STATUS_CREATING@,
                (VmPhase::WaitingForSsh, Some(s)) => s@ == child_vm::STATUS_SSH@,
                (VmPhase::PlacingFiles, Some(s)) => s@ == child_vm::STATUS_COPYING@,
                (VmPhase::Starting, Some(s)) => s@ == child_vm::STATUS_STARTING@,
                (VmPhase::Accepting, Some(s)) => s@ == child_vm::STATUS_WAITING@,
                (VmPhase::Creating, None) => false,
                (VmPhase::WaitingForSsh, None) => false,
                (VmPhase::PlacingFiles, None) => false,
                (VmPhase::Starting, None) => false,
                (VmPhase::Accepting, None) => false,
                (_, r) => r is None,
            },
    {
        match self.phase {
            VmPhase::Creating => Some(child_vm::STATUS_CREATING),
            VmPhase::WaitingForSsh => Some(child_vm::STATUS_SSH),
            VmPhase::PlacingFiles => Some(child_vm::STATUS_COPYING),
            VmPhase::Starting => Some(child_vm::STATUS_STARTING),
            VmPhase::Accepting => Some(child_vm::STATUS_WAITING),
            _ => None,
        }
    }

    fn action(&self) -> (a: VmAction)
        ensures
            is_action(a, self@),
    {
        match self.phase {
            VmPhase::Creating => VmAction::Create,
            VmPhase::WaitingForSsh => VmAction::WaitForSsh,
            VmPhase::PlacingFiles => VmAction::PlaceFiles,
            VmPhase::Starting => VmAction::Start,
            VmPhase::KeepingEarlyLog => VmAction::KeepEarlyLog,
            VmPhase::Accepting => VmAction::Accept,
            VmPhase::Talking => VmAction::Read,
            VmPhase::KeepingLog => VmAction::KeepLog,
            VmPhase::Destroying => VmAction::Destroy,
            VmPhase::Ended => VmAction::Return {
                result: match &self.failure {
                    Some(e) => Err(e.copy()),
                    None => Ok(self.conversation.text()),
                },
            },
        }
    }
}

/// A life through a number of events.
pub open spec fn is_life(steps: Seq<RunView>, events: Seq<VmEvent>) -> bool {
    &&& steps.len() == events.len() + 1
    &&& steps[0] == unborn()
    &&& forall|i: int|
        0 <= i < events.len() ==> lives_on(#[trigger] steps[i], events[i], steps[i + 1])
}

/// A machine that was created is destroyed before its life ends, whatever goes wrong in between.
pub proof fn created_machine_is_destroyed(steps: Seq<RunView>, events: Seq<VmEvent>, end: int)
    requires
        is_life(steps, events),
        0 <= end < steps.len(),
        steps[end].phase is Ended,
    ensures
        ({
            ||| exists|i: int| 0 <= i < end && (#[trigger] steps[i]).phase is Destroying
            ||| exists|i: int|
                0 <= i < end && (#[trigger] steps[i]).phase is Creating && events[i] is Failed
        }),
    decreases end,
{
    let before = steps[end - 1];
    assert(lives_on(before, events[end - 1], steps[end]));
    if before.phase is Ended {
        created_machine_is_destroyed(steps, events, end - 1);
    }
}

/// What comes of a life is settled before the machine is destroyed: how that goes does not matter.
pub proof fn destroying_changes_no_result(
    v: RunView,
    event: VmEvent,
    after: RunView,
    r: Result<String, Error>,
)
    requires
        v.phase is Destroying,
        lives_on(v, event, after),
    ensures
        after.phase is Ended,
        is_result(r, after) == is_result(r, v),
{
}

/// The worker of an app that connects where a machine is waited for changes nothing.
pub proof fn strange_worker_is_sent_away(v: RunView, app_id: String, after: RunView)
    requires
        v.phase is Accepting,
        lives_on(v, VmEvent::Accepted(AcceptedWorker::App { app_id }), after),
    ensures
        after == v,
{
}

/// A machine goes through its steps in order: the agent is started only after the files were
/// placed, those only after the machine could be reached, and that only after it was made. It is
/// listened to only after the agent was started.
pub proof fn steps_come_in_order(steps: Seq<RunView>, events: Seq<VmEvent>, n: int)
    requires
        is_life(steps, events),
        0 <= n < steps.len(),
    ensures
        steps[n].phase is WaitingForSsh ==> was_in(steps, n, VmPhase::Creating),
        steps[n].phase is PlacingFiles ==> was_in(steps, n, VmPhase::WaitingForSsh),
        steps[n].phase is Starting ==> was_in(steps, n, VmPhase::PlacingFiles),
        steps[n].phase is KeepingEarlyLog ==> was_in(steps, n, VmPhase::Starting),
        steps[n].phase is Accepting ==> was_in(steps, n, VmPhase::KeepingEarlyLog),
        steps[n].phase is Talking ==> was_in(steps, n, VmPhase::Accepting),
        steps[n].phase is KeepingLog ==> was_in(steps, n, VmPhase::Talking) || was_in(
            steps,
            n,
            VmPhase::Accepting,
        ),
    decreases n,
{
    if n > 0 {
        steps_come_in_order(steps, events, n - 1);
        assert(lives_on(steps[n - 1], events[n - 1], steps[n - 1 + 1]));
        assert forall|p: VmPhase| #[trigger] was_in(steps, n - 1, p) implies was_in(
            steps,
            n,
            p,
        ) by {
            let i = choose|i: int| 0 <= i < n - 1 && (#[trigger] steps[i]).phase == p;
            assert(steps[i].phase == p);
        }
        assert(was_in(steps, n, steps[n - 1].phase));
    }
}

/// The machine was in a phase before the given step.
pub open spec fn was_in(steps: Seq<RunView>, n: int, p: VmPhase) -> bool {
    exists|i: int| 0 <= i < n && (#[trigger] steps[i]).phase == p
}

/// What a machine last said is its result, and what it said last ends the talk; anything else that
/// it sends leaves the result as it was and the talk going on.
pub proof fn what_is_said_last_counts(v: RunView, frame: AgentToHost, after: RunView)
    requires
        v.phase is Talking,
        lives_on(v, VmEvent::Frame(Some(frame)), after),
    ensures
        match frame {
            AgentToHost::Response { text, is_final, .. } => after.text == text@ && (after.phase is
                KeepingLog <==> is_final) && (after.phase is Talking <==> !is_final),
            _ => after.text == v.text && after.phase is Talking,
        },
        after.failure == v.failure,
{
}

/// A failure of a machine that was made leads to its end, with the error as the result; the end of
/// the talk without a failure gives the text.
pub proof fn failure_is_the_result(v: RunView, e: Error, after: RunView)
    requires
        v.phase is WaitingForSsh || v.phase is PlacingFiles || v.phase is Starting || v.phase is
            Accepting || v.phase is Talking,
        lives_on(v, VmEvent::Failed(e), after),
    ensures
        after.phase is Destroying,
        is_result(Err(e), after),
        forall|t: String| !is_result(Ok(t), after),
{
}

/// A silent end of the talk keeps what was said.
pub proof fn silence_ends_the_talk(v: RunView, after: RunView)
    requires
        v.phase is Talking,
        lives_on(v, VmEvent::Frame(None), after),
    ensures
        after.phase is KeepingLog,
        after.text == v.text,
        after.failure == v.failure,
{
}

/// An agent that started goes on to be listened to; one whose start exits with any other code than
/// zero has failed, and the error tells the code and what was printed.
pub proof fn a_failed_start_is_told(
    v: RunView,
    exit_code: i32,
    stdout: String,
    stderr: String,
    after: RunView,
)
    requires
        v.phase is Starting,
        lives_on(v, VmEvent::Ran { exit_code, stdout, stderr }, after),
    ensures
        exit_code == 0 ==> after.phase is KeepingEarlyLog && after.failure == v.failure
            && after.text == v.text,
        exit_code != 0 ==> after.phase is Destroying && (after.failure matches Some(Error::Vm(m))
            && m@ == "Child VM agent failed to start (exit "@ + crate::text::decimal_int(
            exit_code as int,
        ) + "): stdout="@ + stdout@ + " stderr="@ + stderr@),
{
}

/// A question is passed on whenever it comes, with the first word or later; nothing else is.
pub proof fn every_question_is_passed_on(v: RunView, frame: AgentToHost)
    ensures
        v.phase is Talking ==> asks(v, VmEvent::Frame(Some(frame))) == (match frame {
            AgentToHost::ExternalInteraction { request, .. } => Some(request),
            _ => None,
        }),
        v.phase is Accepting ==> asks(
            v,
            VmEvent::Accepted(AcceptedWorker::VmChild { first_frame: frame }),
        ) == (match frame {
            AgentToHost::ExternalInteraction { request, .. } => Some(request),
            _ => None,
        }),
        asks(v, VmEvent::Frame(None)) is None,
{
}

/// Every step of a life has its own thing to do: from what is done it is seen where the life
/// stands.
pub proof fn every_step_has_its_own_action(a: VmAction, v: RunView, w: RunView)
    requires
        is_action(a, v),
    ensures
        is_action(a, w) ==> v.phase == w.phase,
        a is Create <==> v.phase is Creating,
        a is WaitForSsh <==> v.phase is WaitingForSsh,
        a is PlaceFiles <==> v.phase is PlacingFiles,
        a is Start <==> v.phase is Starting,
        a is KeepEarlyLog <==> v.phase is KeepingEarlyLog,
        a is Accept <==> v.phase is Accepting,
        a is Read <==> v.phase is Talking,
        a is KeepLog <==> v.phase is KeepingLog,
        a is Destroy <==> v.phase is Destroying,
        a is Return <==> v.phase is Ended,
{
}

} // verus!
