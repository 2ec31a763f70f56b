//! How the host comes up, and what it does without.

use vstd::prelude::*;
use crate::text;
use vstd::string::*;

verus! {

/// A step on the way up.
#[derive(Debug, Clone, Copy, PartialEq, Eq, Structural)]
pub enum StartStep {
    /// Listen for child machines on the configured port.
    BindRpc,
    /// Listen on any port of this machine alone.
    BindFallback,
    /// Listen for the clients of surfaces.
    BindSurface,
    CreateSession,
    PrepareMindset,
    PrepareWorkspace,
    SelectProvider,
    /// Bring the board of apps up.
    BindBoard,
}

/// What a host serves besides the gateway and its main agent.
#[derive(Debug, Clone, Copy, PartialEq, Eq, Structural)]
pub struct HostPlan {
    /// Child machines can connect.
    pub vm_isolation: bool,
    /// Surfaces are relayed.
    pub surface_relay: bool,
    /// There is a board.
    pub board: bool,
    /// The user can talk to it through Telegram.
    pub telegram: bool,
}

/// What to do next.
#[derive(Debug, Clone, PartialEq, Eq)]
pub enum StartAction {
    Do { step: StartStep },
    /// The host cannot come up.
    Abort { message: String },
    /// The host is up.
    Serve { plan: HostPlan },
}

/// A host without a step cannot come up.
pub open spec fn is_needed(step: StartStep) -> bool {
    match step {
        StartStep::BindRpc => false,
        StartStep::BindFallback => true,
        StartStep::BindSurface => false,
        StartStep::CreateSession => true,
        StartStep::PrepareMindset => true,
        StartStep::PrepareWorkspace => true,
        StartStep::SelectProvider => true,
        StartStep::BindBoard => false,
    }
}

/// The step after a step; `None` where the host is up.
pub open spec fn step_after(step: StartStep, ok: bool) -> Option<StartStep> {
    match step {
        StartStep::BindRpc => if ok {
            Some(StartStep::BindSurface)
        } else {
            Some(StartStep::BindFallback)
        },
        StartStep::BindFallback => Some(StartStep::BindSurface),
        StartStep::BindSurface => Some(StartStep::CreateSession),
        StartStep::CreateSession => Some(StartStep::PrepareMindset),
        StartStep::PrepareMindset => Some(StartStep::PrepareWorkspace),
        StartStep::PrepareWorkspace => Some(StartStep::SelectProvider),
        StartStep::SelectProvider => Some(StartStep::BindBoard),
        StartStep::BindBoard => None,
    }
}

/// What a host serves after a step.
pub open spec fn plan_after(plan: HostPlan, step: StartStep, ok: bool) -> HostPlan {
    match step {
        StartStep::BindRpc => HostPlan { vm_isolation: ok, ..plan },
        StartStep::BindSurface => HostPlan { surface_relay: ok, ..plan },
        StartStep::BindBoard => HostPlan { board: ok, ..plan },
        _ => plan,
    }
}

/// What is said where a step fails that the host cannot do without.
pub open spec fn abort_text(step: StartStep, error: Seq<char>) -> Seq<char> {
    (match step {
        StartStep::BindFallback => "Failed to bind fallback RPC listener: "@,
        StartStep::CreateSession => "Failed to create session: "@,
        StartStep::PrepareMindset => "Failed to initialize mindset: "@,
        StartStep::PrepareWorkspace => "Failed to initialize workspace: "@,
        StartStep::SelectProvider => "Failed to select model provider: "@,
        _ => Seq::empty(),
    }) + error + "; aborting host startup"@
}

/// A host on its way up.
#[derive(Debug, Clone, Copy)]
pub struct Startup {
    step: StartStep,
    plan: HostPlan,
}

impl Startup {
    /// The step that is taken.
    pub closed spec fn at(&self) -> StartStep {
        self.step
    }

    /// What the host serves so far.
    pub closed spec fn so_far(&self) -> HostPlan {
        self.plan
    }

    /// Begins with the listener for child machines.
    pub fn new(telegram: bool) -> (s: Self)
        ensures
            s.at() == StartStep::BindRpc,
            s.so_far() == (HostPlan {
                vm_isolation: false,
                surface_relay: false,
                board: false,
                telegram,
            }),
    {
        Startup {
            step: StartStep::BindRpc,
            plan: HostPlan { vm_isolation: false, surface_relay: false, board: false, telegram },
        }
    }

    /// The step that is to be taken.
    pub fn step(&self) -> (r: StartStep)
        ensures
            r == self.at(),
    {
        self.step
    }

    /// Goes on after a step, given why it failed where it did.
    pub fn advance(&mut self, failure: Option<&str>) -> (a: StartAction)
        ensures
            match failure {
                Some(e) if is_needed(old(self).at()) => {
                    &&& a matches StartAction::Abort { message }
                    &&& message@ == abort_text(old(self).at(), e@)
                    &&& *final(self) == *old(self)
                },
                _ => {
                    &&& final(self).so_far() == plan_after(
                        old(self).so_far(),
                        old(self).at(),
                        failure is None,
                    )
                    &&& match step_after(old(self).at(), failure is None) {
                        Some(next) => a == (StartAction::Do { step: next }) && final(self).at()
                            == next,
                        None => a == (StartAction::Serve { plan: final(self).so_far() })
                            && final(self).at() == old(self).at(),
                    }
                },
            },
    {
        let ok = match failure {
            Some(e) => {
                let head = match self.step {
                    StartStep::BindFallback => Some("Failed to bind fallback RPC listener: "),
                    StartStep::CreateSession => Some("Failed to create session: "),
                    StartStep::PrepareMindset => Some("Failed to initialize mindset: "),
                    StartStep::PrepareWorkspace => Some("Failed to initialize workspace: "),
                    StartStep::SelectProvider => Some("Failed to select model provider: "),
                    _ => None,
                };
                if let Some(head) = head {
                    return StartAction::Abort {
                        message: text::concat3(head, e, "; aborting host startup"),
                    };
                }
                false
            },
            None => true,
        };
        let next = match self.step {
            StartStep::BindRpc => {
                self.plan.vm_isolation = ok;
                if ok {
                    StartStep::BindSurface
                } else {
                    StartStep::BindFallback
                }
            },
            StartStep::BindFallback => StartStep::BindSurface,
            StartStep::BindSurface => {
                self.plan.surface_relay = ok;
                StartStep::CreateSession
            },
            StartStep::CreateSession => StartStep::PrepareMindset,
            StartStep::PrepareMindset => StartStep::PrepareWorkspace,
            StartStep::PrepareWorkspace => StartStep::SelectProvider,
            StartStep::SelectProvider => StartStep::BindBoard,
            StartStep::BindBoard => {
                self.plan.board = ok;
                return StartAction::Serve { plan: self.plan };
            },
        };
        self.step = next;
        StartAction::Do { step: next }
    }
}

/// How many steps there are at most from a step on.
pub open spec fn steps_left(step: StartStep) -> nat {
    match step {
        StartStep::BindRpc => 8,
        StartStep::BindFallback => 7,
        StartStep::BindSurface => 6,
        StartStep::CreateSession => 5,
        StartStep::PrepareMindset => 4,
        StartStep::PrepareWorkspace => 3,
        StartStep::SelectProvider => 2,
        StartStep::BindBoard => 1,
    }
}

/// What a host serves once it is up, given which steps work; `None` where it does not come up.
pub open spec fn comes_up(step: StartStep, plan: HostPlan, works: spec_fn(StartStep) -> bool) -> Option<
    HostPlan,
>
    decreases steps_left(step),
{
    if is_needed(step) && !works(step) {
        None
    } else {
        let after = plan_after(plan, step, works(step));
        match step_after(step, works(step)) {
            Some(next) => comes_up(next, after, works),
            None => Some(after),
        }
    }
}

/// The host comes up exactly where it has a listener, a session, a mindset, a workspace and a
/// model provider. Whatever else fails is missing, and nothing besides.
pub proof fn host_does_without_the_rest(plan: HostPlan, works: spec_fn(StartStep) -> bool)
    ensures
        comes_up(StartStep::BindRpc, plan, works) == (if (works(StartStep::BindRpc) || works(
            StartStep::BindFallback,
        )) && works(StartStep::CreateSession) && works(StartStep::PrepareMindset) && works(
            StartStep::PrepareWorkspace,
        ) && works(StartStep::SelectProvider) {
            Some(
                HostPlan {
                    vm_isolation: works(StartStep::BindRpc),
                    surface_relay: works(StartStep::BindSurface),
                    board: works(StartStep::BindBoard),
                    telegram: plan.telegram,
                },
            )
        } else {
            None
        }),
{
    reveal_with_fuel(comes_up, 9);
}

/// Every step speaks for itself: it notes whether its own part works and leaves the others alone.
pub proof fn a_step_notes_its_own_part(plan: HostPlan, step: StartStep, ok: bool)
    ensures
        ({
            let after = plan_after(plan, step, ok);
            &&& after.telegram == plan.telegram
            &&& after.vm_isolation == (if step is BindRpc { ok } else { plan.vm_isolation })
            &&& after.surface_relay == (if step is BindSurface { ok } else { plan.surface_relay })
            &&& after.board == (if step is BindBoard { ok } else { plan.board })
        }),
{
}

/// The host says why it does not come up: which step failed, and with what error.
pub proof fn a_failed_step_is_named(step: StartStep, error: Seq<char>)
    ensures
        step is BindFallback ==> abort_text(step, error) == "Failed to bind fallback RPC listener: "@
            + error + "; aborting host startup"@,
        step is CreateSession ==> abort_text(step, error) == "Failed to create session: "@ + error
            + "; aborting host startup"@,
        step is PrepareMindset ==> abort_text(step, error) == "Failed to initialize mindset: "@
            + error + "; aborting host startup"@,
        step is PrepareWorkspace ==> abort_text(step, error) == "Failed to initialize workspace: "@
            + error + "; aborting host startup"@,
        step is SelectProvider ==> abort_text(step, error) == "Failed to select model provider: "@
            + error + "; aborting host startup"@,
{
}

} // verus!
