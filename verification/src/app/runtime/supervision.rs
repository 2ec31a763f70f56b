//! One worker under supervision: how it is called, what its frames ask for, and when it is started
//! again.

use vstd::prelude::*;
use crate::app::peer::directory;
use crate::app::peer::{PeerId, LOCAL};
use crate::app::AppId;
use crate::host::broker::{OutcomeView, PeerRouteOutcome};
use crate::host::accept::AcceptedWorker;
use crate::error::Error;
use crate::name_map::NameMap;
use crate::protocol::{
    AgentInteraction, AgentToHost, EntryNotification, HostToAgent, PeerEnvelopeId, PeerWire,
};
use crate::text;
use vstd::string::*;

verus! {

pub const CHANNEL_CAPACITY: usize = 256;

pub const OUTBOUND_CAPACITY: usize = 64;

pub const SURFACE_RELAY_CAPACITY: usize = 64;

/// The first pause before a worker is started again, in milliseconds.
pub const INITIAL_BACKOFF_MS: u64 = 250;

/// The longest such pause.
pub const MAX_BACKOFF_MS: u64 = 30_000;

/// A worker that ran this long was well: the pauses start anew.
pub const HEALTHY_UPTIME_MS: u64 = 10_000;

/// How long a new worker has to connect.
pub const CONNECT_READY_TIMEOUT_MS: u64 = 30_000;

/// How long a worker has to stop by itself.
pub const SHUTDOWN_GRACE_MS: u64 = 2_000;

/// How often idle apps are looked for.
pub const SWEEP_INTERVAL_MS: u64 = 30_000;

pub const FLAG_AGENT: &'static str = "--agent";

pub const FLAG_RPC_HOST: &'static str = "--rpc-host";

pub const FLAG_TASK_ID: &'static str = "--task-id";

pub const FLAG_APP_SESSION_DIR: &'static str = "--app-session-dir";

/// The arguments of an app's worker.
pub open spec fn arguments_of(
    rpc_addr: Seq<char>,
    app_id: Seq<char>,
    session_dir: Seq<char>,
) -> Seq<Seq<char>> {
    seq![
        FLAG_AGENT@,
        FLAG_RPC_HOST@,
        rpc_addr,
        FLAG_TASK_ID@,
        app_id,
        FLAG_APP_SESSION_DIR@,
        session_dir,
    ]
}

/// The arguments that an app's worker is started with.
pub fn worker_arguments(rpc_addr: &str, app_id: &AppId, session_dir: &str) -> (r: Vec<String>)
    ensures
        text::views(r@) == arguments_of(rpc_addr@, app_id.0@, session_dir@),
{
    let mut r: Vec<String> = Vec::new();
    r.push(FLAG_AGENT.to_string());
    r.push(FLAG_RPC_HOST.to_string());
    r.push(rpc_addr.to_string());
    r.push(FLAG_TASK_ID.to_string());
    r.push(app_id.0.clone());
    r.push(FLAG_APP_SESSION_DIR.to_string());
    r.push(session_dir.to_string());
    assert(text::views(r@) =~= arguments_of(rpc_addr@, app_id.0@, session_dir@));
    r
}

// ---------------------------------------------------------------------------
// Starting again
// ---------------------------------------------------------------------------

/// The pause before the next start: the one at hand, and the first one where the worker was well.
pub open spec fn pause(backoff: int, uptime: int) -> int {
    if uptime >= HEALTHY_UPTIME_MS {
        INITIAL_BACKOFF_MS as int
    } else {
        backoff
    }
}

/// The pause after a pause: twice as long, up to the longest one.
pub open spec fn longer(backoff: int) -> int {
    if backoff * 2 <= MAX_BACKOFF_MS {
        backoff * 2
    } else {
        MAX_BACKOFF_MS as int
    }
}

/// The pauses between the starts of one worker, in milliseconds.
#[derive(Debug, Clone, Copy)]
pub struct Backoff {
    next_ms: u64,
}

impl View for Backoff {
    type V = int;

    closed spec fn view(&self) -> int {
        self.next_ms as int
    }
}

impl Backoff {
    pub closed spec fn valid(&self) -> bool {
        INITIAL_BACKOFF_MS <= self.next_ms <= MAX_BACKOFF_MS
    }

    pub fn new() -> (b: Self)
        ensures
            b.valid(),
            b@ == INITIAL_BACKOFF_MS,
    {
        Backoff { next_ms: INITIAL_BACKOFF_MS }
    }

    /// The worker stopped after a time: how long to wait before it is started again.
    pub fn stopped_after(&mut self, uptime_ms: u64) -> (wait_ms: u64)
        requires
            old(self).valid(),
        ensures
            final(self).valid(),
            wait_ms == pause(old(self)@, uptime_ms as int),
            final(self)@ == longer(wait_ms as int),
            INITIAL_BACKOFF_MS <= wait_ms <= MAX_BACKOFF_MS,
    {
        let wait_ms: u64 = if uptime_ms >= HEALTHY_UPTIME_MS {
            INITIAL_BACKOFF_MS
        } else {
            self.next_ms
        };
        let twice: u64 = wait_ms * 2;
        self.next_ms = if twice <= MAX_BACKOFF_MS {
            twice
        } else {
            MAX_BACKOFF_MS
        };
        wait_ms
    }
}

/// The pause after a number of crashes right after the start, one after the other.
pub open spec fn pause_after(crashes: nat) -> int
    decreases crashes,
{
    if crashes == 0 {
        INITIAL_BACKOFF_MS as int
    } else {
        longer(pause_after((crashes - 1) as nat))
    }
}

/// In a crash loop the pauses never become shorter, stay within their bounds, and reach the longest
/// one with the seventh crash.
pub proof fn pauses_grow_to_the_longest(crashes: nat)
    ensures
        INITIAL_BACKOFF_MS <= pause_after(crashes) <= MAX_BACKOFF_MS,
        pause_after(crashes) <= pause_after(crashes + 1),
        crashes >= 7 ==> pause_after(crashes) == MAX_BACKOFF_MS,
    decreases crashes,
{
    if crashes > 0 {
        pauses_grow_to_the_longest((crashes - 1) as nat);
    }
    if crashes == 7 {
        reveal_with_fuel(pause_after, 9);
    }
}

/// A worker that was well is started again after the first pause, however long the last one was.
pub proof fn healthy_worker_starts_anew(backoff: int, uptime: int)
    requires
        uptime >= HEALTHY_UPTIME_MS,
    ensures
        pause(backoff, uptime) == INITIAL_BACKOFF_MS,
        pause(backoff, uptime) == pause_after(0),
{
}

// ---------------------------------------------------------------------------
// Frames
// ---------------------------------------------------------------------------

/// What a worker's frame asks for.
#[derive(Debug, Clone, PartialEq)]
pub enum PumpAction {
    /// Tell those who listen; the turn is over where it was the final entry.
    Announce { notification: EntryNotification },
    /// Note a question to the user down.
    Capture { interaction: AgentInteraction },
    /// Relay a message to a peer.
    Relay { to: PeerId, payload: PeerWire },
    /// Answer with the peers.
    ListPeers,
    /// The worker has taken an envelope in.
    ConfirmFold { envelope: PeerEnvelopeId },
    /// Send this to the client of the app's surface.
    Drive { frame: HostToAgent },
    /// Nothing.
    Ignore,
}

/// What a worker's frame asks for.
pub open spec fn asked_by(action: PumpAction, frame: AgentToHost) -> bool {
    match frame {
        AgentToHost::EntryNotification { entry, is_final } => action == (PumpAction::Announce {
            notification: EntryNotification { entry, is_final },
        }),
        AgentToHost::Interaction { interaction } => action == (PumpAction::Capture { interaction }),
        AgentToHost::PeerSend { to, payload } => action matches PumpAction::Relay {
            to: t,
            payload: p,
        } && t@ == (to@, LOCAL@) && p == payload,
        AgentToHost::PeerList => action is ListPeers,
        AgentToHost::PeerDeliverAck { envelope } => action == (PumpAction::ConfirmFold {
            envelope: PeerEnvelopeId(envelope),
        }),
        AgentToHost::SurfaceDrive { ops, cmd, key } => action == (PumpAction::Drive {
            frame: HostToAgent::SurfaceDrive { ops, cmd, key },
        }),
        _ => action is Ignore,
    }
}

/// What a worker's frame asks for.
pub fn on_worker_frame(frame: AgentToHost) -> (action: PumpAction)
    ensures
        asked_by(action, frame),
{
    match frame {
        AgentToHost::EntryNotification { entry, is_final } => PumpAction::Announce {
            notification: EntryNotification { entry, is_final },
        },
        AgentToHost::Interaction { interaction } => PumpAction::Capture { interaction },
        AgentToHost::PeerSend { to, payload } => PumpAction::Relay {
            to: PeerId::local(AppId(to)),
            payload,
        },
        AgentToHost::PeerList => PumpAction::ListPeers,
        AgentToHost::PeerDeliverAck { envelope } => PumpAction::ConfirmFold {
            envelope: PeerEnvelopeId(envelope),
        },
        AgentToHost::SurfaceDrive { ops, cmd, key } => PumpAction::Drive {
            frame: HostToAgent::SurfaceDrive { ops, cmd, key },
        },
        _ => PumpAction::Ignore,
    }
}

/// A frame of a surface's client as the worker gets it: what was seen and what was changed,
/// nothing else.
pub fn on_surface_frame(frame: AgentToHost) -> (r: Option<HostToAgent>)
    ensures
        r == (match frame {
            AgentToHost::SurfaceObservation { observed } => Some(
                HostToAgent::SurfaceObservation { observed },
            ),
            AgentToHost::SurfaceMutated { op, cause } => Some(
                HostToAgent::SurfaceMutated { op, cause },
            ),
            _ => None,
        }),
{
    match frame {
        AgentToHost::SurfaceObservation { observed } => Some(
            HostToAgent::SurfaceObservation { observed },
        ),
        AgentToHost::SurfaceMutated { op, cause } => Some(HostToAgent::SurfaceMutated { op, cause }),
        _ => None,
    }
}

/// The answer to a worker that asks for the peers: the names of their apps.
pub fn peer_list_frame(peers: &Vec<PeerId>) -> (frame: HostToAgent)
    ensures
        frame matches HostToAgent::PeerListResult { peers: names } && text::views(names@)
            == directory::peer_views(peers@).map_values(|p: (Seq<char>, Seq<char>)| p.0),
{
    let ghost want = directory::peer_views(peers@).map_values(|p: (Seq<char>, Seq<char>)| p.0);
    let mut names: Vec<String> = Vec::new();
    let mut i: usize = 0;
    while i < peers.len()
        invariant
            i <= peers.len(),
            want == directory::peer_views(peers@).map_values(|p: (Seq<char>, Seq<char>)| p.0),
            names@.len() == i,
            forall|k: int| 0 <= k < i ==> (#[trigger] names@[k])@ == want[k],
        decreases peers.len() - i,
    {
        names.push(peers[i].app_id.0.clone());
        i = i + 1;
    }
    assert(text::views(names@) =~= want);
    HostToAgent::PeerListResult { peers: names }
}

/// The app that is to be woken after a relay: the receiver of what was queued.
pub fn to_wake(outcome: &PeerRouteOutcome) -> (r: Option<AppId>)
    ensures
        match (outcome@, r) {
            (OutcomeView::Queued { wake }, Some(id)) => id.0@ == wake.0,
            (OutcomeView::Queued { .. }, None) => false,
            (_, r) => r is None,
        },
{
    match outcome {
        PeerRouteOutcome::Queued { wake } => Some(wake.app_id.copy()),
        _ => None,
    }
}

// ---------------------------------------------------------------------------
// Connections
// ---------------------------------------------------------------------------

/// Which supervision waits for the worker of which app. A supervision is known by a number.
#[derive(Debug)]
pub struct ConnectionInboxes {
    owners: NameMap<u64>,
}

impl View for ConnectionInboxes {
    type V = Map<Seq<char>, u64>;

    closed spec fn view(&self) -> Map<Seq<char>, u64> {
        self.owners@
    }
}

/// Who waits after a supervision has ended: it alone is gone.
pub open spec fn released(
    waiting: Map<Seq<char>, u64>,
    id: Seq<char>,
    owner: u64,
) -> Map<Seq<char>, u64> {
    if waiting.contains_key(id) && waiting[id] == owner {
        waiting.remove(id)
    } else {
        waiting
    }
}

impl ConnectionInboxes {
    pub closed spec fn valid(&self) -> bool {
        self.owners.valid()
    }

    /// Nobody waits.
    pub fn new() -> (s: Self)
        ensures
            s.valid(),
            s@ == Map::<Seq<char>, u64>::empty(),
    {
        ConnectionInboxes { owners: NameMap::new() }
    }

    /// A supervision waits for an app's worker, in the place of another one.
    pub fn install(&mut self, id: &AppId, owner: u64)
        requires
            old(self).valid(),
        ensures
            final(self).valid(),
            final(self)@ == old(self)@.insert(id.0@, owner),
    {
        self.owners.insert(id.as_str(), owner);
    }

    /// A supervision has ended.
    pub fn release(&mut self, id: &AppId, owner: u64)
        requires
            old(self).valid(),
        ensures
            final(self).valid(),
            final(self)@ == released(old(self)@, id.0@, owner),
    {
        let own = match self.owners.get(id.as_str()) {
            Some(current) => *current == owner,
            None => false,
        };
        if own {
            let _ = self.owners.remove(id.as_str());
        }
    }

    /// The supervision that a new connection belongs to: that of an app's worker that somebody
    /// waits for.
    pub fn connection_of(&self, worker: AcceptedWorker) -> (r: Option<(AppId, u64)>)
        requires
            self.valid(),
        ensures
            match r {
                Some((id, owner)) => worker matches AcceptedWorker::App { app_id } && app_id
                    == id.0 && self@.contains_key(app_id@) && self@[app_id@] == owner,
                None => !(worker matches AcceptedWorker::App { app_id } && self@.contains_key(
                    app_id@,
                )),
            },
    {
        match worker {
            AcceptedWorker::App { app_id } => match self.owners.get(app_id.as_str()) {
                Some(owner) => {
                    let owner: u64 = *owner;
                    Some((AppId(app_id), owner))
                },
                None => None,
            },
            AcceptedWorker::VmChild { .. } => None,
        }
    }
}

/// A supervision that ends late takes away no place but its own: the worker that was started in
/// the meantime is still waited for.
pub proof fn late_end_keeps_the_new_worker(
    waiting: Map<Seq<char>, u64>,
    id: Seq<char>,
    first: u64,
    second: u64,
)
    requires
        first != second,
    ensures
        released(waiting.insert(id, first).insert(id, second), id, first)[id] == second,
        released(waiting.insert(id, first).insert(id, second), id, first).contains_key(id),
        !released(waiting.insert(id, first), id, first).contains_key(id),
{
}

// ---------------------------------------------------------------------------
// One run of a worker
// ---------------------------------------------------------------------------

/// What happens while a new worker is waited for.
#[derive(Debug, Clone, PartialEq, Eq)]
pub enum ConnectEvent {
    /// The supervision is to end.
    Cancelled,
    /// The worker has stopped.
    Exited { status: String },
    Connected,
    /// Nobody can connect any more.
    Closed,
}

/// What to do then.
#[derive(Debug, PartialEq)]
pub enum ConnectStep {
    /// Read and write its frames; first tell who waits for the worker, where that was not told yet.
    Pump { tell: bool },
    /// Kill the worker; nothing is wrong.
    Kill,
    Fail { error: Error },
}

/// Whether it was told that a worker is ready.
#[derive(Debug, Clone, Copy, PartialEq, Eq, Structural)]
pub struct Readiness {
    pub told: bool,
}

impl Readiness {
    pub fn new() -> (r: Self)
        ensures
            !r.told,
    {
        Readiness { told: false }
    }

    /// Goes on after something happened while a new worker was waited for.
    pub fn on_connect_event(&mut self, event: ConnectEvent, app_id: &AppId) -> (step: ConnectStep)
        ensures
            final(self).told == (old(self).told || event is Connected),
            match event {
                ConnectEvent::Cancelled => step is Kill,
                ConnectEvent::Closed => step is Kill,
                ConnectEvent::Connected => step == (ConnectStep::Pump { tell: !old(self).told }),
                ConnectEvent::Exited { status } => step matches ConnectStep::Fail {
                    error: Error::App(m),
                } && m@ == "worker for App `"@ + app_id.0@ + "` exited before connecting: "@
                    + status@,
            },
    {
        match event {
            ConnectEvent::Cancelled => ConnectStep::Kill,
            ConnectEvent::Closed => ConnectStep::Kill,
            ConnectEvent::Connected => {
                let tell = !self.told;
                self.told = true;
                ConnectStep::Pump { tell }
            },
            ConnectEvent::Exited { status } => {
                let head = text::concat3(
                    "worker for App `",
                    app_id.as_str(),
                    "` exited before connecting: ",
                );
                ConnectStep::Fail { error: Error::App(text::concat2(head.as_str(), status.as_str())) }
            },
        }
    }
}

/// What happens while a worker runs.
#[derive(Debug, Clone, PartialEq)]
pub enum PumpEvent {
    /// The supervision is to end.
    Cancelled,
    /// The worker said something, or its connection ended.
    Frame(Option<AgentToHost>),
    /// What the worker said could not be read.
    ReadFailed(Error),
    /// Something is to be said to the worker, or nobody is left who could.
    Outbound(Option<HostToAgent>),
    /// The client of the app's surface said something.
    Surface(Option<AgentToHost>),
    /// The worker has stopped.
    Exited { status: String },
}

/// What to do then.
#[derive(Debug, PartialEq)]
pub enum PumpStep {
    Act { action: PumpAction },
    Write { frame: HostToAgent },
    Continue,
    End { result: Result<(), Error> },
}

/// Goes on after something happened while a worker ran.
pub fn on_pump_event(event: PumpEvent, app_id: &AppId) -> (step: PumpStep)
    ensures
        match event {
            PumpEvent::Cancelled => step == (PumpStep::End { result: Ok(()) }),
            PumpEvent::Frame(None) => step == (PumpStep::End { result: Ok(()) }),
            PumpEvent::Frame(Some(f)) => step matches PumpStep::Act { action } && asked_by(
                action,
                f,
            ),
            PumpEvent::ReadFailed(e) => step == (PumpStep::End { result: Err(e) }),
            PumpEvent::Outbound(Some(f)) => step == (PumpStep::Write { frame: f }),
            PumpEvent::Outbound(None) => step == (PumpStep::End { result: Ok(()) }),
            PumpEvent::Surface(Some(AgentToHost::SurfaceObservation { observed })) => step == (
            PumpStep::Write { frame: HostToAgent::SurfaceObservation { observed } }),
            PumpEvent::Surface(Some(AgentToHost::SurfaceMutated { op, cause })) => step == (
            PumpStep::Write { frame: HostToAgent::SurfaceMutated { op, cause } }),
            PumpEvent::Surface(_) => step is Continue,
            PumpEvent::Exited { status } => step matches PumpStep::End {
                result: Err(Error::App(m)),
            } && m@ == "worker for App `"@ + app_id.0@ + "` exited: "@ + status@,
        },
{
    match event {
        PumpEvent::Cancelled => PumpStep::End { result: Ok(()) },
        PumpEvent::Frame(None) => PumpStep::End { result: Ok(()) },
        PumpEvent::Frame(Some(f)) => PumpStep::Act { action: on_worker_frame(f) },
        PumpEvent::ReadFailed(e) => PumpStep::End { result: Err(e) },
        PumpEvent::Outbound(Some(frame)) => PumpStep::Write { frame },
        PumpEvent::Outbound(None) => PumpStep::End { result: Ok(()) },
        PumpEvent::Surface(Some(f)) => match on_surface_frame(f) {
            Some(frame) => PumpStep::Write { frame },
            None => PumpStep::Continue,
        },
        PumpEvent::Surface(None) => PumpStep::Continue,
        PumpEvent::Exited { status } => {
            let head = text::concat3("worker for App `", app_id.as_str(), "` exited: ");
            PumpStep::End {
                result: Err(Error::App(text::concat2(head.as_str(), status.as_str()))),
            }
        },
    }
}

/// The pause doubles with every crash until it is the longest.
pub proof fn pauses_double(crashes: nat)
    ensures
        pause_after(0) == INITIAL_BACKOFF_MS,
        pause_after(crashes + 1) == (if 2 * pause_after(crashes) <= MAX_BACKOFF_MS {
            2 * pause_after(crashes)
        } else {
            MAX_BACKOFF_MS as int
        }),
{
}

/// A worker that crashes soon waits as long as was decided before; only one that ran long enough
/// starts with the shortest pause again.
pub proof fn short_life_keeps_the_pause(backoff: int, uptime: int)
    requires
        uptime < HEALTHY_UPTIME_MS,
    ensures
        pause(backoff, uptime) == backoff,
{
}

/// What a worker's frame asks for tells the frame: nothing that it says is lost on the way.
pub proof fn action_tells_its_frame(action: PumpAction, f: AgentToHost, g: AgentToHost)
    requires
        asked_by(action, f),
        asked_by(action, g),
        !(action is Ignore),
    ensures
        match f {
            AgentToHost::PeerSend { to, payload } => g matches AgentToHost::PeerSend {
                to: t,
                payload: p,
            } && t@ == to@ && p == payload,
            _ => g == f,
        },
{
}

/// Each frame that asks for something is acted on, in its own way.
pub proof fn frames_are_acted_on(action: PumpAction, f: AgentToHost)
    requires
        asked_by(action, f),
    ensures
        action is Announce <==> f is EntryNotification,
        action is Capture <==> f is Interaction,
        action is Relay <==> f is PeerSend,
        action is ListPeers <==> f is PeerList,
        action is ConfirmFold <==> f is PeerDeliverAck,
        action is Drive <==> f is SurfaceDrive,
{
}

/// The end of a supervision takes away its own place alone.
pub proof fn release_is_the_owners(
    waiting: Map<Seq<char>, u64>,
    id: Seq<char>,
    owner: u64,
    other: Seq<char>,
)
    ensures
        other != id ==> released(waiting, id, owner).contains_key(other) == waiting.contains_key(
            other,
        ) && (waiting.contains_key(other) ==> released(waiting, id, owner)[other]
            == waiting[other]),
        waiting.contains_key(id) && waiting[id] != owner ==> released(waiting, id, owner)
            == waiting,
        waiting.contains_key(id) && waiting[id] == owner ==> !released(
            waiting,
            id,
            owner,
        ).contains_key(id),
{
}

} // verus!
