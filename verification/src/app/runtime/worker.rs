//! The worker of an app: it turns the host's frames into what its world takes in, and what its
//! world does into frames.

use vstd::prelude::*;
use crate::app::peer::LOCAL;
use crate::host::surface::PutResult;
use crate::protocol::{
    AgentToHost, Authorization, Cause, DeliveryOutcome, DurableEnvelope, EntryNotification,
    HostToAgent, IdempotencyKey, InteractionResponse, LogicalInput, PeerEnvelopeId, PeerPayload,
    PeerWire, SurfaceOp, WorldPeerId,
};
use crate::text;
use vstd::string::*;

verus! {

pub const WORLD_INPUT_CHANNEL_CAPACITY: usize = 64;

pub const PEER_CHANNEL_CAPACITY: usize = 32;

pub const SURFACE_CHANNEL_CAPACITY: usize = 32;

/// How many tokens an answer has at most, unless told otherwise.
pub const DEFAULT_MAX_TOKENS: u32 = 4096;

/// The tool that changes a surface.
pub const SURFACE_TOOL: &'static str = "set_value";

// ---------------------------------------------------------------------------
// Settings and places
// ---------------------------------------------------------------------------

/// How hard a model thinks.
#[derive(Debug, Clone, Copy, PartialEq, Eq, Structural)]
pub enum Effort {
    Low,
    Medium,
    High,
}

/// How a world asks its model.
#[derive(Debug, Clone, PartialEq, Eq)]
pub struct ModelConfig {
    pub model: String,
    pub max_tokens: u32,
    pub effort: Effort,
}

/// The number of tokens that a setting asks for.
pub open spec fn max_tokens_of(setting: Option<String>) -> int {
    match setting {
        Some(s) => match text::unsigned_value_upto(s@, u32::MAX as int) {
            Some(n) => n,
            None => DEFAULT_MAX_TOKENS as int,
        },
        None => DEFAULT_MAX_TOKENS as int,
    }
}

/// How a world asks a model.
pub fn world_model_config(model: &str, max_tokens: &Option<String>) -> (c: ModelConfig)
    ensures
        c.model@ == model@,
        c.max_tokens == max_tokens_of(*max_tokens),
        c.effort == Effort::Medium,
{
    let max_tokens: u32 = match max_tokens {
        Some(s) => match text::read_unsigned(s.as_str(), u32::MAX as u64) {
            Some(n) => n as u32,
            None => DEFAULT_MAX_TOKENS,
        },
        None => DEFAULT_MAX_TOKENS,
    };
    ModelConfig { model: model.to_string(), max_tokens, effort: Effort::Medium }
}

/// The FNV-1a hash of a string of bytes, in 64 bits.
pub open spec fn fnv1a_64(bytes: Seq<u8>) -> u64
    decreases bytes.len(),
{
    if bytes.len() == 0 {
        0xcbf2_9ce4_8422_2325u64
    } else {
        (fnv1a_64(bytes.drop_last()) ^ bytes.last() as u64).wrapping_mul(0x0000_0100_0000_01b3u64)
    }
}

/// The seed of a session's world: it is the same whenever the session is opened.
pub fn seed_from_session(app_id: &str, session_id: &str) -> (seed: u64)
    ensures
        seed == fnv1a_64(vstd::utf8::encode_utf8(app_id@ + ":"@ + session_id@)),
{
    let name = text::concat3(app_id, ":", session_id);
    let bytes = name.as_str().as_bytes();
    let mut hash: u64 = 0xcbf2_9ce4_8422_2325;
    let mut i: usize = 0;
    while i < bytes.len()
        invariant
            i <= bytes@.len(),
            hash == fnv1a_64(bytes@.take(i as int)),
        decreases bytes@.len() - i,
    {
        assert(bytes@.take(i as int + 1).drop_last() =~= bytes@.take(i as int));
        hash = (hash ^ bytes[i] as u64).wrapping_mul(0x0000_0100_0000_01b3);
        i = i + 1;
    }
    assert(bytes@.take(i as int) =~= bytes@);
    hash
}

/// Where an app keeps its sessions.
#[derive(Debug, Clone, PartialEq, Eq)]
pub struct SessionManager {
    pub home_dir: String,
    pub sessions_dir: String,
    pub latest_link: String,
}

/// The places of an app's sessions below its directory.
pub fn session_manager_at(home: String) -> (m: SessionManager)
    ensures
        m.home_dir == home,
        m.sessions_dir@ == text::path_join(home@, "sessions"@),
        m.latest_link@ == text::path_join(home@, "latest"@),
{
    let sessions_dir = text::joined_path(home.as_str(), "sessions");
    let latest_link = text::joined_path(home.as_str(), "latest");
    SessionManager { home_dir: home, sessions_dir, latest_link }
}

/// Where a session's world is recorded.
pub fn world_events_path(session_dir: &str) -> (r: String)
    ensures
        r@ == text::path_join(session_dir@, "world-events.jsonl"@),
{
    text::joined_path(session_dir, "world-events.jsonl")
}

/// Where a session's snapshots are kept.
pub fn snapshots_path(session_dir: &str) -> (r: String)
    ensures
        r@ == text::path_join(session_dir@, "snapshots"@),
{
    text::joined_path(session_dir, "snapshots")
}

/// The session to go on with: the latest one, where its name is a session's and its directory is
/// there.
pub fn session_to_resume(latest: Option<String>, is_session: bool, has_dir: bool) -> (r: Option<
    String,
>)
    ensures
        r == (if is_session && has_dir {
            latest
        } else {
            None
        }),
{
    if is_session && has_dir {
        latest
    } else {
        None
    }
}

// ---------------------------------------------------------------------------
// What the world takes in
// ---------------------------------------------------------------------------

/// What a surface's frame tells the world. What the world did itself, or a peer made it do, it
/// knows already.
pub open spec fn from_surface(frame: AgentToHost) -> Option<LogicalInput> {
    match frame {
        AgentToHost::SurfaceObservation { observed } => Some(
            LogicalInput::SurfaceObserved {
                surface: observed.surface,
                version: observed.version,
                ax_digest: observed.ax_digest,
                focus: observed.focus,
                selection: observed.selection,
                viewport: observed.viewport,
                window: observed.window,
                cursor: observed.cursor,
            },
        ),
        AgentToHost::SurfaceMutated { op, cause } => match cause {
            Cause::Human => Some(LogicalInput::SurfaceMutated { op }),
            _ => None,
        },
        _ => None,
    }
}

/// What a surface's frame tells the world.
pub fn bridge_inbound_surface_frame(frame: AgentToHost) -> (r: Option<LogicalInput>)
    ensures
        r == from_surface(frame),
{
    match frame {
        AgentToHost::SurfaceObservation { observed } => Some(
            LogicalInput::SurfaceObserved {
                surface: observed.surface,
                version: observed.version,
                ax_digest: observed.ax_digest,
                focus: observed.focus,
                selection: observed.selection,
                viewport: observed.viewport,
                window: observed.window,
                cursor: observed.cursor,
            },
        ),
        AgentToHost::SurfaceMutated { op, cause } => match cause {
            Cause::Human => Some(LogicalInput::SurfaceMutated { op }),
            _ => None,
        },
        _ => None,
    }
}

/// The envelope that an input came in.
pub open spec fn envelope_of(input: LogicalInput) -> Option<PeerEnvelopeId> {
    match input {
        LogicalInput::DriveRequested { envelope, .. } => Some(envelope),
        LogicalInput::PeerDelivered { envelope, .. } => Some(envelope),
        _ => None,
    }
}

/// The envelope that an input came in.
pub fn peer_envelope_of(input: &LogicalInput) -> (r: Option<PeerEnvelopeId>)
    ensures
        r == envelope_of(*input),
{
    match input {
        LogicalInput::DriveRequested { envelope, .. } => Some(envelope.copy()),
        LogicalInput::PeerDelivered { envelope, .. } => Some(envelope.copy()),
        _ => None,
    }
}

/// What a peer's message is to the world: what it asks for under its envelope's name, or, where it
/// came in no envelope, the message itself under a name made for it.
pub open spec fn is_bridged(input: LogicalInput, from: Seq<char>, wire: PeerWire) -> bool {
    match wire.durable {
        Some(d) => match d.payload {
            PeerPayload::Drive(drive) => input matches LogicalInput::DriveRequested {
                from: f,
                envelope,
                drive: what,
                auth,
            } && f.app_id@ == from && f.node_id@ == LOCAL@ && envelope == d.id && what == drive
                && auth == d.auth,
            PeerPayload::Message(message) => input matches LogicalInput::PeerDelivered {
                from: f,
                envelope,
                payload,
            } && f.app_id@ == from && f.node_id@ == LOCAL@ && envelope == d.id && payload
                == message,
        },
        None => input matches LogicalInput::PeerDelivered { from: f, envelope, payload }
            && f.app_id@ == from && f.node_id@ == LOCAL@ && envelope.0@ == from + "/"@ + LOCAL@
            + "/legacy"@ && payload == wire.json,
    }
}

/// What a peer's message is to the world.
pub fn bridge_peer_deliver(from: &str, payload: PeerWire) -> (input: LogicalInput)
    ensures
        is_bridged(input, from@, payload),
{
    let from_peer = WorldPeerId { app_id: from.to_string(), node_id: LOCAL.to_string() };
    match payload.durable {
        Some(envelope) => match envelope.payload {
            PeerPayload::Drive(drive) => LogicalInput::DriveRequested {
                from: from_peer,
                envelope: envelope.id,
                drive,
                auth: envelope.auth,
            },
            PeerPayload::Message(message) => LogicalInput::PeerDelivered {
                from: from_peer,
                envelope: envelope.id,
                payload: message,
            },
        },
        None => {
            let head = text::concat3(from, "/", LOCAL);
            LogicalInput::PeerDelivered {
                from: from_peer,
                envelope: PeerEnvelopeId(text::concat2(head.as_str(), "/legacy")),
                payload: payload.json,
            }
        },
    }
}

// ---------------------------------------------------------------------------
// What the world does
// ---------------------------------------------------------------------------

/// What a world wants done.
#[derive(Debug, Clone, PartialEq)]
pub enum Command {
    /// A tool is to run. `ops` are the changes among its arguments, where they can be read.
    RunTool { cmd: u64, tool: String, ops: Option<Vec<SurfaceOp>> },
    /// Something that no tool does.
    Other,
}

/// The frame that changes a surface as a command asks for; none for another command.
pub fn surface_drive_frame(command: Command) -> (r: Option<HostToAgent>)
    ensures
        match command {
            Command::RunTool { cmd, tool, ops } => if tool@ == SURFACE_TOOL@ {
                r matches Some(HostToAgent::SurfaceDrive { ops: o, cmd: c, key }) && c == cmd
                    && key.0@ == "cmd-"@ + text::decimal(cmd as nat) && (match ops {
                    Some(given) => o == given,
                    None => o@.len() == 0,
                })
            } else {
                r is None
            },
            Command::Other => r is None,
        },
{
    match command {
        Command::RunTool { cmd, tool, ops } => {
            if !text::same(tool.as_str(), SURFACE_TOOL) {
                return None;
            }
            let number = text::decimal_string(cmd);
            let key = IdempotencyKey(text::concat2("cmd-", number.as_str()));
            let ops: Vec<SurfaceOp> = match ops {
                Some(given) => given,
                None => Vec::new(),
            };
            Some(HostToAgent::SurfaceDrive { ops, cmd, key })
        },
        Command::Other => None,
    }
}

/// A change of a surface on its way to the host; nothing else goes that way.
pub fn relay_drive(frame: HostToAgent) -> (r: Option<AgentToHost>)
    ensures
        r == (match frame {
            HostToAgent::SurfaceDrive { ops, cmd, key } => Some(
                AgentToHost::SurfaceDrive { ops, cmd, key },
            ),
            _ => None,
        }),
{
    match frame {
        HostToAgent::SurfaceDrive { ops, cmd, key } => Some(
            AgentToHost::SurfaceDrive { ops, cmd, key },
        ),
        _ => None,
    }
}

/// The frames after an input was taken in: first that its envelope was, then the entries.
pub open spec fn folded(
    envelope: Option<PeerEnvelopeId>,
    notifications: Seq<EntryNotification>,
) -> Seq<AgentToHost> {
    let entries = notifications.map_values(
        |n: EntryNotification|
            AgentToHost::EntryNotification { entry: n.entry, is_final: n.is_final },
    );
    match envelope {
        Some(id) => seq![AgentToHost::PeerDeliverAck { envelope: id.0 }] + entries,
        None => entries,
    }
}

/// The frames after an input was taken in.
pub fn folded_frames(
    envelope: Option<PeerEnvelopeId>,
    notifications: Vec<EntryNotification>,
) -> (frames: Vec<AgentToHost>)
    ensures
        frames@ == folded(envelope, notifications@),
{
    let ghost all = notifications@;
    let ghost entries = all.map_values(
        |n: EntryNotification|
            AgentToHost::EntryNotification { entry: n.entry, is_final: n.is_final },
    );
    let mut frames: Vec<AgentToHost> = Vec::new();
    if let Some(id) = envelope {
        frames.push(AgentToHost::PeerDeliverAck { envelope: id.0 });
    }
    let ghost head = frames@;
    let mut rest: Vec<EntryNotification> = notifications;
    while rest.len() > 0
        invariant
            rest@.len() <= all.len(),
            rest@ == all.skip(all.len() - rest@.len()),
            entries == all.map_values(
                |n: EntryNotification|
                    AgentToHost::EntryNotification { entry: n.entry, is_final: n.is_final },
            ),
            frames@ == head + entries.take(all.len() - rest@.len()),
        decreases rest.len(),
    {
        let ghost k = all.len() - rest@.len();
        let n = rest.remove(0);
        frames.push(AgentToHost::EntryNotification { entry: n.entry, is_final: n.is_final });
        assert(rest@ =~= all.skip(k + 1));
        assert(entries.take(k + 1) =~= entries.take(k).push(entries[k]));
        assert(frames@ =~= head + entries.take(k + 1));
    }
    assert(entries.take(all.len() as int) =~= entries);
    assert(frames@ =~= folded(envelope, all));
    frames
}

/// Sends on behalf of a worker. Whether a message arrives the host finds out: to the worker it is
/// queued.
#[derive(Debug)]
pub struct WorkerPeerSender {
    pub from: String,
}

impl WorkerPeerSender {
    /// The durable envelope around a payload.
    pub fn envelope(&self, payload: PeerPayload, id: &PeerEnvelopeId) -> (d: DurableEnvelope)
        ensures
            d.id == *id,
            d.payload == payload,
            d.auth.from.app_id@ == self.from@,
            d.auth.from.node_id@ == LOCAL@,
            d.auth.token@ == self.from@,
    {
        DurableEnvelope {
            id: id.copy(),
            payload,
            auth: Authorization {
                from: WorldPeerId { app_id: self.from.clone(), node_id: LOCAL.to_string() },
                token: self.from.clone(),
            },
        }
    }

    /// The request that sends an envelope, and what the sender is told.
    pub fn send(&self, to: &WorldPeerId, wire: PeerWire) -> (r: (PeerRequest, DeliveryOutcome))
        ensures
            r.0 == (PeerRequest::Send { to: to.app_id, payload: wire }),
            r.1 == DeliveryOutcome::Queued,
    {
        (PeerRequest::Send { to: to.app_id.clone(), payload: wire }, DeliveryOutcome::Queued)
    }
}

/// What a world asks of its peers. A list is asked for under a ticket of the asker's.
#[derive(Debug, Clone, PartialEq)]
pub enum PeerRequest {
    Send { to: String, payload: PeerWire },
    List { ticket: u64 },
}

/// What to do with a frame of the host's.
#[derive(Debug, Clone, PartialEq)]
pub enum BridgeAction {
    /// The world is to take this in.
    World { input: LogicalInput },
    /// This answers whoever holds the ticket.
    Reply { ticket: u64, peers: Vec<String> },
    /// The user has answered a question.
    Answer { request_id: String, response: InteractionResponse },
    /// This came from the app's surface.
    Surface { frame: AgentToHost },
    /// Nothing.
    Ignore,
    /// The worker is to stop.
    Stop,
}

/// The worker's end of its connection to the host.
#[derive(Debug, Clone)]
pub struct HostBridge {
    pending_lists: Vec<u64>,
}

impl View for HostBridge {
    type V = Seq<u64>;

    closed spec fn view(&self) -> Seq<u64> {
        self.pending_lists@
    }
}

impl HostBridge {
    pub fn new() -> (b: Self)
        ensures
            b@ == Seq::<u64>::empty(),
    {
        HostBridge { pending_lists: Vec::new() }
    }

    /// The frame that a request of the world's becomes. Who asks for the peers waits for them from
    /// then on.
    pub fn forward(&mut self, request: PeerRequest) -> (frame: AgentToHost)
        ensures
            match request {
                PeerRequest::Send { to, payload } => frame == (AgentToHost::PeerSend {
                    to,
                    payload,
                }) && final(self)@ == old(self)@,
                PeerRequest::List { ticket } => frame is PeerList && final(self)@ == old(
                    self,
                )@.push(ticket),
            },
    {
        match request {
            PeerRequest::Send { to, payload } => AgentToHost::PeerSend { to, payload },
            PeerRequest::List { ticket } => {
                self.pending_lists.push(ticket);
                AgentToHost::PeerList
            },
        }
    }

    /// What to do with a frame of the host's, with the end of the connection or where it cannot be
    /// read: `None`. The peers answer whoever has waited longest.
    pub fn on_host_frame(&mut self, frame: Option<HostToAgent>) -> (action: BridgeAction)
        ensures
            final(self)@ == (if frame matches Some(HostToAgent::PeerListResult { .. }) && old(
                self,
            )@.len() > 0 {
                old(self)@.skip(1)
            } else {
                old(self)@
            }),
            match frame {
                Some(HostToAgent::UserMessage { text, .. }) => action == (BridgeAction::World {
                    input: LogicalInput::UserMessage { to: 0, text },
                }),
                Some(HostToAgent::PeerDeliver { from, payload }) => action
                    matches BridgeAction::World { input } && is_bridged(input, from@, payload),
                Some(HostToAgent::PeerListResult { peers }) => if old(self)@.len() > 0 {
                    action == (BridgeAction::Reply { ticket: old(self)@[0], peers })
                } else {
                    action is Ignore
                },
                Some(HostToAgent::InteractionAnswer { response }) => action
                    matches BridgeAction::Answer { request_id, response: r } && request_id@
                    == response.request_id@ && r == response,
                Some(HostToAgent::SurfaceObservation { observed }) => action == (
                BridgeAction::Surface { frame: AgentToHost::SurfaceObservation { observed } }),
                Some(HostToAgent::SurfaceMutated { op, cause }) => action == (
                BridgeAction::Surface { frame: AgentToHost::SurfaceMutated { op, cause } }),
                Some(HostToAgent::Shutdown) => action is Stop,
                Some(_) => action is Ignore,
                None => action is Stop,
            },
    {
        match frame {
            Some(HostToAgent::UserMessage { text, .. }) => BridgeAction::World {
                input: LogicalInput::UserMessage { to: 0, text },
            },
            Some(HostToAgent::PeerDeliver { from, payload }) => BridgeAction::World {
                input: bridge_peer_deliver(from.as_str(), payload),
            },
            Some(HostToAgent::PeerListResult { peers }) => {
                if self.pending_lists.len() > 0 {
                    let ticket: u64 = self.pending_lists.remove(0);
                    assert(self@ =~= old(self)@.skip(1));
                    BridgeAction::Reply { ticket, peers }
                } else {
                    BridgeAction::Ignore
                }
            },
            Some(HostToAgent::InteractionAnswer { response }) => BridgeAction::Answer {
                request_id: response.request_id.clone(),
                response,
            },
            Some(HostToAgent::SurfaceObservation { observed }) => BridgeAction::Surface {
                frame: AgentToHost::SurfaceObservation { observed },
            },
            Some(HostToAgent::SurfaceMutated { op, cause }) => BridgeAction::Surface {
                frame: AgentToHost::SurfaceMutated { op, cause },
            },
            Some(HostToAgent::Shutdown) => BridgeAction::Stop,
            Some(_) => BridgeAction::Ignore,
            None => BridgeAction::Stop,
        }
    }
}

/// Whether to go on after something was put into the world's queue: what finds no room is dropped,
/// and only a world that is gone is a reason to stop.
pub fn goes_on_after_world(result: PutResult) -> (r: bool)
    ensures
        r == (result != PutResult::Closed),
{
    match result {
        PutResult::Put => true,
        PutResult::Full => true,
        PutResult::Closed => false,
    }
}

// ---------------------------------------------------------------------------
// Laws
// ---------------------------------------------------------------------------

/// A durable envelope that the world has taken in is confirmed, under its own name and before
/// anything else is said.
pub proof fn durable_envelope_is_confirmed_first(
    input: LogicalInput,
    from: Seq<char>,
    wire: PeerWire,
    notifications: Seq<EntryNotification>,
)
    requires
        is_bridged(input, from, wire),
        wire.durable is Some,
    ensures
        folded(envelope_of(input), notifications).len() == notifications.len() + 1,
        folded(envelope_of(input), notifications)[0] == (AgentToHost::PeerDeliverAck {
            envelope: wire.durable->0.id.0,
        }),
{
}

/// What a human does on a surface the world is told; what the world did itself, or a peer made it
/// do, it is not told again.
pub proof fn only_human_changes_are_told(op: SurfaceOp, cause: Cause)
    ensures
        from_surface(AgentToHost::SurfaceMutated { op, cause }) is Some <==> cause is Human,
{
}

/// What a turn says is told in its order, each entry with whether it is the last; the confirmation
/// of an envelope comes before all of it.
pub proof fn notifications_are_told_in_order(
    a: Seq<EntryNotification>,
    b: Seq<EntryNotification>,
    n: EntryNotification,
    id: PeerEnvelopeId,
)
    ensures
        folded(None, a + b) == folded(None, a) + folded(None, b),
        folded(None, seq![n]) == seq![
            AgentToHost::EntryNotification { entry: n.entry, is_final: n.is_final },
        ],
        folded(Some(id), a) == seq![AgentToHost::PeerDeliverAck { envelope: id.0 }] + folded(
            None,
            a,
        ),
{
    assert(folded(None, a + b) =~= folded(None, a) + folded(None, b));
    assert(folded(None, seq![n]) =~= seq![
        AgentToHost::EntryNotification { entry: n.entry, is_final: n.is_final },
    ]);
}

/// What is observed of a surface is told whole, and so is what a human changes in it; what a command
/// changed is not told again.
pub proof fn surface_is_told_whole(observed: crate::protocol::SurfaceObserved, op: SurfaceOp)
    ensures
        from_surface(AgentToHost::SurfaceObservation { observed }) == Some(
            LogicalInput::SurfaceObserved {
                surface: observed.surface,
                version: observed.version,
                ax_digest: observed.ax_digest,
                focus: observed.focus,
                selection: observed.selection,
                viewport: observed.viewport,
                window: observed.window,
                cursor: observed.cursor,
            },
        ),
        from_surface(AgentToHost::SurfaceMutated { op, cause: Cause::Human }) == Some(
            LogicalInput::SurfaceMutated { op },
        ),
{
}

/// Two deliveries that lead to the same input carry the same: the same sender, and of those that
/// must not be lost the same envelope, authority and content.
pub proof fn delivery_is_told_whole(
    input: LogicalInput,
    f: Seq<char>,
    v: PeerWire,
    g: Seq<char>,
    w: PeerWire,
)
    requires
        is_bridged(input, f, v),
        is_bridged(input, g, w),
    ensures
        f == g,
        v.durable matches Some(a) ==> (w.durable matches Some(b) ==> a.id == b.id && a.payload
            == b.payload),
        v.durable matches Some(a) ==> (w.durable matches Some(b) ==> a.payload is Drive ==> a.auth
            == b.auth),
        v.durable is None && w.durable is None ==> v.json == w.json,
{
}

/// A setting that is a number is taken, and without one, or with another text, the default is.
pub proof fn max_tokens_are_read(n: u32, setting: String)
    requires
        setting@ == text::decimal(n as nat),
    ensures
        max_tokens_of(Some(setting)) == n,
        max_tokens_of(None) == DEFAULT_MAX_TOKENS,
{
    text::whole_number_is_read_back(n as int);
}

/// A seed goes on byte by byte: another byte at the end of the session's name is mixed into the
/// seed of what came before.
pub proof fn seed_goes_on(bytes: Seq<u8>, b: u8)
    ensures
        fnv1a_64(Seq::empty()) == 14_695_981_039_346_656_037u64,
        fnv1a_64(bytes.push(b)) == (fnv1a_64(bytes) ^ b as u64).wrapping_mul(
            1_099_511_628_211u64,
        ),
{
    assert(bytes.push(b).drop_last() =~= bytes);
}

} // verus!
