//! The frames that the host and its workers exchange, and the values they carry. A value that is
//! only passed on is kept as its JSON text.

use vstd::prelude::*;
use crate::conversation::Entry;
use vstd::string::*;

verus! {

/// The name of an envelope, which stays the same however often it is sent.
#[derive(Debug, Clone, PartialEq, Eq)]
pub struct PeerEnvelopeId(pub String);

/// A key under which a repeated command is known.
#[derive(Debug, Clone, PartialEq, Eq)]
pub struct IdempotencyKey(pub String);

/// What a sent payload is known by.
#[derive(Debug, Clone, PartialEq, Eq)]
pub struct Fingerprint(pub String);

/// A peer as a world knows it.
#[derive(Debug, Clone, PartialEq, Eq)]
pub struct WorldPeerId {
    pub app_id: String,
    pub node_id: String,
}

/// On whose behalf something is asked for.
#[derive(Debug, Clone, PartialEq, Eq)]
pub struct Authorization {
    pub from: WorldPeerId,
    pub token: String,
}

/// A digest of what is on a surface.
#[derive(Debug, Clone, PartialEq, Eq)]
pub struct Hash(pub String);

/// What is selected on a surface.
#[derive(Debug, Clone, PartialEq, Eq)]
pub struct Selection(pub String);

/// The visible part of a surface.
#[derive(Debug, Clone, PartialEq, Eq)]
pub struct Viewport(pub String);

/// The state of a surface's window.
#[derive(Debug, Clone, PartialEq, Eq)]
pub struct WindowState(pub String);

/// A place that a surface can show.
#[derive(Debug, Clone, PartialEq, Eq)]
pub struct Route(pub String);

/// A change of a surface.
#[derive(Debug, Clone, PartialEq, Eq)]
pub enum SurfaceOp {
    SetValue { surface: u64, element: u64, value: String, base_version: Option<u64> },
    Click { surface: u64, element: u64, point: Option<(i64, i64)>, base_version: Option<u64> },
    Navigate { surface: u64, route: Route, base_version: Option<u64> },
}

/// Who changed a surface.
#[derive(Debug, Clone, PartialEq, Eq)]
pub enum Cause {
    Human,
    Command { cmd: u64, key: IdempotencyKey },
    Peer { envelope: PeerEnvelopeId },
}

/// What was seen of a surface.
#[derive(Debug, Clone, PartialEq, Eq)]
pub struct SurfaceObserved {
    pub surface: u64,
    pub version: u64,
    pub ax_digest: Hash,
    pub focus: Option<u64>,
    pub selection: Option<Selection>,
    pub viewport: Viewport,
    pub window: WindowState,
    pub cursor: Option<(i64, i64)>,
}

/// What one peer asks another to do.
#[derive(Debug, Clone, PartialEq, Eq)]
pub struct DriveCommand {
    pub surface_ops: Vec<SurfaceOp>,
    pub prompt: Option<String>,
}

/// What an envelope carries.
#[derive(Debug, Clone, PartialEq, Eq)]
pub enum PeerPayload {
    Drive(DriveCommand),
    Message(String),
}

/// An envelope that is kept until its receiver has taken it in.
#[derive(Debug, Clone, PartialEq, Eq)]
pub struct DurableEnvelope {
    pub id: PeerEnvelopeId,
    pub payload: PeerPayload,
    pub auth: Authorization,
}

/// What became of a send.
#[derive(Debug, Clone, Copy, PartialEq, Eq, Structural)]
pub enum DeliveryOutcome {
    Delivered,
    Queued,
    Rejected,
}

/// A question of an agent's to the user.
#[derive(Debug, Clone, PartialEq, Eq)]
pub struct AgentInteraction {
    pub app_id: String,
    pub request_id: String,
    pub body: String,
}

/// The user's answer to such a question.
#[derive(Debug, Clone, PartialEq, Eq)]
pub struct InteractionResponse {
    pub request_id: String,
    pub body: String,
}

/// An entry that a worker reports.
#[derive(Debug, Clone, PartialEq)]
pub struct EntryNotification {
    pub entry: Entry,
    pub is_final: bool,
}

/// What a world takes in.
#[allow(inconsistent_fields)]
#[derive(Debug, Clone, PartialEq)]
pub enum LogicalInput {
    UserMessage { to: u64, text: String },
    PeerDelivered { from: WorldPeerId, envelope: PeerEnvelopeId, payload: String },
    DriveRequested {
        from: WorldPeerId,
        envelope: PeerEnvelopeId,
        drive: DriveCommand,
        auth: Authorization,
    },
    SurfaceObserved {
        surface: u64,
        version: u64,
        ax_digest: Hash,
        focus: Option<u64>,
        selection: Option<Selection>,
        viewport: Viewport,
        window: WindowState,
        cursor: Option<(i64, i64)>,
    },
    SurfaceMutated { op: SurfaceOp },
    PeerSendOutcome {
        cmd: u64,
        entity: u64,
        fingerprint: Fingerprint,
        to: WorldPeerId,
        outcome: DeliveryOutcome,
    },
}

/// A frame from a worker to the host.
#[allow(inconsistent_fields)]
#[derive(Debug, Clone, PartialEq)]
pub enum AgentToHost {
    Hello { app_id: String },
    Response { text: String, entry_id: usize, is_final: bool, reply_to_message_id: Option<i32> },
    EntryNotification { entry: Entry, is_final: bool },
    Interaction { interaction: AgentInteraction },
    ExternalInteraction { task_id: String, request: AgentInteraction },
    PeerSend { to: String, payload: PeerWire },
    PeerList,
    PeerDeliverAck { envelope: String },
    SurfaceDrive { ops: Vec<SurfaceOp>, cmd: u64, key: IdempotencyKey },
    SurfaceObservation { observed: SurfaceObserved },
    SurfaceMutated { op: SurfaceOp, cause: Cause },
    SpawnVM { request: String },
}

/// A frame from the host to a worker.
#[derive(Debug, Clone, PartialEq)]
pub enum HostToAgent {
    UserMessage { text: String, telegram_message_id: Option<i32> },
    PeerDeliver { from: String, payload: PeerWire },
    PeerListResult { peers: Vec<String> },
    InteractionAnswer { response: InteractionResponse },
    InteractionResponse { request_id: String, response: InteractionResponse },
    SurfaceDrive { ops: Vec<SurfaceOp>, cmd: u64, key: IdempotencyKey },
    SurfaceObservation { observed: SurfaceObserved },
    SurfaceMutated { op: SurfaceOp, cause: Cause },
    Shutdown,
}

/// What one peer sends another: the JSON text, and the envelope that it spells, where it spells
/// one.
#[derive(Debug, Clone, PartialEq, Eq)]
pub struct PeerWire {
    pub json: String,
    pub durable: Option<DurableEnvelope>,
}

impl PeerEnvelopeId {
    /// A copy of the id.
    pub fn copy(&self) -> (r: Self)
        ensures
            r == *self,
    {
        PeerEnvelopeId(self.0.clone())
    }
}

impl WorldPeerId {
    /// A copy of the id.
    pub fn copy(&self) -> (r: Self)
        ensures
            r == *self,
    {
        WorldPeerId { app_id: self.app_id.clone(), node_id: self.node_id.clone() }
    }
}

impl AgentInteraction {
    pub fn request_id(&self) -> (r: &str)
        ensures
            r@ == self.request_id@,
    {
        self.request_id.as_str()
    }

    pub fn app_id(&self) -> (r: &str)
        ensures
            r@ == self.app_id@,
    {
        self.app_id.as_str()
    }

    /// A copy of the interaction.
    pub fn copy(&self) -> (r: Self)
        ensures
            r == *self,
    {
        AgentInteraction {
            app_id: self.app_id.clone(),
            request_id: self.request_id.clone(),
            body: self.body.clone(),
        }
    }
}

impl InteractionResponse {
    pub fn request_id(&self) -> (r: &str)
        ensures
            r@ == self.request_id@,
    {
        self.request_id.as_str()
    }
}

} // verus!
