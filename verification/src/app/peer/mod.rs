//! Peers: apps that talk to each other.

use vstd::prelude::*;
use crate::app::AppId;
use crate::text;
use vstd::string::*;

pub mod directory;
pub mod drain;
pub mod mailbox;

verus! {

/// The name of a node.
#[derive(Debug, Clone, PartialEq, Eq, Hash)]
pub struct NodeId(pub String);

/// An app on a node.
#[derive(Debug, Clone, PartialEq, Eq, Hash)]
pub struct PeerId {
    pub app_id: AppId,
    pub node_id: NodeId,
}

/// The name of the node that this host is.
pub const LOCAL: &'static str = "local";

impl NodeId {
    pub fn local() -> (id: Self)
        ensures
            id.0@ == LOCAL@,
    {
        NodeId(LOCAL.to_string())
    }

    pub fn as_str(&self) -> (r: &str)
        ensures
            r@ == self.0@,
    {
        self.0.as_str()
    }
}

impl View for PeerId {
    type V = (Seq<char>, Seq<char>);

    /// The app's name and the node's.
    open spec fn view(&self) -> (Seq<char>, Seq<char>) {
        (self.app_id.0@, self.node_id.0@)
    }
}

impl PeerId {
    pub fn new(app_id: AppId, node_id: NodeId) -> (id: Self)
        ensures
            id.app_id == app_id,
            id.node_id == node_id,
    {
        PeerId { app_id, node_id }
    }

    /// The peer of an app on this node.
    pub fn local(app_id: AppId) -> (id: Self)
        ensures
            id.app_id == app_id,
            id@ == (app_id.0@, LOCAL@),
    {
        PeerId { app_id, node_id: NodeId::local() }
    }

    pub fn is_local(&self) -> (r: bool)
        ensures
            r == (self@.1 == LOCAL@),
    {
        text::same(self.node_id.as_str(), LOCAL)
    }

    /// The peer as it is shown: the node, a slash and the app.
    pub fn display(&self) -> (r: String)
        ensures
            r@ == self@.1 + "/"@ + self@.0,
    {
        text::concat3(self.node_id.as_str(), "/", self.app_id.as_str())
    }

    /// Whether two ids name the same peer.
    pub fn same(&self, other: &PeerId) -> (r: bool)
        ensures
            r == (self@ == other@),
    {
        self.app_id.0 == other.app_id.0 && self.node_id.0 == other.node_id.0
    }

    /// A copy of the id.
    pub fn copy(&self) -> (r: Self)
        ensures
            r == *self,
    {
        PeerId { app_id: self.app_id.copy(), node_id: NodeId(self.node_id.0.clone()) }
    }
}

/// A peer is known by its app and its node, both.
pub proof fn a_peer_is_its_parts(p: PeerId, q: PeerId)
    ensures
        p@ == q@ <==> p.app_id.0@ == q.app_id.0@ && p.node_id.0@ == q.node_id.0@,
        p@.0 == p.app_id.0@,
{
}

} // verus!
