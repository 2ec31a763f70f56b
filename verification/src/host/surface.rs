//! The router between the surfaces' clients and the apps' workers.

use vstd::prelude::*;
use crate::name_set::NameSet;
use crate::protocol::AgentToHost;
use vstd::string::*;

verus! {

/// How many frames wait for a client at most.
pub const SURFACE_CLIENT_DRIVE_CAPACITY: usize = 64;

/// What became of a frame that was put into a bounded queue.
#[derive(Debug, Clone, Copy, PartialEq, Eq, Structural)]
pub enum PutResult {
    /// It waits there.
    Put,
    /// There was no room.
    Full,
    /// Nobody reads the queue any more.
    Closed,
}

/// One direction of the router: the apps whose far end is there.
pub open spec fn ends_after_put(ends: Set<Seq<char>>, app_id: Seq<char>, result: PutResult) -> Set<
    Seq<char>,
> {
    if ends.contains(app_id) && result == PutResult::Closed {
        ends.remove(app_id)
    } else {
        ends
    }
}

/// The router. The queues themselves are the caller's; the router knows which apps have one.
#[derive(Debug, Clone)]
pub struct SurfaceRouter {
    drives: NameSet,
    inbound: NameSet,
}

impl SurfaceRouter {
    pub closed spec fn valid(&self) -> bool {
        self.drives.valid() && self.inbound.valid()
    }

    /// The apps whose surface has a client.
    pub closed spec fn clients(&self) -> Set<Seq<char>> {
        self.drives@
    }

    /// The apps that have a worker.
    pub closed spec fn workers(&self) -> Set<Seq<char>> {
        self.inbound@
    }

    pub fn new() -> (r: Self)
        ensures
            r.valid(),
            r.clients() == Set::<Seq<char>>::empty(),
            r.workers() == Set::<Seq<char>>::empty(),
    {
        SurfaceRouter { drives: NameSet::new(), inbound: NameSet::new() }
    }

    pub fn register_client(&mut self, app_id: &str)
        requires
            old(self).valid(),
        ensures
            final(self).valid(),
            final(self).clients() == old(self).clients().insert(app_id@),
            final(self).workers() == old(self).workers(),
    {
        let _new = self.drives.insert(app_id);
    }

    pub fn register_worker(&mut self, app_id: &str)
        requires
            old(self).valid(),
        ensures
            final(self).valid(),
            final(self).clients() == old(self).clients(),
            final(self).workers() == old(self).workers().insert(app_id@),
    {
        let _new = self.inbound.insert(app_id);
    }

    pub fn unregister_client(&mut self, app_id: &str)
        requires
            old(self).valid(),
        ensures
            final(self).valid(),
            final(self).clients() == old(self).clients().remove(app_id@),
            final(self).workers() == old(self).workers(),
    {
        let _was = self.drives.remove(app_id);
    }

    pub fn unregister_worker(&mut self, app_id: &str)
        requires
            old(self).valid(),
        ensures
            final(self).valid(),
            final(self).clients() == old(self).clients(),
            final(self).workers() == old(self).workers().remove(app_id@),
    {
        let _was = self.inbound.remove(app_id);
    }

    pub fn has_client(&self, app_id: &str) -> (r: bool)
        ensures
            r == self.clients().contains(app_id@),
    {
        self.drives.contains(app_id)
    }

    pub fn has_worker(&self, app_id: &str) -> (r: bool)
        ensures
            r == self.workers().contains(app_id@),
    {
        self.inbound.contains(app_id)
    }

    /// Routes a frame to the client of an app's surface, given what became of it in the client's
    /// queue. A client whose queue nobody reads is gone from then on. Says whether the frame is on
    /// its way.
    pub fn route_drive(&mut self, app_id: &str, result: PutResult) -> (r: bool)
        requires
            old(self).valid(),
        ensures
            final(self).valid(),
            r == (old(self).clients().contains(app_id@) && result == PutResult::Put),
            final(self).clients() == ends_after_put(old(self).clients(), app_id@, result),
            final(self).workers() == old(self).workers(),
    {
        if !self.drives.contains(app_id) {
            return false;
        }
        match result {
            PutResult::Put => true,
            PutResult::Full => false,
            PutResult::Closed => {
                let _was = self.drives.remove(app_id);
                false
            },
        }
    }

    /// Routes a frame to the worker of an app, given what became of it in the worker's queue. A
    /// worker whose queue nobody reads is gone from then on. Says whether the frame is on its way.
    pub fn route_inbound(&mut self, app_id: &str, result: PutResult) -> (r: bool)
        requires
            old(self).valid(),
        ensures
            final(self).valid(),
            r == (old(self).workers().contains(app_id@) && result == PutResult::Put),
            final(self).workers() == ends_after_put(old(self).workers(), app_id@, result),
            final(self).clients() == old(self).clients(),
    {
        if !self.inbound.contains(app_id) {
            return false;
        }
        match result {
            PutResult::Put => true,
            PutResult::Full => false,
            PutResult::Closed => {
                let _was = self.inbound.remove(app_id);
                false
            },
        }
    }
}

/// Whether a frame of a surface's client goes on to the worker: what was seen and what was
/// changed, nothing else.
pub fn goes_to_worker(frame: &AgentToHost) -> (r: bool)
    ensures
        r == (frame is SurfaceObservation || frame is SurfaceMutated),
{
    match frame {
        AgentToHost::SurfaceObservation { .. } => true,
        AgentToHost::SurfaceMutated { .. } => true,
        _ => false,
    }
}

/// No frame reaches an app after its far end was found closed, until it is registered again.
pub proof fn closed_end_gets_nothing(ends: Set<Seq<char>>, app_id: Seq<char>, later: PutResult)
    ensures
        !ends_after_put(ends, app_id, PutResult::Closed).contains(app_id),
        ends_after_put(ends_after_put(ends, app_id, PutResult::Closed), app_id, later)
            == ends_after_put(ends, app_id, PutResult::Closed),
{
}

/// An end is taken away only where it was found closed: one that has no room, or got what was put,
/// stays, and no other end is touched.
pub proof fn only_a_closed_end_is_taken_away(
    ends: Set<Seq<char>>,
    app_id: Seq<char>,
    result: PutResult,
    other: Seq<char>,
)
    ensures
        result != PutResult::Closed ==> ends_after_put(ends, app_id, result) == ends,
        other != app_id ==> ends_after_put(ends, app_id, result).contains(other) == ends.contains(
            other,
        ),
        ends_after_put(ends, app_id, result).subset_of(ends),
{
}

} // verus!
