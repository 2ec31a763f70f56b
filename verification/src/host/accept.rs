//! Who has connected, told by the first frame.

use vstd::prelude::*;
use crate::error::Error;
use crate::protocol::AgentToHost;
use crate::text;
use vstd::string::*;

verus! {

/// A worker that has connected.
#[derive(Debug, Clone, PartialEq)]
pub enum AcceptedWorker {
    /// The worker of an app.
    App { app_id: String },
    /// A child machine, which has said something already.
    VmChild { first_frame: AgentToHost },
}

/// Who has connected: an app's worker says hello, a child machine anything else.
pub fn accept_worker(frame: Option<AgentToHost>, addr: &str) -> (r: Result<AcceptedWorker, Error>)
    ensures
        match frame {
            Some(AgentToHost::Hello { app_id }) => r matches Ok(w) && w
                == (AcceptedWorker::App { app_id }),
            Some(f) => r matches Ok(w) && w == (AcceptedWorker::VmChild { first_frame: f }),
            None => r matches Err(Error::Rpc(m)) && m@ == "worker at "@ + addr@
                + " disconnected before sending any frame"@,
        },
{
    match frame {
        Some(AgentToHost::Hello { app_id }) => Ok(AcceptedWorker::App { app_id }),
        Some(first_frame) => Ok(AcceptedWorker::VmChild { first_frame }),
        None => Err(
            Error::Rpc(
                text::concat3("worker at ", addr, " disconnected before sending any frame"),
            ),
        ),
    }
}

/// Where a child machine is waited for, an app's worker is sent away: `None`.
pub fn expect_child(worker: AcceptedWorker) -> (r: Option<AgentToHost>)
    ensures
        r == (match worker {
            AcceptedWorker::VmChild { first_frame } => Some(first_frame),
            AcceptedWorker::App { .. } => None,
        }),
{
    match worker {
        AcceptedWorker::VmChild { first_frame } => Some(first_frame),
        AcceptedWorker::App { .. } => None,
    }
}

/// What the first frame of a surface's client means.
#[derive(Debug, Clone, PartialEq)]
pub enum SurfaceGreeting {
    /// The client of an app's surface.
    Client { app_id: String },
    /// Something else than a hello.
    Stranger { frame: AgentToHost },
    /// Nothing came.
    Gone,
}

/// Reads the first frame of a surface's client.
pub fn greet_surface_client(frame: Option<AgentToHost>) -> (r: SurfaceGreeting)
    ensures
        r == (match frame {
            Some(AgentToHost::Hello { app_id }) => SurfaceGreeting::Client { app_id },
            Some(f) => SurfaceGreeting::Stranger { frame: f },
            None => SurfaceGreeting::Gone,
        }),
{
    match frame {
        Some(AgentToHost::Hello { app_id }) => SurfaceGreeting::Client { app_id },
        Some(frame) => SurfaceGreeting::Stranger { frame },
        None => SurfaceGreeting::Gone,
    }
}

} // verus!
