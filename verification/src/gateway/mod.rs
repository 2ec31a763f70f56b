//! The gateway: what is shown of the agent and the board over HTTP, and what is accepted.

pub mod apps;
pub mod apps_stream;
pub mod error;
pub mod route;
pub mod server;
pub mod state;
pub mod stream;
