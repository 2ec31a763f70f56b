//! Running apps: their lifecycle, their workers and what supervises them.

pub mod lifecycle;
pub mod local_supervisor;
pub mod supervision;
pub mod worker;
pub mod worker_handle;
