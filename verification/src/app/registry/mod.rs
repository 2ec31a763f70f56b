//! The record of the apps.

pub mod disk;
pub mod store;
pub mod way;
