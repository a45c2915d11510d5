//! Processes, threads and the identifiers that name them.

pub mod id;
pub mod manager;
pub mod model;
pub mod process;
pub mod registry;
pub mod thread;
