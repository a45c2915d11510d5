//! Process and thread lifecycle management with a cooperative scheduler,
//! for a small teaching kernel.
//!
//! The crate keeps the whole kernel state in plain values: identifier
//! allocators, address spaces, threads, processes, the process registry and
//! the run queue. Every operation carries a contract over the mathematical
//! view of that state.

pub mod console;
pub mod executor;
pub mod mem;
pub mod syscall;
pub mod task;
