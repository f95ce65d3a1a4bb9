//! POSIX message queues.

pub mod abi;
pub mod access;
pub mod notify;
pub mod queue;
pub mod manager;
pub mod queue_laws;
