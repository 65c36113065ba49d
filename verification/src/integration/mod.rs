//! The node side of an application that executes blocks when they are
//! committed, while consensus may run a few blocks ahead of it.
pub mod executor;
pub mod ipc;
pub mod policy;
