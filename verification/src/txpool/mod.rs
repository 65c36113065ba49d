//! The transaction pool.
pub mod comet_mempool_rpc;
pub mod executor;
pub mod forward;
pub mod ipc;
pub mod mempool;
pub mod proposal;
pub mod raw;
