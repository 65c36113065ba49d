//! A CometBFT-compatible JSON-RPC front end that hands transactions to the
//! transaction pool.
pub mod broadcast_tx;
pub mod resources;
pub mod server;
pub mod types;
