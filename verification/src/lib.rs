//! Verified core of a Cosmos execution stack: ABCI framing and requests, the
//! transaction pool, the commit store, block policies, the ledger cache, the
//! JSON-RPC front end and peer name records.
//!
//! Everything in this crate is pure logic on plain values. Sockets, files,
//! timers and protobuf codecs belong to the programs built around it.
pub mod abci;
pub mod block_codec;
pub mod block_policy;
pub mod byte_text;
pub mod coherency;
pub mod commit_store;
pub mod cosmos_types;
pub mod feed;
pub mod id_map;
pub mod integration;
pub mod json;
pub mod ledger;
pub mod node_rpc;
pub mod peer_discovery;
pub mod performance_monitor;
pub mod raptorcast;
pub mod rlp;
pub mod rlp_codec;
pub mod sorted_map;
pub mod text;
pub mod txpool;
pub mod varint;
