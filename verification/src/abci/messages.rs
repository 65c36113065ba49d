//! ABCI messages, reduced to what the logic of this crate reads.
//!
//! Messages that only pass through are carried as their encoded bytes.
use vstd::prelude::*;

verus! {

/// A point in time: seconds since the epoch and nanoseconds within the second.
#[derive(Clone, Copy, Debug, PartialEq, Eq, Structural)]
pub struct Timestamp {
    pub seconds: i64,
    pub nanos: i32,
}

/// A span of time.
#[derive(Clone, Copy, Debug, PartialEq, Eq, Structural)]
pub struct Duration {
    pub seconds: i64,
    pub nanos: i32,
}

/// Why a transaction is checked.
#[derive(Clone, Copy, Debug, PartialEq, Eq, Structural)]
pub enum CheckTxType {
    Unknown,
    /// The transaction is in the pool already.
    Recheck,
    /// The transaction is new.
    Check,
}

#[derive(Clone, Debug, PartialEq, Eq)]
pub struct CheckTxRequest {
    pub tx: Vec<u8>,
    pub check_type: CheckTxType,
}

/// The outcome of a check, with its events as they are encoded.
#[derive(Clone, Debug, PartialEq, Eq)]
pub struct CheckTxResponse {
    pub code: u32,
    pub data: Vec<u8>,
    pub log: String,
    pub info: String,
    pub gas_wanted: i64,
    pub gas_used: i64,
    pub events: Vec<Vec<u8>>,
    pub codespace: String,
    pub lane_id: String,
}

#[derive(Clone, Debug, PartialEq, Eq)]
pub struct InfoRequest {
    pub version: String,
    pub block_version: u64,
    pub p2p_version: u64,
    pub abci_version: String,
}

#[derive(Clone, Debug, PartialEq, Eq)]
pub struct InfoResponse {
    pub app_version: u64,
    pub last_block_height: i64,
    pub last_block_app_hash: Vec<u8>,
}

#[derive(Clone, Debug, PartialEq, Eq)]
pub struct InitChainResponse {
    pub has_consensus_params: bool,
    pub validator_updates: usize,
    pub app_hash: Vec<u8>,
}

#[derive(Clone, Debug, PartialEq, Eq)]
pub struct QueryRequest {
    pub data: Vec<u8>,
    pub path: String,
    pub height: i64,
    pub prove: bool,
}

#[derive(Clone, Debug, PartialEq, Eq)]
pub struct QueryResponse {
    pub code: u32,
    pub log: String,
    pub value: Vec<u8>,
}

/// A request to put a block together. The commit information and the
/// misbehavior list are always empty.
#[derive(Clone, Debug, PartialEq, Eq)]
pub struct PrepareProposalRequest {
    pub max_tx_bytes: i64,
    pub txs: Vec<Vec<u8>>,
    pub height: i64,
    pub time: Option<Timestamp>,
    pub next_validators_hash: Vec<u8>,
    pub proposer_address: Vec<u8>,
}

#[derive(Clone, Debug, PartialEq, Eq)]
pub struct PrepareProposalResponse {
    pub txs: Vec<Vec<u8>>,
}

/// A request to judge a block. The commit information and the misbehavior
/// list are always empty.
#[derive(Clone, Debug, PartialEq, Eq)]
pub struct ProcessProposalRequest {
    pub txs: Vec<Vec<u8>>,
    pub hash: Vec<u8>,
    pub height: i64,
    pub time: Option<Timestamp>,
    pub next_validators_hash: Vec<u8>,
    pub proposer_address: Vec<u8>,
}

#[derive(Clone, Copy, Debug, PartialEq, Eq, Structural)]
pub struct ProcessProposalResponse {
    pub status: i32,
}

/// The status with which an application accepts a proposal.
pub const PROCESS_PROPOSAL_ACCEPT: i32 = 1;

/// A request to execute a block. The commit information and the misbehavior
/// list are always empty.
#[derive(Clone, Debug, PartialEq, Eq)]
pub struct FinalizeBlockRequest {
    pub txs: Vec<Vec<u8>>,
    pub hash: Vec<u8>,
    pub height: i64,
    pub time: Option<Timestamp>,
    pub next_validators_hash: Vec<u8>,
    pub proposer_address: Vec<u8>,
    pub syncing_to_height: i64,
}

/// The outcome of a block: the whole message as it is encoded, the encoded
/// transaction results and validator updates, and the application hash.
#[derive(Clone, Debug, PartialEq, Eq)]
pub struct FinalizeBlockResponse {
    pub encoded: Vec<u8>,
    pub tx_results: Vec<Vec<u8>>,
    pub validator_updates: Vec<Vec<u8>>,
    pub app_hash: Vec<u8>,
}

#[derive(Clone, Copy, Debug, PartialEq, Eq, Structural)]
pub struct CommitRequest {}

/// The outcome of a commit, with the whole message as it is encoded.
#[derive(Clone, Debug, PartialEq, Eq)]
pub struct CommitResponse {
    pub encoded: Vec<u8>,
    pub retain_height: i64,
}

/// A message that passes through unread.
#[derive(Clone, Debug, PartialEq, Eq)]
pub struct OpaqueMessage {
    pub encoded: Vec<u8>,
}

/// The values of a consensus parameter update that a genesis file carries.
#[derive(Clone, Debug, PartialEq, Eq)]
pub struct ConsensusParams {
    pub block: BlockParams,
    pub evidence: EvidenceParams,
    pub pub_key_types: Vec<String>,
    pub app_version: u64,
    pub precision: Option<Duration>,
    pub message_delay: Option<Duration>,
    pub vote_extensions_enable_height: i64,
    pub pbts_enable_height: i64,
}

#[derive(Clone, Copy, Debug, PartialEq, Eq, Structural)]
pub struct BlockParams {
    pub max_bytes: i64,
    pub max_gas: i64,
    pub max_txs: i64,
}

#[derive(Clone, Copy, Debug, PartialEq, Eq, Structural)]
pub struct EvidenceParams {
    pub max_age_num_blocks: i64,
    pub max_age_duration: Option<Duration>,
    pub max_bytes: i64,
}

/// What an application answers on the socket.
#[derive(Clone, Debug, PartialEq, Eq)]
pub enum Response {
    /// The envelope holds no value.
    Absent,
    Exception { error: String },
    Echo(OpaqueMessage),
    Flush,
    Info(InfoResponse),
    InitChain(InitChainResponse),
    Query(QueryResponse),
    CheckTx(CheckTxResponse),
    Commit(CommitResponse),
    ListSnapshots(OpaqueMessage),
    OfferSnapshot(OpaqueMessage),
    LoadSnapshotChunk(OpaqueMessage),
    ApplySnapshotChunk(OpaqueMessage),
    PrepareProposal(PrepareProposalResponse),
    ProcessProposal(ProcessProposalResponse),
    ExtendVote(OpaqueMessage),
    VerifyVoteExtension(OpaqueMessage),
    FinalizeBlock(FinalizeBlockResponse),
}

} // verus!
