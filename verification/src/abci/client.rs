//! Client interfaces, one per phase of block production.
use vstd::prelude::*;

use crate::abci::error::AbciClientError;
use crate::abci::genesis::InitChainRequest;
use crate::abci::messages::{
    CheckTxRequest, CheckTxResponse, CommitRequest, CommitResponse, FinalizeBlockRequest,
    FinalizeBlockResponse, InfoRequest, InfoResponse, InitChainResponse, OpaqueMessage,
    PrepareProposalRequest, PrepareProposalResponse, ProcessProposalRequest,
    ProcessProposalResponse, QueryRequest, QueryResponse,
};

verus! {

/// Methods called during consensus and block execution.
pub trait AbciClientConsensus {
    /// Called once upon genesis to initialise the application state.
    fn init_chain(&self, req: InitChainRequest) -> Result<InitChainResponse, AbciClientError>;

    /// Called when a validator creates a proposal; the application may change
    /// the transactions in it.
    fn prepare_proposal(&self, req: PrepareProposalRequest) -> Result<
        PrepareProposalResponse,
        AbciClientError,
    >;

    /// Called when a proposal comes from the network; the application accepts
    /// or rejects it.
    fn process_proposal(&self, req: ProcessProposalRequest) -> Result<
        ProcessProposalResponse,
        AbciClientError,
    >;

    /// Called when a validator extends its vote with custom data.
    fn extend_vote(&self, req: OpaqueMessage) -> Result<OpaqueMessage, AbciClientError>;

    /// Called when a vote with extensions arrives.
    fn verify_vote_extension(&self, req: OpaqueMessage) -> Result<OpaqueMessage, AbciClientError>;

    /// Called to execute all transactions of a block and update the state.
    fn finalize_block(&self, req: FinalizeBlockRequest) -> Result<
        FinalizeBlockResponse,
        AbciClientError,
    >;

    /// Persists the new state.
    fn commit(&self, req: CommitRequest) -> Result<CommitResponse, AbciClientError>;
}

/// Methods called for every incoming transaction.
pub trait AbciClientMempool {
    /// Validates a transaction; a code of zero admits it to the pool.
    fn check_tx(&self, req: CheckTxRequest) -> Result<CheckTxResponse, AbciClientError>;

    /// Tells the application to flush pending data.
    fn flush(&self) -> Result<(), AbciClientError>;
}

/// Methods for reading application state.
pub trait AbciClientQuery {
    /// Returns the given message; useful for testing connections.
    fn echo(&self, req: OpaqueMessage) -> Result<OpaqueMessage, AbciClientError>;

    /// Returns the last block height, the application hash and the version.
    fn info(&self, req: InfoRequest) -> Result<InfoResponse, AbciClientError>;

    /// Serves a read-only query about the state.
    fn query(&self, req: QueryRequest) -> Result<QueryResponse, AbciClientError>;
}

/// Methods for state synchronisation through snapshots.
pub trait AbciClientSnapshot {
    /// Lists available snapshots.
    fn list_snapshots(&self, req: OpaqueMessage) -> Result<OpaqueMessage, AbciClientError>;

    /// Begins restoring a snapshot.
    fn offer_snapshot(&self, req: OpaqueMessage) -> Result<OpaqueMessage, AbciClientError>;

    /// Loads a chunk of a snapshot.
    fn load_snapshot_chunk(&self, req: OpaqueMessage) -> Result<OpaqueMessage, AbciClientError>;

    /// Applies a chunk of a snapshot.
    fn apply_snapshot_chunk(&self, req: OpaqueMessage) -> Result<OpaqueMessage, AbciClientError>;
}

} // verus!
