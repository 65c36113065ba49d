//! Which blocks may extend a chain whose application executes on commit.
use vstd::prelude::*;

use crate::abci::error::CosmosIntegrationError;
use crate::abci::messages::{
    ProcessProposalRequest, ProcessProposalResponse, PROCESS_PROPOSAL_ACCEPT,
};
use crate::abci::requests;
use crate::block_policy;
use crate::block_policy::{BlockPolicyError, CosmosBlock, StateBackendError};
use crate::commit_store;
use crate::commit_store::{CosmosCommitStore, GENESIS_SEQ_NUM};
use crate::cosmos_types;
use crate::cosmos_types::{CosmosFinalizedHeader, FinalizedHeaderView};

verus! {

/// How many blocks consensus may be ahead of the application.
pub const COSMOS_MAX_AHEAD_BLOCKS: u64 = 4;

/// The headers that a node has on disk.
pub struct CosmosStateBackend {
    store: CosmosCommitStore,
}

impl CosmosStateBackend {
    /// The headers behind the backend.
    pub closed spec fn commits(self) -> Map<u64, FinalizedHeaderView> {
        self.store@
    }

    pub closed spec fn wf(self) -> bool {
        self.store.wf()
    }

    /// A backend on a store.
    pub fn new(store: CosmosCommitStore) -> (backend: Self)
        requires
            store.wf(),
        ensures
            backend.wf(),
            backend.commits() == store@,
    {
        CosmosStateBackend { store }
    }

    /// The store behind the backend.
    pub fn store(&self) -> (store: &CosmosCommitStore)
        requires
            self.wf(),
        ensures
            store.wf(),
            store@ == self.commits(),
    {
        &self.store
    }

    /// The header of a height, as it is on disk.
    pub fn get_execution_result(&self, seq_num: u64, is_finalized: bool) -> (r: Result<
        CosmosFinalizedHeader,
        StateBackendError,
    >)
        requires
            self.wf(),
        ensures
            if self.commits().contains_key(seq_num) {
                r matches Ok(h) && h@ == self.commits()[seq_num]
            } else {
                r == Err::<CosmosFinalizedHeader, StateBackendError>(
                    block_policy::missing_result(self.commits(), seq_num, is_finalized),
                )
            },
    {
        if let Some(header) = self.store.get(seq_num) {
            return Ok(header.duplicate());
        }
        Err(block_policy::missing(&self.store, seq_num, is_finalized))
    }

    /// The least height on disk.
    pub fn raw_read_earliest_finalized_block(&self) -> (r: Option<u64>)
        requires
            self.wf(),
        ensures
            commit_store::is_earliest(self.commits(), r),
    {
        self.store.earliest()
    }

    /// The greatest height on disk.
    pub fn raw_read_latest_finalized_block(&self) -> (r: Option<u64>)
        requires
            self.wf(),
        ensures
            commit_store::is_latest(self.commits(), r),
    {
        self.store.latest()
    }

    /// Accounts are not kept: every address has no status.
    pub fn get_account_statuses(&self, addresses: usize) -> (statuses: Vec<Option<u64>>)
        ensures
            statuses@.len() == addresses,
            forall|i: int| 0 <= i < statuses@.len() ==> (#[trigger] statuses@[i]) is None,
    {
        block_policy::no_statuses(addresses)
    }

    /// Validator sets are not kept.
    pub fn read_valset_at_block(&self, _block_num: u64, _requested_epoch: u64) -> (set: Vec<u64>)
        ensures
            set@.len() == 0,
    {
        Vec::new()
    }

    /// No database is behind the backend.
    pub fn total_db_lookups(&self) -> (n: u64)
        ensures
            n == 0,
    {
        0
    }
}

/// The highest block that may be proposed while the application is at `latest`.
pub open spec fn max_allowed(latest: u64) -> int {
    latest + COSMOS_MAX_AHEAD_BLOCKS
}

/// The policy of the chain: a block is right behind its parent, later than it,
/// not too far ahead of the application, and carries no execution results.
#[derive(Clone, Copy, Debug, PartialEq, Eq, Structural)]
pub struct CosmosBlockPolicy;

/// The verdict on a block.
pub open spec fn coherency_verdict(
    block: CosmosBlock,
    parent: Option<&CosmosBlock>,
    root_seq_num: u64,
    latest: u64,
) -> Result<(), BlockPolicyError> {
    if block.seq_num > max_allowed(latest) {
        Err(BlockPolicyError::BlockNotCoherent)
    } else {
        match block_policy::position_verdict(block, parent, root_seq_num) {
            Err(e) => Err(e),
            Ok(_) => if block.execution_results@.len() != 0 {
                Err(BlockPolicyError::ExecutionResultMismatch)
            } else {
                Ok(())
            },
        }
    }
}

impl CosmosBlockPolicy {
    /// Whether a block may extend the chain. `latest_finalized` is the height
    /// of the application.
    pub fn check_coherency(
        &self,
        block: &CosmosBlock,
        parent: Option<&CosmosBlock>,
        root_seq_num: u64,
        latest_finalized: Option<u64>,
    ) -> (r: Result<(), BlockPolicyError>)
        requires
            block_policy::parent_seq_num(parent, root_seq_num) < u64::MAX,
            max_allowed(commit_store::height_or_genesis(latest_finalized)) <= u64::MAX,
        ensures
            r == coherency_verdict(
                *block,
                parent,
                root_seq_num,
                commit_store::height_or_genesis(latest_finalized),
            ),
    {
        let latest: u64 = match latest_finalized {
            Some(h) => h,
            None => GENESIS_SEQ_NUM,
        };
        if block.seq_num > latest + COSMOS_MAX_AHEAD_BLOCKS {
            return Err(BlockPolicyError::BlockNotCoherent);
        }
        let (seq_num, timestamp): (u64, u128) = match parent {
            Some(p) => (p.seq_num, p.timestamp_ns),
            None => (root_seq_num, 0),
        };
        if block.seq_num != seq_num + 1 {
            return Err(BlockPolicyError::BlockNotCoherent);
        }
        if block.timestamp_ns <= timestamp {
            return Err(BlockPolicyError::TimestampError);
        }
        if block.execution_results.len() != 0 {
            return Err(BlockPolicyError::ExecutionResultMismatch);
        }
        Ok(())
    }

    /// No block carries execution results.
    pub fn get_expected_execution_results(&self, _block_seq_num: u64) -> (r: Result<
        Vec<CosmosFinalizedHeader>,
        StateBackendError,
    >)
        ensures
            r matches Ok(v) && v@.len() == 0,
    {
        Ok(Vec::new())
    }

    /// Committed blocks leave no trace in the policy.
    pub fn update_committed_block(&mut self, _block: &CosmosBlock)
        ensures
            *final(self) == *old(self),
    {
    }

    /// There is nothing to reset in the policy.
    pub fn reset(&mut self, _last_delay_committed_blocks: &Vec<CosmosBlock>)
        ensures
            *final(self) == *old(self),
    {
    }
}

/// A block that passes stands right behind its parent, is later than it, is not
/// too far ahead of the application, and carries no execution results.
pub proof fn accepted_blocks_are_coherent(
    block: CosmosBlock,
    parent: Option<&CosmosBlock>,
    root_seq_num: u64,
    latest: u64,
)
    ensures
        coherency_verdict(block, parent, root_seq_num, latest) is Ok <==> {
            &&& block.seq_num == block_policy::parent_seq_num(parent, root_seq_num) + 1
            &&& block.timestamp_ns > block_policy::parent_timestamp(parent)
            &&& block.seq_num <= latest + COSMOS_MAX_AHEAD_BLOCKS
            &&& block.execution_results@.len() == 0
        },
{
}

/// Asks the application about every block but the first few.
#[derive(Clone, Debug, PartialEq, Eq)]
pub struct CosmosBlockValidator {
    endpoint: String,
}

/// Why a block is not valid.
#[derive(Clone, Debug, PartialEq, Eq)]
pub enum CosmosBlockValidationError {
    Abci(CosmosIntegrationError),
    HeaderPayloadMismatch,
}

/// What to do next to validate a block.
pub enum ValidationAction {
    /// Only the body has to match the header.
    CheckBody,
    /// Ask the application first.
    Ask(ProcessProposalRequest),
}

impl CosmosBlockValidator {
    /// Where the application is.
    pub closed spec fn address(self) -> Seq<char> {
        self.endpoint@
    }

    pub fn new(endpoint: String) -> (validator: Self)
        ensures
            validator.address() == endpoint@,
    {
        CosmosBlockValidator { endpoint }
    }

    /// Where the application is.
    pub fn endpoint(&self) -> (endpoint: &str)
        ensures
            endpoint@ == self.address(),
    {
        self.endpoint.as_str()
    }

    /// Starts validating a block. The application is not asked while consensus
    /// may still be ahead of its genesis state.
    pub fn start<H: Fn(&[u8]) -> Vec<u8>>(&self, block: &CosmosBlock, hasher: &H) -> (action:
        ValidationAction)
        requires
            forall|b: &[u8]| #[trigger] call_requires(*hasher, (b,)),
        ensures
            if block.seq_num <= COSMOS_MAX_AHEAD_BLOCKS {
                action is CheckBody
            } else {
                action matches ValidationAction::Ask(request) && requests::is_process_for(
                    request,
                    block.header,
                    block.body@,
                    *hasher,
                )
            },
    {
        if block.seq_num <= COSMOS_MAX_AHEAD_BLOCKS {
            ValidationAction::CheckBody
        } else {
            ValidationAction::Ask(
                requests::process_request_from_inputs(&block.header, &block.body, hasher),
            )
        }
    }

    /// What the application's answer means; `Ok` leaves the body to be checked.
    pub fn answered(answer: Result<ProcessProposalResponse, CosmosIntegrationError>) -> (r: Result<
        (),
        CosmosBlockValidationError,
    >)
        ensures
            match answer {
                Ok(response) => if response.status == PROCESS_PROPOSAL_ACCEPT {
                    r is Ok
                } else {
                    r == Err::<(), CosmosBlockValidationError>(
                        CosmosBlockValidationError::Abci(CosmosIntegrationError::ProposalRejected),
                    )
                },
                Err(e) => r == Err::<(), CosmosBlockValidationError>(
                    CosmosBlockValidationError::Abci(e),
                ),
            },
    {
        match answer {
            Ok(response) => if response.status != PROCESS_PROPOSAL_ACCEPT {
                Err(CosmosBlockValidationError::Abci(CosmosIntegrationError::ProposalRejected))
            } else {
                Ok(())
            },
            Err(e) => Err(CosmosBlockValidationError::Abci(e)),
        }
    }

    /// Hands the block out if its body is the one that the header names.
    pub fn finish(block: CosmosBlock, body_matches: bool) -> (r: Result<
        CosmosBlock,
        CosmosBlockValidationError,
    >)
        ensures
            r == if body_matches {
                Ok::<CosmosBlock, CosmosBlockValidationError>(block)
            } else {
                Err::<CosmosBlock, CosmosBlockValidationError>(
                    CosmosBlockValidationError::HeaderPayloadMismatch,
                )
            },
    {
        if body_matches {
            Ok(block)
        } else {
            Err(CosmosBlockValidationError::HeaderPayloadMismatch)
        }
    }
}

/// A block is accepted if and only if it is the next one, later than its
/// parent, at most four ahead of the application, and carries no results. A
/// refused one is told the first thing that is wrong: that it is too far ahead,
/// its number, its time, or its results.
pub proof fn blocks_stay_close_to_the_application(
    block: CosmosBlock,
    parent: Option<&CosmosBlock>,
    root_seq_num: u64,
    latest: u64,
)
    ensures
        ({
            let verdict = coherency_verdict(block, parent, root_seq_num, latest);
            let (before, since): (u64, u128) = match parent {
                Some(p) => (p.seq_num, p.timestamp_ns),
                None => (root_seq_num, 0),
            };
            let close = block.seq_num <= latest + 4;
            let next = block.seq_num == before + 1;
            let later = block.timestamp_ns > since;
            let bare = block.execution_results@.len() == 0;
            &&& close && next && later && bare <==> verdict == Ok::<(), BlockPolicyError>(())
            &&& !close || !next ==> verdict == Err::<(), BlockPolicyError>(
                BlockPolicyError::BlockNotCoherent,
            )
            &&& close && next && !later ==> verdict == Err::<(), BlockPolicyError>(
                BlockPolicyError::TimestampError,
            )
            &&& close && next && later && !bare ==> verdict == Err::<(), BlockPolicyError>(
                BlockPolicyError::ExecutionResultMismatch,
            )
            &&& max_allowed(latest) == latest + 4
        }),
{
}

} // verus!
