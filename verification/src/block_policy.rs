//! Which blocks may extend the chain when execution results travel with a
//! delay.
use vstd::prelude::*;

use crate::abci::error::CosmosTxPoolError;
use crate::abci::messages::{ProcessProposalResponse, PROCESS_PROPOSAL_ACCEPT};
use crate::commit_store;
use crate::commit_store::{CosmosCommitStore, GENESIS_SEQ_NUM};
use crate::cosmos_types::{
    CosmosBlockBody, CosmosFinalizedHeader, FinalizedHeaderView, ProposedCosmosHeader,
};

verus! {

/// Why a state backend has no answer.
#[derive(Clone, Copy, Debug, PartialEq, Eq, Structural)]
pub enum StateBackendError {
    NotAvailableYet,
    NeverAvailable,
}

/// Why a block may not extend the chain.
#[derive(Clone, Copy, Debug, PartialEq, Eq, Structural)]
pub enum BlockPolicyError {
    BlockNotCoherent,
    TimestampError,
    ExecutionResultMismatch,
    StateBackendError(StateBackendError),
}

/// A consensus block as far as policies look at it.
#[derive(Clone, Debug, PartialEq, Eq)]
pub struct CosmosBlock {
    pub seq_num: u64,
    pub timestamp_ns: u128,
    pub execution_results: Vec<CosmosFinalizedHeader>,
    pub header: ProposedCosmosHeader,
    pub body: CosmosBlockBody,
}

/// What a list of headers says.
pub open spec fn header_views(headers: Seq<CosmosFinalizedHeader>) -> Seq<FinalizedHeaderView> {
    Seq::new(headers.len(), |i: int| headers[i]@)
}

/// Whether a header is an execution result: a block that was executed, or the
/// genesis state with its application hash.
pub open spec fn is_result(height: u64, header: FinalizedHeaderView) -> bool {
    header.finalize_block_response.len() > 0 || (height == GENESIS_SEQ_NUM && header.app_hash.len()
        > 0)
}

/// The execution results that a node has on disk.
pub struct CosmosStateBackend {
    store: CosmosCommitStore,
}

impl CosmosStateBackend {
    /// The headers behind the backend.
    pub closed spec fn commits(self) -> Map<u64, FinalizedHeaderView> {
        self.store@
    }

    pub closed spec fn wf(self) -> bool {
        self.store.wf()
    }

    /// A backend on a store.
    pub fn new(store: CosmosCommitStore) -> (backend: Self)
        requires
            store.wf(),
        ensures
            backend.wf(),
            backend.commits() == store@,
    {
        CosmosStateBackend { store }
    }

    /// The store behind the backend.
    pub fn store(&self) -> (store: &CosmosCommitStore)
        requires
            self.wf(),
        ensures
            store.wf(),
            store@ == self.commits(),
    {
        &self.store
    }

    /// The store behind the backend, for committing.
    pub fn into_store(self) -> (store: CosmosCommitStore)
        requires
            self.wf(),
        ensures
            store.wf(),
            store@ == self.commits(),
    {
        self.store
    }

    /// Accounts are not kept: every address has no status.
    pub fn get_account_statuses(&self, addresses: usize) -> (statuses: Vec<Option<u64>>)
        ensures
            statuses@.len() == addresses,
            forall|i: int| 0 <= i < statuses@.len() ==> (#[trigger] statuses@[i]) is None,
    {
        no_statuses(addresses)
    }

    /// The execution result of a height. The history is linear, so a height
    /// is enough to name a block.
    pub fn get_execution_result(&self, seq_num: u64, is_finalized: bool) -> (r: Result<
        CosmosFinalizedHeader,
        StateBackendError,
    >)
        requires
            self.wf(),
        ensures
            if self.commits().contains_key(seq_num) && is_result(
                seq_num,
                self.commits()[seq_num],
            ) {
                r matches Ok(h) && h@ == self.commits()[seq_num]
            } else {
                r == Err::<CosmosFinalizedHeader, StateBackendError>(
                    missing_result(self.commits(), seq_num, is_finalized),
                )
            },
    {
        if let Some(header) = self.store.get(seq_num) {
            if header.finalize_block_response.len() > 0 {
                return Ok(header.duplicate());
            }
            if seq_num == GENESIS_SEQ_NUM && header.app_hash.len() > 0 {
                return Ok(header.duplicate());
            }
        }
        Err(missing(&self.store, seq_num, is_finalized))
    }

    /// The least height on disk.
    pub fn raw_read_earliest_finalized_block(&self) -> (r: Option<u64>)
        requires
            self.wf(),
        ensures
            commit_store::is_earliest(self.commits(), r),
    {
        self.store.earliest()
    }

    /// The greatest height on disk.
    pub fn raw_read_latest_finalized_block(&self) -> (r: Option<u64>)
        requires
            self.wf(),
        ensures
            commit_store::is_latest(self.commits(), r),
    {
        self.store.latest()
    }

    /// Validator sets are not kept.
    pub fn read_valset_at_block(&self, _block_num: u64, _requested_epoch: u64) -> (set: Vec<u64>)
        ensures
            set@.len() == 0,
    {
        Vec::new()
    }

    /// No database is behind the backend.
    pub fn total_db_lookups(&self) -> (n: u64)
        ensures
            n == 0,
    {
        0
    }
}

/// No status for each of some addresses.
pub(crate) fn no_statuses(addresses: usize) -> (statuses: Vec<Option<u64>>)
    ensures
        statuses@.len() == addresses,
        forall|i: int| 0 <= i < statuses@.len() ==> (#[trigger] statuses@[i]) is None,
{
    let mut statuses: Vec<Option<u64>> = Vec::new();
    while statuses.len() < addresses
        invariant
            statuses@.len() <= addresses,
            forall|i: int| 0 <= i < statuses@.len() ==> (#[trigger] statuses@[i]) is None,
        decreases addresses - statuses@.len(),
    {
        statuses.push(None);
    }
    statuses
}

/// Why the result of a height is missing: below a finalized history it will
/// never come, otherwise it may still.
pub open spec fn missing_result(
    commits: Map<u64, FinalizedHeaderView>,
    seq_num: u64,
    is_finalized: bool,
) -> StateBackendError {
    if is_finalized && exists|h: u64| commit_store::is_least(commits, h) && h > seq_num {
        StateBackendError::NeverAvailable
    } else {
        StateBackendError::NotAvailableYet
    }
}

pub(crate) fn missing(store: &CosmosCommitStore, seq_num: u64, is_finalized: bool) -> (e:
    StateBackendError)
    requires
        store.wf(),
    ensures
        e == missing_result(store@, seq_num, is_finalized),
{
    if is_finalized {
        if let Some(earliest) = store.earliest() {
            proof {
                assert forall|h: u64| commit_store::is_least(store@, h) implies h == earliest by {
                    assert(store@.contains_key(h) && store@.contains_key(earliest));
                }
            }
            if earliest > seq_num {
                return StateBackendError::NeverAvailable;
            }
        } else {
            proof {
                assert forall|h: u64| !commit_store::is_least(store@, h) by {
                    assert(!store@.contains_key(h));
                }
            }
        }
    }
    StateBackendError::NotAvailableYet
}

/// Whether the store has the execution result of a height.
pub fn execution_result_cached(store: &CosmosCommitStore, height: u64) -> (r: bool)
    ensures
        r == is_cached(store@, height),
{
    match store.get(height) {
        Some(h) => h.finalize_block_response.len() > 0 || (height == GENESIS_SEQ_NUM
            && h.app_hash.len() > 0),
        None => false,
    }
}

pub open spec fn is_cached(commits: Map<u64, FinalizedHeaderView>, height: u64) -> bool {
    commits.contains_key(height) && is_result(height, commits[height])
}

/// Keeps an execution result that the application was asked for: `written` is
/// the outcome of writing its file.
pub fn cache_execution_result_from_abci(
    store: &mut CosmosCommitStore,
    header: CosmosFinalizedHeader,
    written: Result<(), String>,
) -> (r: Result<(), CosmosTxPoolError>)
    requires
        old(store).wf(),
    ensures
        final(store).wf(),
        match written {
            Ok(_) => r is Ok && final(store)@ == old(store)@.insert(header@.height, header@),
            Err(e) => r == Err::<(), CosmosTxPoolError>(CosmosTxPoolError::Transport(e))
                && final(store)@ == old(store)@,
        },
{
    match store.commit(header, written) {
        Ok(()) => Ok(()),
        Err(e) => Err(CosmosTxPoolError::Transport(e)),
    }
}

/// Looks for recent heights whose execution results are missing, so that the
/// application can be asked for them at start-up.
#[derive(Clone, Copy, Debug, PartialEq, Eq, Structural)]
pub struct RecentResults {
    next: u64,
    app_height: u64,
    done: bool,
}

impl RecentResults {
    /// The heights that are still to be looked at.
    pub closed spec fn ahead(self, height: u64) -> bool {
        !self.done && self.next <= height <= self.app_height
    }

    /// The window that the next blocks need: the heights from `execution_delay`
    /// below the application's up to it, without the genesis state.
    pub fn new(app_height: u64, execution_delay: u64) -> (scan: Self)
        ensures
            forall|h: u64|
                #![trigger scan.ahead(h)]
                scan.ahead(h) <==> 1 <= h <= app_height && app_height - execution_delay <= h,
    {
        if app_height == 0 {
            return RecentResults { next: 1, app_height, done: true };
        }
        let from: u64 = app_height.saturating_sub(execution_delay);
        RecentResults {
            next: if from < 1 {
                1
            } else {
                from
            },
            app_height,
            done: false,
        }
    }

    /// The next height without an execution result.
    pub fn next_missing(&mut self, store: &CosmosCommitStore) -> (r: Option<u64>)
        ensures
            match r {
                Some(height) => {
                    &&& old(self).ahead(height)
                    &&& !is_cached(store@, height)
                    &&& forall|h: u64|
                        #![trigger old(self).ahead(h)]
                        old(self).ahead(h) && h < height ==> is_cached(store@, h)
                    &&& forall|h: u64|
                        #![trigger final(self).ahead(h)]
                        final(self).ahead(h) <==> old(self).ahead(h) && h > height
                },
                None => {
                    &&& forall|h: u64|
                        #![trigger old(self).ahead(h)]
                        old(self).ahead(h) ==> is_cached(store@, h)
                    &&& forall|h: u64| !(#[trigger] final(self).ahead(h))
                },
            },
    {
        let ghost start = *self;
        while !self.done && self.next <= self.app_height
            invariant
                start == *old(self),
                self.app_height == start.app_height,
                self.next >= start.next,
                start.done ==> self.done,
                forall|h: u64|
                    #![trigger start.ahead(h)]
                    start.ahead(h) && (self.done || h < self.next) ==> is_cached(store@, h),
                !start.done && self.done ==> self.next == self.app_height,
            decreases
                    if self.done {
                        0
                    } else {
                        self.app_height - self.next + 1
                    },
        {
            let height: u64 = self.next;
            let cached: bool = execution_result_cached(store, height);
            if height == self.app_height {
                self.done = true;
            } else {
                self.next = height + 1;
            }
            if !cached {
                return Some(height);
            }
        }
        None
    }
}

/// The policy of the chain: a block at height N carries the execution result
/// of the height `execution_delay` below it.
#[derive(Clone, Debug, PartialEq, Eq)]
pub struct CosmosBlockPolicy {
    execution_delay: u64,
    abci_endpoint: String,
}

impl CosmosBlockPolicy {
    /// By how many heights execution results are late.
    pub closed spec fn delay(self) -> u64 {
        self.execution_delay
    }

    /// Where the application is.
    pub closed spec fn address(self) -> Seq<char> {
        self.abci_endpoint@
    }

    pub fn new(execution_delay: u64, abci_endpoint: String) -> (policy: Self)
        ensures
            policy.delay() == execution_delay,
            policy.address() == abci_endpoint@,
    {
        CosmosBlockPolicy { execution_delay, abci_endpoint }
    }

    /// Where the application is.
    pub fn abci_endpoint(&self) -> (endpoint: &str)
        ensures
            endpoint@ == self.address(),
    {
        self.abci_endpoint.as_str()
    }

    /// The height whose execution result a block has to carry; the first
    /// blocks carry none.
    pub fn delayed_target(&self, seq_num: u64) -> (r: Option<u64>)
        ensures
            r == target_of(seq_num, self.delay()),
    {
        if seq_num <= self.execution_delay {
            None
        } else {
            Some(seq_num - self.execution_delay)
        }
    }

    /// Looks for a delayed execution result on disk; the application has to be
    /// asked where this finds none.
    pub fn lookup_delayed_execution_result(&self, target: u64, state_backend: &CosmosStateBackend)
        -> (r: Option<CosmosFinalizedHeader>)
        requires
            state_backend.wf(),
        ensures
            match r {
                Some(h) => is_cached(state_backend.commits(), target) && h@
                    == state_backend.commits()[target],
                None => !is_cached(state_backend.commits(), target),
            },
    {
        match state_backend.get_execution_result(target, true) {
            Ok(header) => Some(header),
            Err(_) => None,
        }
    }

    /// What the application's answer means: whatever went wrong, the result is
    /// not available yet.
    pub fn delayed_result_from_query(
        answer: Result<CosmosFinalizedHeader, CosmosTxPoolError>,
    ) -> (r: Result<CosmosFinalizedHeader, StateBackendError>)
        ensures
            match answer {
                Ok(h) => r == Ok::<CosmosFinalizedHeader, StateBackendError>(h),
                Err(_) => r == Err::<CosmosFinalizedHeader, StateBackendError>(
                    StateBackendError::NotAvailableYet,
                ),
            },
    {
        match answer {
            Ok(h) => Ok(h),
            Err(_) => Err(StateBackendError::NotAvailableYet),
        }
    }

    /// The execution results that a block has to carry, once the delayed one
    /// has been looked up; `delayed` is not looked at where none is due.
    pub fn get_expected_execution_results(
        &self,
        block_seq_num: u64,
        delayed: Result<CosmosFinalizedHeader, StateBackendError>,
    ) -> (r: Result<Vec<CosmosFinalizedHeader>, StateBackendError>)
        ensures
            match expected_results(block_seq_num, self.delay(), delayed_view(delayed)) {
                Ok(expected) => r matches Ok(v) && header_views(v@) == expected,
                Err(e) => r == Err::<Vec<CosmosFinalizedHeader>, StateBackendError>(e),
            },
    {
        let mut out: Vec<CosmosFinalizedHeader> = Vec::new();
        match self.delayed_target(block_seq_num) {
            None => {
                assert(header_views(out@) =~= Seq::<FinalizedHeaderView>::empty());
                Ok(out)
            },
            Some(_) => match delayed {
                Ok(h) => {
                    out.push(h);
                    assert(header_views(out@) =~= seq![h@]);
                    Ok(out)
                },
                Err(e) => Err(e),
            },
        }
    }

    /// Whether a block stands in the right place: right behind its parent and
    /// later than it. `parent` is the last block of the branch that it
    /// extends, `root_seq_num` the height of the root where the branch is empty.
    pub fn check_position(
        &self,
        block: &CosmosBlock,
        parent: Option<&CosmosBlock>,
        root_seq_num: u64,
    ) -> (r: Result<(), BlockPolicyError>)
        requires
            parent_seq_num(parent, root_seq_num) < u64::MAX,
        ensures
            r == position_verdict(*block, parent, root_seq_num),
    {
        let (seq_num, timestamp): (u64, u128) = match parent {
            Some(p) => (p.seq_num, p.timestamp_ns),
            None => (root_seq_num, 0),
        };
        if block.seq_num != seq_num + 1 {
            return Err(BlockPolicyError::BlockNotCoherent);
        }
        if block.timestamp_ns <= timestamp {
            return Err(BlockPolicyError::TimestampError);
        }
        Ok(())
    }

    /// Whether a block carries the execution results that are due.
    pub fn check_execution_results(
        &self,
        block: &CosmosBlock,
        delayed: Result<CosmosFinalizedHeader, StateBackendError>,
    ) -> (r: Result<(), BlockPolicyError>)
        ensures
            r == results_verdict(
                header_views(block.execution_results@),
                block.seq_num,
                self.delay(),
                delayed_view(delayed),
            ),
    {
        match self.get_expected_execution_results(block.seq_num, delayed) {
            Ok(expected) => {
                if same_headers(&block.execution_results, &expected) {
                    Ok(())
                } else {
                    Err(BlockPolicyError::ExecutionResultMismatch)
                }
            },
            Err(e) => Err(BlockPolicyError::StateBackendError(e)),
        }
    }

    /// Whether the application accepted a block. A failed call counts as a
    /// rejection.
    pub fn check_process_proposal(
        answer: Result<ProcessProposalResponse, CosmosTxPoolError>,
    ) -> (r: Result<(), BlockPolicyError>)
        ensures
            r == process_verdict(answer),
    {
        match answer {
            Ok(response) => if response.status != PROCESS_PROPOSAL_ACCEPT {
                Err(BlockPolicyError::BlockNotCoherent)
            } else {
                Ok(())
            },
            Err(_) => Err(BlockPolicyError::BlockNotCoherent),
        }
    }

    /// Whether a block may extend the chain, given the delayed execution
    /// result and what the application said of the block. Neither is looked at
    /// before the earlier checks have passed.
    pub fn check_coherency(
        &self,
        block: &CosmosBlock,
        parent: Option<&CosmosBlock>,
        root_seq_num: u64,
        delayed: Result<CosmosFinalizedHeader, StateBackendError>,
        processed: Result<ProcessProposalResponse, CosmosTxPoolError>,
    ) -> (r: Result<(), BlockPolicyError>)
        requires
            parent_seq_num(parent, root_seq_num) < u64::MAX,
        ensures
            r == coherency_verdict(
                *block,
                parent,
                root_seq_num,
                self.delay(),
                delayed_view(delayed),
                processed,
            ),
    {
        match self.check_position(block, parent, root_seq_num) {
            Err(e) => {
                return Err(e);
            },
            Ok(()) => {},
        }
        match self.check_execution_results(block, delayed) {
            Err(e) => {
                return Err(e);
            },
            Ok(()) => {},
        }
        Self::check_process_proposal(processed)
    }

    /// Committed blocks leave no trace in the policy.
    pub fn update_committed_block(&mut self, _block: &CosmosBlock)
        ensures
            *final(self) == *old(self),
    {
    }

    /// There is nothing to reset in the policy.
    pub fn reset(&mut self, _last_delay_committed_blocks: &Vec<CosmosBlock>)
        ensures
            *final(self) == *old(self),
    {
    }
}

/// The height whose execution result is due at `seq_num`.
pub open spec fn target_of(seq_num: u64, delay: u64) -> Option<u64> {
    if seq_num <= delay {
        None
    } else {
        Some((seq_num - delay) as u64)
    }
}

/// What a looked-up result says.
pub open spec fn delayed_view(delayed: Result<CosmosFinalizedHeader, StateBackendError>) -> Result<
    FinalizedHeaderView,
    StateBackendError,
> {
    match delayed {
        Ok(h) => Ok(h@),
        Err(e) => Err(e),
    }
}

/// The execution results that are due at `seq_num`.
pub open spec fn expected_results(
    seq_num: u64,
    delay: u64,
    delayed: Result<FinalizedHeaderView, StateBackendError>,
) -> Result<Seq<FinalizedHeaderView>, StateBackendError> {
    if target_of(seq_num, delay) is None {
        Ok(Seq::empty())
    } else {
        match delayed {
            Ok(h) => Ok(seq![h]),
            Err(e) => Err(e),
        }
    }
}

pub open spec fn parent_seq_num(parent: Option<&CosmosBlock>, root_seq_num: u64) -> u64 {
    match parent {
        Some(p) => p.seq_num,
        None => root_seq_num,
    }
}

pub open spec fn parent_timestamp(parent: Option<&CosmosBlock>) -> u128 {
    match parent {
        Some(p) => p.timestamp_ns,
        None => 0,
    }
}

/// The verdict on the place of a block.
pub open spec fn position_verdict(
    block: CosmosBlock,
    parent: Option<&CosmosBlock>,
    root_seq_num: u64,
) -> Result<(), BlockPolicyError> {
    if block.seq_num != parent_seq_num(parent, root_seq_num) + 1 {
        Err(BlockPolicyError::BlockNotCoherent)
    } else if block.timestamp_ns <= parent_timestamp(parent) {
        Err(BlockPolicyError::TimestampError)
    } else {
        Ok(())
    }
}

/// The verdict on the execution results in a block.
pub open spec fn results_verdict(
    carried: Seq<FinalizedHeaderView>,
    seq_num: u64,
    delay: u64,
    delayed: Result<FinalizedHeaderView, StateBackendError>,
) -> Result<(), BlockPolicyError> {
    match expected_results(seq_num, delay, delayed) {
        Ok(expected) => if carried == expected {
            Ok(())
        } else {
            Err(BlockPolicyError::ExecutionResultMismatch)
        },
        Err(e) => Err(BlockPolicyError::StateBackendError(e)),
    }
}

/// The verdict that the application's answer amounts to.
pub open spec fn process_verdict(
    answer: Result<ProcessProposalResponse, CosmosTxPoolError>,
) -> Result<(), BlockPolicyError> {
    match answer {
        Ok(response) => if response.status == PROCESS_PROPOSAL_ACCEPT {
            Ok(())
        } else {
            Err(BlockPolicyError::BlockNotCoherent)
        },
        Err(_) => Err(BlockPolicyError::BlockNotCoherent),
    }
}

/// The verdict on a block: its place, its execution results, and what the
/// application says, in this order.
pub open spec fn coherency_verdict(
    block: CosmosBlock,
    parent: Option<&CosmosBlock>,
    root_seq_num: u64,
    delay: u64,
    delayed: Result<FinalizedHeaderView, StateBackendError>,
    processed: Result<ProcessProposalResponse, CosmosTxPoolError>,
) -> Result<(), BlockPolicyError> {
    match position_verdict(block, parent, root_seq_num) {
        Err(e) => Err(e),
        Ok(_) => match results_verdict(
            header_views(block.execution_results@),
            block.seq_num,
            delay,
            delayed,
        ) {
            Err(e) => Err(e),
            Ok(_) => process_verdict(processed),
        },
    }
}

/// A block that a leader fills with the expected execution results passes the
/// check of those results at every validator that finds the same delayed one.
pub proof fn expected_results_pass(
    seq_num: u64,
    delay: u64,
    delayed: Result<FinalizedHeaderView, StateBackendError>,
)
    ensures
        expected_results(seq_num, delay, delayed) matches Ok(carried) ==> results_verdict(
            carried,
            seq_num,
            delay,
            delayed,
        ) == Ok::<(), BlockPolicyError>(()),
{
}

pub(crate) fn same_header(a: &CosmosFinalizedHeader, b: &CosmosFinalizedHeader) -> (r: bool)
    ensures
        r == (a@ == b@),
{
    let r: bool = a.height == b.height && same_bytes(&a.app_hash, &b.app_hash) && same_bytes(
        &a.tx_results_hash,
        &b.tx_results_hash,
    ) && same_bytes(&a.validator_updates_hash, &b.validator_updates_hash) && same_bytes(
        &a.finalize_block_response,
        &b.finalize_block_response,
    ) && same_bytes(&a.commit_response, &b.commit_response) && a.retain_height == b.retain_height;
    r
}

pub(crate) fn same_bytes(a: &Vec<u8>, b: &Vec<u8>) -> (r: bool)
    ensures
        r == (a@ == b@),
{
    if a.len() != b.len() {
        return false;
    }
    let mut i: usize = 0;
    while i < a.len()
        invariant
            i <= a@.len(),
            a@.len() == b@.len(),
            forall|j: int| 0 <= j < i ==> #[trigger] a@[j] == b@[j],
        decreases a@.len() - i,
    {
        if a[i] != b[i] {
            return false;
        }
        i = i + 1;
    }
    assert(a@ =~= b@);
    true
}

fn same_headers(a: &Vec<CosmosFinalizedHeader>, b: &Vec<CosmosFinalizedHeader>) -> (r: bool)
    ensures
        r == (header_views(a@) == header_views(b@)),
{
    if a.len() != b.len() {
        assert(header_views(a@).len() != header_views(b@).len());
        return false;
    }
    let mut i: usize = 0;
    while i < a.len()
        invariant
            i <= a@.len(),
            a@.len() == b@.len(),
            forall|j: int| 0 <= j < i ==> (#[trigger] a@[j])@ == b@[j]@,
        decreases a@.len() - i,
    {
        if !same_header(&a[i], &b[i]) {
            assert(header_views(a@)[i as int] != header_views(b@)[i as int]);
            return false;
        }
        i = i + 1;
    }
    assert(header_views(a@) =~= header_views(b@));
    true
}

/// Accepts every block whose body matches its header; the application is
/// asked by the policy.
#[derive(Clone, Copy, Debug, PartialEq, Eq, Structural)]
pub struct CosmosBlockValidator;

/// Why a block is not valid.
#[derive(Clone, Debug, PartialEq, Eq)]
pub enum CosmosBlockValidationError {
    Abci(CosmosTxPoolError),
    HeaderPayloadMismatch,
}

impl CosmosBlockValidator {
    pub fn new(_endpoint: String) -> (validator: Self)
        ensures
            validator == CosmosBlockValidator,
    {
        CosmosBlockValidator
    }

    /// Validates a block; `body_matches` says whether the body is the one that
    /// the header names.
    pub fn validate(&self, block: CosmosBlock, body_matches: bool) -> (r: Result<
        CosmosBlock,
        CosmosBlockValidationError,
    >)
        ensures
            r == if body_matches {
                Ok::<CosmosBlock, CosmosBlockValidationError>(block)
            } else {
                Err::<CosmosBlock, CosmosBlockValidationError>(
                    CosmosBlockValidationError::HeaderPayloadMismatch,
                )
            },
    {
        if body_matches {
            Ok(block)
        } else {
            Err(CosmosBlockValidationError::HeaderPayloadMismatch)
        }
    }
}

/// A block is accepted whenever it is the next one, later than its parent,
/// carries exactly the results that are due (none up to the delay, and the
/// delayed one after it) and the application accepts it, whatever its body
/// holds.
pub proof fn coherent_blocks_are_accepted(
    block: CosmosBlock,
    parent: Option<&CosmosBlock>,
    root_seq_num: u64,
    delay: u64,
    delayed: Result<FinalizedHeaderView, StateBackendError>,
    processed: Result<ProcessProposalResponse, CosmosTxPoolError>,
)
    requires
        match parent {
            Some(p) => block.seq_num == p.seq_num + 1 && block.timestamp_ns > p.timestamp_ns,
            None => block.seq_num == root_seq_num + 1 && block.timestamp_ns > 0,
        },
        block.seq_num <= delay ==> block.execution_results@.len() == 0,
        block.seq_num > delay ==> block.execution_results@.len() == 1 && delayed == Ok::<
            FinalizedHeaderView,
            StateBackendError,
        >(block.execution_results@[0]@),
        processed matches Ok(response) && response.status == 1,
    ensures
        coherency_verdict(block, parent, root_seq_num, delay, delayed, processed) == Ok::<
            (),
            BlockPolicyError,
        >(()),
{
    let carried = header_views(block.execution_results@);
    if block.seq_num <= delay {
        assert(carried =~= Seq::empty());
    } else {
        assert(carried =~= seq![block.execution_results@[0]@]);
    }
}

/// Results are one header if and only if there is one and it is that header.
pub(crate) proof fn lemma_one_result(results: Seq<CosmosFinalizedHeader>, h: FinalizedHeaderView)
    ensures
        header_views(results) == seq![h] <==> results.len() == 1 && results[0]@ == h,
{
    let carried = header_views(results);
    if carried == seq![h] {
        assert(carried.len() == 1 && carried[0] == h);
    }
    if results.len() == 1 && results[0]@ == h {
        assert(carried =~= seq![h]);
    }
}

/// A refused block is told the first thing that is wrong with it: its number,
/// its time, a delayed result that is not to be had, results that are not the
/// ones due, and at last the answer of the application.
pub proof fn refused_blocks_are_told_why(
    block: CosmosBlock,
    parent: Option<&CosmosBlock>,
    root_seq_num: u64,
    delay: u64,
    delayed: Result<FinalizedHeaderView, StateBackendError>,
    processed: Result<ProcessProposalResponse, CosmosTxPoolError>,
)
    ensures
        ({
            let verdict = coherency_verdict(
                block,
                parent,
                root_seq_num,
                delay,
                delayed,
                processed,
            );
            let (before, since): (u64, u128) = match parent {
                Some(p) => (p.seq_num, p.timestamp_ns),
                None => (root_seq_num, 0),
            };
            let next = block.seq_num == before + 1;
            let later = block.timestamp_ns > since;
            let due = if block.seq_num <= delay {
                block.execution_results@.len() == 0
            } else {
                block.execution_results@.len() == 1 && delayed == Ok::<
                    FinalizedHeaderView,
                    StateBackendError,
                >(block.execution_results@[0]@)
            };
            let accepted = processed matches Ok(response) && response.status == 1;
            &&& !next ==> verdict == Err::<(), BlockPolicyError>(
                BlockPolicyError::BlockNotCoherent,
            )
            &&& next && !later ==> verdict == Err::<(), BlockPolicyError>(
                BlockPolicyError::TimestampError,
            )
            &&& next && later && block.seq_num > delay ==> (delayed matches Err(e) ==> verdict
                == Err::<(), BlockPolicyError>(BlockPolicyError::StateBackendError(e)))
            &&& next && later && !due && (block.seq_num <= delay || delayed is Ok) ==> verdict
                == Err::<(), BlockPolicyError>(BlockPolicyError::ExecutionResultMismatch)
            &&& next && later && due && !accepted ==> verdict == Err::<(), BlockPolicyError>(
                BlockPolicyError::BlockNotCoherent,
            )
        }),
{
    let carried = header_views(block.execution_results@);
    assert(carried.len() == block.execution_results@.len());
    if block.seq_num > delay {
        if let Ok(h) = delayed {
            lemma_one_result(block.execution_results@, h);
        }
    } else if block.execution_results@.len() == 0 {
        assert(carried =~= Seq::empty());
    }
}

/// The result that is due at a height is that of the height the delay before
/// it; none is due up to the delay.
pub proof fn results_are_due_after_the_delay(seq_num: u64, delay: u64, h: FinalizedHeaderView)
    ensures
        seq_num <= delay ==> target_of(seq_num, delay) is None && expected_results(
            seq_num,
            delay,
            Ok(h),
        ) == Ok::<Seq<FinalizedHeaderView>, StateBackendError>(Seq::empty()),
        seq_num > delay ==> (target_of(seq_num, delay) matches Some(t) && t + delay == seq_num)
            && expected_results(seq_num, delay, Ok(h)) == Ok::<
            Seq<FinalizedHeaderView>,
            StateBackendError,
        >(seq![h]),
{
}

/// A stored header is the result of its height if and only if it holds the
/// application's response, or, at height zero, an application hash.
pub proof fn stored_results_are_cached(commits: Map<u64, FinalizedHeaderView>, height: u64)
    ensures
        !commits.contains_key(height) ==> !is_cached(commits, height),
        commits.contains_key(height) && commits[height].finalize_block_response.len() > 0
            ==> is_cached(commits, height),
        commits.contains_key(height) && commits[height].finalize_block_response.len() == 0 ==> (
        is_cached(commits, height) <==> height == 0 && commits[height].app_hash.len() > 0),
{
}

/// A missing result will never come if and only if it is asked for as finalized
/// and every stored height is above it, with at least one stored.
pub proof fn results_below_the_history_never_come(
    commits: Map<u64, FinalizedHeaderView>,
    seq_num: u64,
    least: u64,
)
    requires
        commits.contains_key(least),
        forall|h: u64| #[trigger] commits.contains_key(h) ==> least <= h,
    ensures
        missing_result(commits, seq_num, true) == if seq_num < least {
            StateBackendError::NeverAvailable
        } else {
            StateBackendError::NotAvailableYet
        },
        missing_result(commits, seq_num, false) == StateBackendError::NotAvailableYet,
        missing_result(Map::empty(), seq_num, true) == StateBackendError::NotAvailableYet,
{
    assert(commit_store::is_least(commits, least));
    assert forall|h: u64| commit_store::is_least(commits, h) implies h == least by {
        assert(commits.contains_key(h));
    }
    assert forall|h: u64|
        !#[trigger] commit_store::is_least(Map::<u64, FinalizedHeaderView>::empty(), h) by {
        assert(!Map::<u64, FinalizedHeaderView>::empty().contains_key(h));
    }
}

/// A looked-up result says what was found, and an error stays the one it was.
pub proof fn looked_up_results_stay(
    h: CosmosFinalizedHeader,
    e: StateBackendError,
    headers: Seq<CosmosFinalizedHeader>,
    i: int,
)
    ensures
        delayed_view(Ok(h)) == Ok::<FinalizedHeaderView, StateBackendError>(h@),
        delayed_view(Err(e)) == Err::<FinalizedHeaderView, StateBackendError>(e),
        header_views(headers).len() == headers.len(),
        0 <= i < headers.len() ==> header_views(headers)[i] == headers[i]@,
{
}

} // verus!
