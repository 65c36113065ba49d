//! The check of a block, and what a leader has to put into one, step by step:
//! the application is asked only where the earlier checks have passed and the
//! answer is needed.
use vstd::prelude::*;

use crate::abci::error::CosmosTxPoolError;
use crate::abci::messages::{
    ProcessProposalRequest, ProcessProposalResponse, QueryRequest, PROCESS_PROPOSAL_ACCEPT,
};
use crate::abci::requests;
use crate::block_policy;
use crate::block_policy::{
    BlockPolicyError, CosmosBlock, CosmosBlockPolicy, CosmosStateBackend, StateBackendError,
};
use crate::commit_store;
use crate::commit_store::{CosmosCommitStore, StoredFile};
use crate::cosmos_types::{CosmosFinalizedHeader, FinalizedHeaderView};

verus! {

/// What to do next about a block.
pub enum CoherencyAction {
    /// Ask the application for the execution result of a height and go on with
    /// [`CosmosBlockPolicy::coherency_queried`].
    Query { height: u64, request: QueryRequest },
    /// Ask the application about the block and go on with
    /// [`CosmosBlockPolicy::check_process_proposal`].
    Process(ProcessProposalRequest),
    /// This is the verdict.
    Verdict(Result<(), BlockPolicyError>),
}

/// A step towards the verdict.
pub enum CoherencyStep {
    Query(u64),
    Process,
    Verdict(Result<(), BlockPolicyError>),
}

/// The step once the execution results in a block were judged.
pub open spec fn step_after(verdict: Result<(), BlockPolicyError>) -> CoherencyStep {
    match verdict {
        Ok(_) => CoherencyStep::Process,
        Err(e) => CoherencyStep::Verdict(Err(e)),
    }
}

/// The first step: the place of the block is judged, then its execution
/// results, if the one that is due is on disk.
pub open spec fn first_step(
    block: CosmosBlock,
    parent: Option<&CosmosBlock>,
    root_seq_num: u64,
    delay: u64,
    commits: Map<u64, FinalizedHeaderView>,
) -> CoherencyStep {
    let carried = block_policy::header_views(block.execution_results@);
    match block_policy::position_verdict(block, parent, root_seq_num) {
        Err(e) => CoherencyStep::Verdict(Err(e)),
        Ok(_) => match block_policy::target_of(block.seq_num, delay) {
            None => step_after(
                block_policy::results_verdict(
                    carried,
                    block.seq_num,
                    delay,
                    Err(StateBackendError::NotAvailableYet),
                ),
            ),
            Some(target) => if block_policy::is_cached(commits, target) {
                step_after(
                    block_policy::results_verdict(
                        carried,
                        block.seq_num,
                        delay,
                        Ok(commits[target]),
                    ),
                )
            } else {
                CoherencyStep::Query(target)
            },
        },
    }
}

/// What an answer to a query means for the check: whatever went wrong, the
/// result is not available yet.
pub open spec fn answer_view(answer: Result<CosmosFinalizedHeader, CosmosTxPoolError>) -> Result<
    FinalizedHeaderView,
    StateBackendError,
> {
    match answer {
        Ok(h) => Ok(h@),
        Err(_) => Err(StateBackendError::NotAvailableYet),
    }
}

/// The step after a query.
pub open spec fn queried_step(
    block: CosmosBlock,
    delay: u64,
    answer: Result<FinalizedHeaderView, StateBackendError>,
) -> CoherencyStep {
    step_after(
        block_policy::results_verdict(
            block_policy::header_views(block.execution_results@),
            block.seq_num,
            delay,
            answer,
        ),
    )
}

/// Whether an action carries out a step.
pub open spec fn carries_out<H: Fn(&[u8]) -> Vec<u8>>(
    action: CoherencyAction,
    step: CoherencyStep,
    block: CosmosBlock,
    hasher: H,
) -> bool {
    match step {
        CoherencyStep::Query(target) => action matches CoherencyAction::Query { height, request }
            && height == target && requests::is_result_query(request, target),
        CoherencyStep::Process => action matches CoherencyAction::Process(request)
            && requests::is_process_for(request, block.header, block.body@, hasher),
        CoherencyStep::Verdict(v) => action == CoherencyAction::Verdict(v),
    }
}

/// The verdict of the whole check, given what the store holds and what the
/// application would answer.
pub open spec fn verdict_by_steps(
    block: CosmosBlock,
    parent: Option<&CosmosBlock>,
    root_seq_num: u64,
    delay: u64,
    commits: Map<u64, FinalizedHeaderView>,
    answer: Result<FinalizedHeaderView, StateBackendError>,
    processed: Result<ProcessProposalResponse, CosmosTxPoolError>,
) -> Result<(), BlockPolicyError> {
    let first = first_step(block, parent, root_seq_num, delay, commits);
    let last = if first is Query {
        queried_step(block, delay, answer)
    } else {
        first
    };
    match last {
        CoherencyStep::Verdict(v) => v,
        _ => block_policy::process_verdict(processed),
    }
}

/// The execution result that the check goes by: the one on disk before the
/// application's.
pub open spec fn delayed_result(
    seq_num: u64,
    delay: u64,
    commits: Map<u64, FinalizedHeaderView>,
    answer: Result<FinalizedHeaderView, StateBackendError>,
) -> Result<FinalizedHeaderView, StateBackendError> {
    match block_policy::target_of(seq_num, delay) {
        Some(target) => if block_policy::is_cached(commits, target) {
            Ok(commits[target])
        } else {
            answer
        },
        None => answer,
    }
}

/// Step by step the check comes to the verdict that all its inputs together
/// call for.
pub proof fn steps_reach_the_verdict(
    block: CosmosBlock,
    parent: Option<&CosmosBlock>,
    root_seq_num: u64,
    delay: u64,
    commits: Map<u64, FinalizedHeaderView>,
    answer: Result<FinalizedHeaderView, StateBackendError>,
    processed: Result<ProcessProposalResponse, CosmosTxPoolError>,
)
    ensures
        verdict_by_steps(block, parent, root_seq_num, delay, commits, answer, processed)
            == block_policy::coherency_verdict(
            block,
            parent,
            root_seq_num,
            delay,
            delayed_result(block.seq_num, delay, commits, answer),
            processed,
        ),
{
}

/// A block that passes stands right behind its parent, is later than it,
/// carries exactly the execution results that are due, and was accepted by the
/// application.
pub proof fn accepted_blocks_are_coherent(
    block: CosmosBlock,
    parent: Option<&CosmosBlock>,
    root_seq_num: u64,
    delay: u64,
    delayed: Result<FinalizedHeaderView, StateBackendError>,
    processed: Result<ProcessProposalResponse, CosmosTxPoolError>,
)
    requires
        block_policy::coherency_verdict(
            block,
            parent,
            root_seq_num,
            delay,
            delayed,
            processed,
        ) is Ok,
    ensures
        block.seq_num == block_policy::parent_seq_num(parent, root_seq_num) + 1,
        block.timestamp_ns > block_policy::parent_timestamp(parent),
        block.seq_num <= delay ==> block.execution_results@.len() == 0,
        block.seq_num > delay ==> delayed is Ok && block_policy::header_views(
            block.execution_results@,
        ) == seq![delayed->Ok_0],
        processed matches Ok(response) && response.status == PROCESS_PROPOSAL_ACCEPT,
{
    let carried = block_policy::header_views(block.execution_results@);
    if block.seq_num <= delay {
        assert(carried.len() == 0);
    }
}

/// What a leader does next to learn which execution results a block has to
/// carry.
pub enum ExpectedAction {
    /// Ask the application for the execution result of a height and go on with
    /// [`CosmosBlockPolicy::expected_queried`].
    Query { height: u64, request: QueryRequest },
    /// These are the results, or why there are none.
    Results(Result<Vec<CosmosFinalizedHeader>, StateBackendError>),
}

/// What a result says.
pub open spec fn results_view(r: Result<Vec<CosmosFinalizedHeader>, StateBackendError>) -> Result<
    Seq<FinalizedHeaderView>,
    StateBackendError,
> {
    match r {
        Ok(v) => Ok(block_policy::header_views(v@)),
        Err(e) => Err(e),
    }
}

/// Whether the application has to be asked which results a block has to carry:
/// the one that is due is not on disk.
pub open spec fn must_query(
    seq_num: u64,
    delay: u64,
    commits: Map<u64, FinalizedHeaderView>,
) -> bool {
    block_policy::target_of(seq_num, delay) matches Some(target) && !block_policy::is_cached(
        commits,
        target,
    )
}

/// What the leader's first step finds on disk; it asks the application where
/// this is nothing.
pub open spec fn expected_on_disk(
    seq_num: u64,
    delay: u64,
    commits: Map<u64, FinalizedHeaderView>,
) -> Result<Seq<FinalizedHeaderView>, StateBackendError> {
    match block_policy::target_of(seq_num, delay) {
        Some(target) => Ok(seq![commits[target]]),
        None => Ok(Seq::empty()),
    }
}

/// What the leader's steps come to.
pub open spec fn expected_by_steps(
    seq_num: u64,
    delay: u64,
    commits: Map<u64, FinalizedHeaderView>,
    answer: Result<FinalizedHeaderView, StateBackendError>,
) -> Result<Seq<FinalizedHeaderView>, StateBackendError> {
    if must_query(seq_num, delay, commits) {
        block_policy::expected_results(seq_num, delay, answer)
    } else {
        expected_on_disk(seq_num, delay, commits)
    }
}

/// The leader's steps come to the execution results that are due, given what
/// the store holds and what the application would answer.
pub proof fn steps_reach_the_expected_results(
    seq_num: u64,
    delay: u64,
    commits: Map<u64, FinalizedHeaderView>,
    answer: Result<FinalizedHeaderView, StateBackendError>,
)
    ensures
        expected_by_steps(seq_num, delay, commits, answer) == block_policy::expected_results(
            seq_num,
            delay,
            delayed_result(seq_num, delay, commits, answer),
        ),
{
}

/// A block with the results that its leader found passes the check of results
/// at a node whose store and application say the same.
pub proof fn led_blocks_carry_what_is_due(
    seq_num: u64,
    delay: u64,
    commits: Map<u64, FinalizedHeaderView>,
    answer: Result<FinalizedHeaderView, StateBackendError>,
    carried: Seq<FinalizedHeaderView>,
)
    requires
        expected_by_steps(seq_num, delay, commits, answer) == Ok::<
            Seq<FinalizedHeaderView>,
            StateBackendError,
        >(carried),
    ensures
        block_policy::results_verdict(
            carried,
            seq_num,
            delay,
            delayed_result(seq_num, delay, commits, answer),
        ) == Ok::<(), BlockPolicyError>(()),
{
    steps_reach_the_expected_results(seq_num, delay, commits, answer);
}

impl CosmosBlockPolicy {
    /// A leader's first step towards the execution results that the block at
    /// `block_seq_num` has to carry.
    pub fn expected_start(&self, block_seq_num: u64, state_backend: &CosmosStateBackend) -> (action:
        ExpectedAction)
        requires
            state_backend.wf(),
        ensures
            if must_query(block_seq_num, self.delay(), state_backend.commits()) {
                action matches ExpectedAction::Query { height, request } && Some(height)
                    == block_policy::target_of(block_seq_num, self.delay())
                    && requests::is_result_query(request, height)
            } else {
                action matches ExpectedAction::Results(r) && results_view(r) == expected_on_disk(
                    block_seq_num,
                    self.delay(),
                    state_backend.commits(),
                )
            },
    {
        let delayed: Result<CosmosFinalizedHeader, StateBackendError> = match self.delayed_target(
            block_seq_num,
        ) {
            None => Err(StateBackendError::NotAvailableYet),
            Some(target) => match self.lookup_delayed_execution_result(target, state_backend) {
                Some(header) => Ok(header),
                None => {
                    return ExpectedAction::Query {
                        height: target,
                        request: requests::execution_result_query(target),
                    };
                },
            },
        };
        ExpectedAction::Results(self.get_expected_execution_results(block_seq_num, delayed))
    }

    /// The leader's last step, once the application answered the query. A result
    /// is to be kept on disk; whether that works does not count.
    pub fn expected_queried(
        &self,
        block_seq_num: u64,
        answer: Result<CosmosFinalizedHeader, CosmosTxPoolError>,
    ) -> (r: (Option<StoredFile>, Result<Vec<CosmosFinalizedHeader>, StateBackendError>))
        ensures
            match answer {
                Ok(h) => r.0 matches Some(file) && (file.name@, file.bytes@)
                    == commit_store::file_of(h@),
                Err(_) => r.0 is None,
            },
            results_view(r.1) == block_policy::expected_results(
                block_seq_num,
                self.delay(),
                answer_view(answer),
            ),
    {
        let file: Option<StoredFile> = match &answer {
            Ok(header) => Some(CosmosCommitStore::file_for(header)),
            Err(_) => None,
        };
        let delayed: Result<CosmosFinalizedHeader, StateBackendError> =
            CosmosBlockPolicy::delayed_result_from_query(answer);
        (file, self.get_expected_execution_results(block_seq_num, delayed))
    }

    fn coherency_next<H: Fn(&[u8]) -> Vec<u8>>(
        block: &CosmosBlock,
        verdict: Result<(), BlockPolicyError>,
        hasher: &H,
    ) -> (action: CoherencyAction)
        requires
            forall|b: &[u8]| #[trigger] call_requires(*hasher, (b,)),
        ensures
            carries_out(action, step_after(verdict), *block, *hasher),
    {
        match verdict {
            Ok(_) => CoherencyAction::Process(
                requests::process_request_from_inputs(&block.header, &block.body, hasher),
            ),
            Err(e) => CoherencyAction::Verdict(Err(e)),
        }
    }

    /// Starts the check of a block.
    pub fn coherency_start<H: Fn(&[u8]) -> Vec<u8>>(
        &self,
        block: &CosmosBlock,
        parent: Option<&CosmosBlock>,
        root_seq_num: u64,
        state_backend: &CosmosStateBackend,
        hasher: &H,
    ) -> (action: CoherencyAction)
        requires
            state_backend.wf(),
            block_policy::parent_seq_num(parent, root_seq_num) < u64::MAX,
            forall|b: &[u8]| #[trigger] call_requires(*hasher, (b,)),
        ensures
            carries_out(
                action,
                first_step(*block, parent, root_seq_num, self.delay(), state_backend.commits()),
                *block,
                *hasher,
            ),
    {
        match self.check_position(block, parent, root_seq_num) {
            Err(e) => {
                return CoherencyAction::Verdict(Err(e));
            },
            Ok(_) => {},
        }
        let delayed: Result<CosmosFinalizedHeader, StateBackendError> = match self.delayed_target(
            block.seq_num,
        ) {
            None => Err(StateBackendError::NotAvailableYet),
            Some(target) => match self.lookup_delayed_execution_result(target, state_backend) {
                Some(header) => Ok(header),
                None => {
                    return CoherencyAction::Query {
                        height: target,
                        request: requests::execution_result_query(target),
                    };
                },
            },
        };
        let verdict: Result<(), BlockPolicyError> = self.check_execution_results(block, delayed);
        Self::coherency_next(block, verdict, hasher)
    }

    /// Goes on with the check once the application answered the query. A result
    /// is to be kept on disk; whether that works does not count.
    pub fn coherency_queried<H: Fn(&[u8]) -> Vec<u8>>(
        &self,
        block: &CosmosBlock,
        answer: Result<CosmosFinalizedHeader, CosmosTxPoolError>,
        hasher: &H,
    ) -> (r: (Option<StoredFile>, CoherencyAction))
        requires
            forall|b: &[u8]| #[trigger] call_requires(*hasher, (b,)),
        ensures
            match answer {
                Ok(h) => r.0 matches Some(file) && (file.name@, file.bytes@)
                    == commit_store::file_of(h@),
                Err(_) => r.0 is None,
            },
            carries_out(
                r.1,
                queried_step(*block, self.delay(), answer_view(answer)),
                *block,
                *hasher,
            ),
    {
        let file: Option<StoredFile> = match &answer {
            Ok(header) => Some(CosmosCommitStore::file_for(header)),
            Err(_) => None,
        };
        let delayed: Result<CosmosFinalizedHeader, StateBackendError> =
            CosmosBlockPolicy::delayed_result_from_query(answer);
        let verdict: Result<(), BlockPolicyError> = self.check_execution_results(block, delayed);
        (file, Self::coherency_next(block, verdict, hasher))
    }
}

/// Step by step as well, a block is accepted whenever it is the next one, later
/// than its parent, carries exactly the results that are due and the
/// application accepts it, whatever its body holds. The result that is due is
/// the stored one where its height is stored with a response, and what the
/// application was asked for otherwise.
pub proof fn coherent_blocks_are_accepted_by_steps(
    block: CosmosBlock,
    parent: Option<&CosmosBlock>,
    root_seq_num: u64,
    delay: u64,
    commits: Map<u64, FinalizedHeaderView>,
    answer: Result<FinalizedHeaderView, StateBackendError>,
    processed: Result<ProcessProposalResponse, CosmosTxPoolError>,
)
    requires
        match parent {
            Some(p) => block.seq_num == p.seq_num + 1 && block.timestamp_ns > p.timestamp_ns,
            None => block.seq_num == root_seq_num + 1 && block.timestamp_ns > 0,
        },
        block.seq_num <= delay ==> block.execution_results@.len() == 0,
        block.seq_num > delay ==> block.execution_results@.len() == 1 && {
            let height = (block.seq_num - delay) as u64;
            let carried = block.execution_results@[0]@;
            if commits.contains_key(height) && commits[height].finalize_block_response.len() > 0 {
                carried == commits[height]
            } else {
                answer == Ok::<FinalizedHeaderView, StateBackendError>(carried)
            }
        },
        processed matches Ok(response) && response.status == 1,
    ensures
        verdict_by_steps(block, parent, root_seq_num, delay, commits, answer, processed) == Ok::<
            (),
            BlockPolicyError,
        >(()),
{
    block_policy::coherent_blocks_are_accepted(
        block,
        parent,
        root_seq_num,
        delay,
        delayed_result(block.seq_num, delay, commits, answer),
        processed,
    );
    steps_reach_the_verdict(block, parent, root_seq_num, delay, commits, answer, processed);
}

/// A check asks for a result if and only if the block is the next one, later
/// than its parent, above the delay, and the height that its result is due for
/// is not stored with a response; it asks for that height. It goes to the
/// application without asking if and only if the block carries what is due.
pub proof fn checks_ask_for_what_is_due(
    block: CosmosBlock,
    parent: Option<&CosmosBlock>,
    root_seq_num: u64,
    delay: u64,
    commits: Map<u64, FinalizedHeaderView>,
)
    ensures
        ({
            let step = first_step(block, parent, root_seq_num, delay, commits);
            let placed = match parent {
                Some(p) => block.seq_num == p.seq_num + 1 && block.timestamp_ns > p.timestamp_ns,
                None => block.seq_num == root_seq_num + 1 && block.timestamp_ns > 0,
            };
            let height = (block.seq_num - delay) as u64;
            let stored = commits.contains_key(height)
                && commits[height].finalize_block_response.len() > 0;
            &&& step is Query <==> placed && block.seq_num > delay && !stored
            &&& step matches CoherencyStep::Query(target) ==> target + delay == block.seq_num
            &&& step is Process <==> placed && if block.seq_num <= delay {
                block.execution_results@.len() == 0
            } else {
                stored && block.execution_results@.len() == 1 && block.execution_results@[0]@
                    == commits[height]
            }
        }),
{
    let carried = block_policy::header_views(block.execution_results@);
    assert(carried.len() == block.execution_results@.len());
    if block.seq_num > delay {
        let height = (block.seq_num - delay) as u64;
        block_policy::lemma_one_result(block.execution_results@, commits[height]);
    } else if block.execution_results@.len() == 0 {
        assert(carried =~= Seq::empty());
    }
}

/// An answer that arrived decides the next step: the application is asked about
/// the block if and only if the block carries just that answer.
pub proof fn answers_decide_the_next_step(
    block: CosmosBlock,
    delay: u64,
    answer: Result<FinalizedHeaderView, StateBackendError>,
)
    requires
        block.seq_num > delay,
    ensures
        queried_step(block, delay, answer) == match answer {
            Ok(h) => if block.execution_results@.len() == 1 && block.execution_results@[0]@ == h {
                CoherencyStep::Process
            } else {
                CoherencyStep::Verdict(Err(BlockPolicyError::ExecutionResultMismatch))
            },
            Err(e) => CoherencyStep::Verdict(Err(BlockPolicyError::StateBackendError(e))),
        },
{
    if let Ok(h) = answer {
        block_policy::lemma_one_result(block.execution_results@, h);
    }
}

/// A leader's block carries nothing up to the delay, and after it the one
/// result of the height that is due: the stored one where that height is stored
/// with a response, else the one that the application answered with.
pub proof fn leaders_carry_the_delayed_result(
    seq_num: u64,
    delay: u64,
    commits: Map<u64, FinalizedHeaderView>,
    answer: Result<FinalizedHeaderView, StateBackendError>,
)
    ensures
        ({
            let height = (seq_num - delay) as u64;
            let stored = commits.contains_key(height)
                && commits[height].finalize_block_response.len() > 0;
            let carried = expected_by_steps(seq_num, delay, commits, answer);
            &&& must_query(seq_num, delay, commits) <==> seq_num > delay && !stored
            &&& seq_num <= delay ==> carried == Ok::<Seq<FinalizedHeaderView>, StateBackendError>(
                Seq::empty(),
            )
            &&& seq_num > delay && stored ==> carried == Ok::<
                Seq<FinalizedHeaderView>,
                StateBackendError,
            >(seq![commits[height]])
            &&& seq_num > delay && !stored ==> carried == match answer {
                Ok(h) => Ok::<Seq<FinalizedHeaderView>, StateBackendError>(seq![h]),
                Err(e) => Err::<Seq<FinalizedHeaderView>, StateBackendError>(e),
            }
        }),
{
}

/// An answer of the application is what it says, and a failed one is a result
/// that is not available yet, whatever failed.
pub proof fn failed_answers_are_not_available_yet(
    h: CosmosFinalizedHeader,
    e: CosmosTxPoolError,
    results: Vec<CosmosFinalizedHeader>,
    f: StateBackendError,
    i: int,
)
    ensures
        answer_view(Ok(h)) == Ok::<FinalizedHeaderView, StateBackendError>(h@),
        answer_view(Err(e)) == Err::<FinalizedHeaderView, StateBackendError>(
            StateBackendError::NotAvailableYet,
        ),
        results_view(Ok(results)) matches Ok(views) && views.len() == results@.len() && (0 <= i
            < results@.len() ==> views[i] == results@[i]@),
        results_view(Err(f)) == Err::<Seq<FinalizedHeaderView>, StateBackendError>(f),
{
}

/// An action carries out its step: a query asks for the height of the step, a
/// request to judge is about the block, and a verdict is that of the step.
pub proof fn actions_carry_out_their_steps<H: Fn(&[u8]) -> Vec<u8>>(
    action: CoherencyAction,
    step: CoherencyStep,
    block: CosmosBlock,
    hasher: H,
)
    requires
        carries_out(action, step, block, hasher),
    ensures
        step is Query <==> action is Query,
        step is Process <==> action is Process,
        step matches CoherencyStep::Query(target) ==> (action matches CoherencyAction::Query {
            height,
            request,
        } && height == target && requests::is_result_query(request, target)),
        action matches CoherencyAction::Process(request) ==> requests::is_process_for(
            request,
            block.header,
            block.body@,
            hasher,
        ),
        step matches CoherencyStep::Verdict(v) ==> action == CoherencyAction::Verdict(v),
{
}

/// What is on disk for a block is the stored header of the height that is due,
/// and nothing up to the delay.
pub proof fn due_results_are_on_disk(
    seq_num: u64,
    delay: u64,
    commits: Map<u64, FinalizedHeaderView>,
)
    ensures
        seq_num <= delay ==> expected_on_disk(seq_num, delay, commits) == Ok::<
            Seq<FinalizedHeaderView>,
            StateBackendError,
        >(Seq::empty()),
        seq_num > delay ==> expected_on_disk(seq_num, delay, commits) == Ok::<
            Seq<FinalizedHeaderView>,
            StateBackendError,
        >(seq![commits[(seq_num - delay) as u64]]),
{
}

} // verus!
