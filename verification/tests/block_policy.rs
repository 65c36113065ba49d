use monad_cosmos::abci::error::CosmosTxPoolError;
use monad_cosmos::abci::messages::ProcessProposalResponse;
use monad_cosmos::block_policy;
use monad_cosmos::block_policy::{
    BlockPolicyError, CosmosBlock, CosmosBlockPolicy, CosmosBlockValidationError,
    CosmosBlockValidator, CosmosStateBackend, RecentResults, StateBackendError,
};
use monad_cosmos::coherency::{CoherencyAction, ExpectedAction};
use monad_cosmos::commit_store::CosmosCommitStore;
use monad_cosmos::cosmos_types::{CosmosBlockBody, CosmosFinalizedHeader, ProposedCosmosHeader};

fn result(height: u64) -> CosmosFinalizedHeader {
    CosmosFinalizedHeader {
        height,
        app_hash: vec![height as u8],
        tx_results_hash: vec![],
        validator_updates_hash: vec![],
        finalize_block_response: vec![1],
        commit_response: vec![],
        retain_height: 0,
    }
}

fn block(seq_num: u64, timestamp_ns: u128, execution_results: Vec<CosmosFinalizedHeader>) -> CosmosBlock {
    CosmosBlock {
        seq_num,
        timestamp_ns,
        execution_results,
        header: ProposedCosmosHeader {
            height: seq_num,
            max_tx_bytes: 0,
            time_ns: timestamp_ns,
            local_last_commit: vec![],
            misbehavior: vec![],
            next_validators_hash: vec![],
            proposer_address: vec![],
        },
        body: CosmosBlockBody::from_txs(vec![b"tx".to_vec()]),
    }
}

fn store(headers: Vec<CosmosFinalizedHeader>) -> CosmosCommitStore {
    let mut store = CosmosCommitStore::empty();
    for header in headers {
        store.commit(header, Ok(())).unwrap();
    }
    store
}

fn hasher(bytes: &[u8]) -> Vec<u8> {
    bytes.to_vec()
}

fn accept() -> Result<ProcessProposalResponse, CosmosTxPoolError> {
    Ok(ProcessProposalResponse { status: 1 })
}

#[test]
fn results_that_were_not_executed_do_not_count() {
    let backend = CosmosStateBackend::new(store(vec![
        CosmosFinalizedHeader::bare(0, vec![1]),
        CosmosFinalizedHeader::bare(2, vec![1]),
        result(3),
    ]));
    assert_eq!(backend.get_execution_result(0, true).unwrap().height, 0);
    assert_eq!(
        backend.get_execution_result(2, true).err(),
        Some(StateBackendError::NotAvailableYet)
    );
    assert_eq!(backend.get_execution_result(3, true).unwrap().height, 3);
    let late = CosmosStateBackend::new(store(vec![result(3)]));
    assert_eq!(
        late.get_execution_result(1, true).err(),
        Some(StateBackendError::NeverAvailable)
    );
    assert_eq!(
        late.get_execution_result(1, false).err(),
        Some(StateBackendError::NotAvailableYet)
    );
    assert_eq!(late.raw_read_earliest_finalized_block(), Some(3));
    assert_eq!(late.get_account_statuses(2), vec![None, None]);
    assert!(late.read_valset_at_block(1, 1).is_empty());
    assert_eq!(late.total_db_lookups(), 0);
}

#[test]
fn recent_results_are_looked_for_once() {
    let store = store(vec![result(4), CosmosFinalizedHeader::bare(5, vec![1])]);
    let mut scan = RecentResults::new(6, 3);
    assert_eq!(scan.next_missing(&store), Some(3));
    assert_eq!(scan.next_missing(&store), Some(5));
    assert_eq!(scan.next_missing(&store), Some(6));
    assert_eq!(scan.next_missing(&store), None);
    assert_eq!(RecentResults::new(0, 3).next_missing(&store), None);
    assert_eq!(RecentResults::new(2, 9).next_missing(&store), Some(1));
}

#[test]
fn fetched_results_are_kept_when_written() {
    let mut kept = CosmosCommitStore::empty();
    assert!(!block_policy::execution_result_cached(&kept, 4));
    assert_eq!(
        block_policy::cache_execution_result_from_abci(&mut kept, result(4), Err(String::from("full"))),
        Err(CosmosTxPoolError::Transport(String::from("full")))
    );
    assert!(!block_policy::execution_result_cached(&kept, 4));
    assert_eq!(
        block_policy::cache_execution_result_from_abci(&mut kept, result(4), Ok(())),
        Ok(())
    );
    assert!(block_policy::execution_result_cached(&kept, 4));
}

#[test]
fn expected_results_pass_the_check() {
    let policy = CosmosBlockPolicy::new(3, String::from("tcp://x"));
    assert_eq!(policy.abci_endpoint(), "tcp://x");
    assert_eq!(policy.delayed_target(3), None);
    assert_eq!(policy.delayed_target(8), Some(5));
    let expected = policy.get_expected_execution_results(8, Ok(result(5))).unwrap();
    assert_eq!(expected, vec![result(5)]);
    let filled = block(8, 1, expected);
    assert_eq!(policy.check_execution_results(&filled, Ok(result(5))), Ok(()));
    assert_eq!(
        policy.check_execution_results(&filled, Ok(result(6))),
        Err(BlockPolicyError::ExecutionResultMismatch)
    );
    assert_eq!(
        policy.check_execution_results(&filled, Err(StateBackendError::NotAvailableYet)),
        Err(BlockPolicyError::StateBackendError(StateBackendError::NotAvailableYet))
    );
    assert_eq!(policy.get_expected_execution_results(2, Err(StateBackendError::NeverAvailable)), Ok(vec![]));
}

#[test]
fn verdicts_come_in_order() {
    let policy = CosmosBlockPolicy::new(3, String::from("tcp://x"));
    let parent = block(7, 100, vec![]);
    let good = block(8, 101, vec![result(5)]);
    let check = |b: &CosmosBlock, processed| {
        policy.check_coherency(b, Some(&parent), 0, Ok(result(5)), processed)
    };
    assert_eq!(check(&good, accept()), Ok(()));
    assert_eq!(
        check(&block(9, 101, vec![]), accept()),
        Err(BlockPolicyError::BlockNotCoherent)
    );
    assert_eq!(check(&block(8, 100, vec![]), accept()), Err(BlockPolicyError::TimestampError));
    assert_eq!(
        check(&block(8, 101, vec![]), accept()),
        Err(BlockPolicyError::ExecutionResultMismatch)
    );
    assert_eq!(
        check(&good, Ok(ProcessProposalResponse { status: 2 })),
        Err(BlockPolicyError::BlockNotCoherent)
    );
    assert_eq!(
        check(&good, Err(CosmosTxPoolError::ProposalRejected)),
        Err(BlockPolicyError::BlockNotCoherent)
    );
    assert_eq!(policy.check_coherency(&block(1, 1, vec![]), None, 0, Ok(result(5)), accept()), Ok(()));
    assert_eq!(
        policy.check_coherency(&block(1, 0, vec![]), None, 0, Ok(result(5)), accept()),
        Err(BlockPolicyError::TimestampError)
    );
}

#[test]
fn the_application_is_asked_only_where_needed() {
    let policy = CosmosBlockPolicy::new(3, String::from("tcp://x"));
    let parent = block(7, 100, vec![]);
    let cached = CosmosStateBackend::new(store(vec![result(5)]));
    let empty = CosmosStateBackend::new(CosmosCommitStore::empty());
    let good = block(8, 101, vec![result(5)]);
    assert!(matches!(
        policy.coherency_start(&block(9, 101, vec![]), Some(&parent), 0, &empty, &hasher),
        CoherencyAction::Verdict(Err(BlockPolicyError::BlockNotCoherent))
    ));
    assert!(matches!(
        policy.coherency_start(&good, Some(&parent), 0, &cached, &hasher),
        CoherencyAction::Process(request) if request.hash == b"tx" && request.height == 8
    ));
    assert!(matches!(
        policy.coherency_start(&block(8, 101, vec![]), Some(&parent), 0, &cached, &hasher),
        CoherencyAction::Verdict(Err(BlockPolicyError::ExecutionResultMismatch))
    ));
    assert!(matches!(
        policy.coherency_start(&block(1, 1, vec![]), None, 0, &empty, &hasher),
        CoherencyAction::Process(_)
    ));
    assert!(matches!(
        policy.coherency_start(&good, Some(&parent), 0, &empty, &hasher),
        CoherencyAction::Query { height: 5, request } if request.data[7] == 5
    ));
    let (file, action) = policy.coherency_queried(&good, Ok(result(5)), &hasher);
    assert_eq!(file.unwrap().name, "5.rlp");
    assert!(matches!(action, CoherencyAction::Process(_)));
    let (file, action) = policy.coherency_queried(&good, Ok(result(6)), &hasher);
    assert!(file.is_some());
    assert!(matches!(
        action,
        CoherencyAction::Verdict(Err(BlockPolicyError::ExecutionResultMismatch))
    ));
    let (file, action) =
        policy.coherency_queried(&good, Err(CosmosTxPoolError::ProposalRejected), &hasher);
    assert!(file.is_none());
    assert!(matches!(
        action,
        CoherencyAction::Verdict(Err(BlockPolicyError::StateBackendError(
            StateBackendError::NotAvailableYet
        )))
    ));
}

#[test]
fn validator_wants_the_body_of_the_header() {
    let validator = CosmosBlockValidator::new(String::from("tcp://x"));
    let b = block(1, 1, vec![]);
    assert_eq!(validator.validate(b.clone(), true), Ok(b.clone()));
    assert_eq!(
        validator.validate(b, false),
        Err(CosmosBlockValidationError::HeaderPayloadMismatch)
    );
}

#[test]
fn leaders_find_what_blocks_have_to_carry() {
    let policy = CosmosBlockPolicy::new(2, String::from("tcp://x"));
    let backend = CosmosStateBackend::new(store(vec![result(3)]));
    assert!(matches!(
        policy.expected_start(2, &backend),
        ExpectedAction::Results(Ok(results)) if results.is_empty()
    ));
    assert!(matches!(
        policy.expected_start(5, &backend),
        ExpectedAction::Results(Ok(results)) if results == vec![result(3)]
    ));
    match policy.expected_start(6, &backend) {
        ExpectedAction::Query { height, request } => {
            assert_eq!(height, 4);
            assert_eq!(request.data, 4u64.to_be_bytes().to_vec());
        }
        ExpectedAction::Results(_) => panic!("the application has to be asked"),
    }
    let (file, results) = policy.expected_queried(6, Ok(result(4)));
    assert_eq!(file.unwrap().name, "4.rlp");
    assert_eq!(results, Ok(vec![result(4)]));
    let down = CosmosTxPoolError::Transport(String::from("down"));
    let (file, results) = policy.expected_queried(6, Err(down));
    assert!(file.is_none());
    assert_eq!(results, Err(StateBackendError::NotAvailableYet));
}
