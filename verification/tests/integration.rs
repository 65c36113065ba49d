use bytes::Bytes;
use monad_cosmos::abci::error::CosmosIntegrationError;
use monad_cosmos::abci::messages::{
    CommitResponse, FinalizeBlockResponse, InfoResponse, ProcessProposalResponse,
};
use monad_cosmos::block_policy::{BlockPolicyError, CosmosBlock};
use monad_cosmos::commit_store::CosmosCommitStore;
use monad_cosmos::cosmos_types::{
    CosmosBlockBody, CosmosFinalizedHeader, ProposedCosmosHeader, MAX_COSMOS_TXS_PER_BLOCK,
};
use monad_cosmos::integration::executor::{
    AwaitedProposal, CommitReport, CosmosTxPoolExecutor, DrainAction, IngressPoll, InsertCounts,
    ProposalStart,
};
use monad_cosmos::integration::policy::{
    CosmosBlockPolicy, CosmosBlockValidationError, CosmosBlockValidator, ValidationAction,
    COSMOS_MAX_AHEAD_BLOCKS,
};
use monad_cosmos::txpool::proposal::ProposalRequest;

fn block(seq_num: u64, timestamp_ns: u128, txs: &[&[u8]]) -> CosmosBlock {
    CosmosBlock {
        seq_num,
        timestamp_ns,
        execution_results: vec![],
        header: ProposedCosmosHeader {
            height: seq_num,
            max_tx_bytes: 0,
            time_ns: timestamp_ns,
            local_last_commit: vec![],
            misbehavior: vec![],
            next_validators_hash: vec![],
            proposer_address: vec![],
        },
        body: CosmosBlockBody::from_txs(txs.iter().map(|t| t.to_vec()).collect()),
    }
}

fn store(latest: u64) -> CosmosCommitStore {
    let mut store = CosmosCommitStore::empty();
    store.commit(CosmosFinalizedHeader::bare(latest, vec![1]), Ok(())).unwrap();
    store
}

fn executor(latest: u64) -> CosmosTxPoolExecutor<u8> {
    CosmosTxPoolExecutor::new(String::from("tcp://x"), store(latest), true)
}

fn info(height: i64) -> Result<InfoResponse, CosmosIntegrationError> {
    Ok(InfoResponse {
        app_version: 0,
        last_block_height: height,
        last_block_app_hash: vec![height as u8],
    })
}

fn executed() -> Result<(FinalizeBlockResponse, CommitResponse), CosmosIntegrationError> {
    Ok((
        FinalizeBlockResponse {
            encoded: vec![1],
            tx_results: vec![],
            validator_updates: vec![],
            app_hash: vec![7],
        },
        CommitResponse { encoded: vec![2], retain_height: 0 },
    ))
}

fn hasher(bytes: &[u8]) -> Vec<u8> {
    bytes.to_vec()
}

fn failure() -> CosmosIntegrationError {
    CosmosIntegrationError::Transport(String::from("down"))
}

#[test]
fn committed_blocks_are_applied_one_after_the_other() {
    let mut e = executor(4);
    assert!(e.pending_txs.try_push(Bytes::from_static(b"five")));
    assert!(e.pending_txs.try_push(Bytes::from_static(b"other")));
    let action = e.block_commit(vec![block(6, 2, &[b"six"]), block(5, 1, &[b"five"])]);
    assert!(matches!(action, DrainAction::AskInfo));
    assert!(matches!(e.sync_informed(info(4)), DrainAction::AskInfo));
    assert!(matches!(
        e.informed(info(4), &hasher),
        DrainAction::Finalize(request)
            if request.height == 5 && request.hash == b"five" && request.txs == vec![b"five".to_vec()]
    ));
    assert!(matches!(e.finalized(executed()), DrainAction::Write(file) if file.name == "5.rlp"));
    let (action, report) = e.written(Ok(()));
    assert_eq!(report, Some(CommitReport { height: 5, txs: 1 }));
    assert!(matches!(action, DrainAction::AskInfo));
    assert_eq!(e.store.latest(), Some(5));
    assert_eq!(e.pending_txs.pending_len(), 1);
    assert!(matches!(
        e.informed(info(6), &hasher),
        DrainAction::Write(file) if file.name == "6.rlp"
    ));
    let (action, report) = e.written(Ok(()));
    assert_eq!(report, None);
    assert!(matches!(action, DrainAction::Done));
    assert_eq!(e.store.latest(), Some(6));
    assert_eq!(e.store.get(6), Some(&CosmosFinalizedHeader::bare(6, vec![6])));
    assert!(e.pending_app_commits.is_empty());
}

#[test]
fn blocks_that_fail_wait_for_the_next_time() {
    let steps: Vec<fn(&mut CosmosTxPoolExecutor<u8>) -> DrainAction> = vec![
        |e| e.informed(Err(failure()), &hasher),
        |e| e.informed(info(9), &hasher),
        |e| {
            let _ = e.informed(info(4), &hasher);
            e.finalized(Err(failure()))
        },
        |e| {
            let _ = e.informed(info(4), &hasher);
            let _ = e.finalized(executed());
            e.written(Err(String::from("disk full"))).0
        },
    ];
    for step in steps {
        let mut e = executor(4);
        let _ = e.block_commit(vec![block(5, 1, &[b"five"])]);
        let _ = e.sync_informed(Err(failure()));
        assert!(matches!(step(&mut e), DrainAction::Done));
        assert_eq!(e.pending_app_commits.len(), 1);
        assert_eq!(e.store.latest(), Some(4));
    }
}

#[test]
fn store_is_levelled_before_blocks_are_applied() {
    let mut e = executor(4);
    assert!(e.pending_txs.try_push(Bytes::from_static(b"five")));
    let _ = e.block_commit(vec![block(5, 1, &[b"five"]), block(7, 1, &[])]);
    assert!(matches!(e.sync_informed(info(5)), DrainAction::Write(file) if file.name == "5.rlp"));
    assert!(matches!(e.sync_written(Ok(())), DrainAction::AskInfo));
    assert!(matches!(e.sync_informed(info(5)), DrainAction::Done));
    assert_eq!(e.store.latest(), Some(5));
    assert_eq!(e.pending_txs.pending_len(), 0);
    assert_eq!(e.pending_app_commits.len(), 1);

    let mut e = executor(4);
    let _ = e.block_commit(vec![]);
    let _ = e.sync_informed(info(5));
    assert!(matches!(e.sync_written(Err(String::from("full"))), DrainAction::Done));
    assert_eq!(e.store.latest(), Some(4));
}

fn request(seq_num: u64) -> ProposalRequest<u8> {
    ProposalRequest { seq_num, tx_limit: 2, proposal_byte_limit: 10, timestamp_ns: 1, context: 3 }
}

fn with_pending(latest: u64, txs: &[&'static [u8]]) -> CosmosTxPoolExecutor<u8> {
    let mut e = executor(latest);
    for tx in txs {
        assert!(e.pending_txs.try_push(Bytes::from_static(tx)));
    }
    e
}

fn pending(e: &mut CosmosTxPoolExecutor<u8>) -> Vec<Vec<u8>> {
    e.pending_txs.drain_for_proposal(usize::MAX, usize::MAX).0
}

fn awaited(
    e: &mut CosmosTxPoolExecutor<u8>,
    seq_num: u64,
) -> (Vec<Vec<u8>>, AwaitedProposal<u8>) {
    match e.start_proposal(request(seq_num)) {
        ProposalStart::Prepare { prepare, awaited } => {
            assert_eq!(prepare.height, seq_num as i64);
            assert_eq!(prepare.max_tx_bytes, 10);
            (prepare.txs, awaited)
        }
        _ => panic!("the application has to be asked"),
    }
}

#[test]
fn proposals_stay_close_to_the_application() {
    let mut e = with_pending(4, &[b"a"]);
    assert!(matches!(
        e.start_proposal(request(4 + COSMOS_MAX_AHEAD_BLOCKS + 1)),
        ProposalStart::Skip
    ));
    assert_eq!(e.pending_txs.pending_len(), 1);
    let (offered, _) = awaited(&mut e, 4 + COSMOS_MAX_AHEAD_BLOCKS);
    assert_eq!(offered, vec![b"a".to_vec()]);
    let mut fresh: CosmosTxPoolExecutor<u8> =
        CosmosTxPoolExecutor::new(String::new(), CosmosCommitStore::empty(), false);
    assert!(matches!(fresh.start_proposal(request(5)), ProposalStart::Skip));
    assert!(fresh.poll_event().is_none());
}

#[test]
fn proposals_at_genesis_hold_pending_transactions() {
    let mut e = with_pending(0, &[b"aaaa", b"bbbb", b"cccc"]);
    assert!(matches!(e.start_proposal(request(4)), ProposalStart::Bypassed));
    let proposal = e.poll_event().unwrap();
    assert_eq!(proposal.body.txs(), &vec![b"aaaa".to_vec(), b"bbbb".to_vec()]);
    assert_eq!(proposal.header.height, 4);
    assert!(e.poll_event().is_none());
    assert_eq!(pending(&mut e), vec![b"cccc".to_vec()]);

    let mut e = with_pending(0, &[b"aaaaaaaa", b"bbbb"]);
    assert!(matches!(e.start_proposal(request(1)), ProposalStart::Bypassed));
    assert_eq!(e.poll_event().unwrap().body.txs(), &vec![b"aaaaaaaa".to_vec()]);

    let mut e = with_pending(0, &[]);
    assert!(matches!(e.start_proposal(request(1)), ProposalStart::Bypassed));
    assert!(e.poll_event().unwrap().body.txs().is_empty());
}

#[test]
fn proposals_offer_no_more_than_a_body_holds() {
    let limit = MAX_COSMOS_TXS_PER_BLOCK;
    let wide = ProposalRequest {
        tx_limit: usize::MAX,
        proposal_byte_limit: u64::MAX,
        ..request(1)
    };
    let mut e = executor(0);
    for i in 0..limit + 2 {
        assert!(e.pending_txs.try_push(Bytes::from(i.to_string())));
    }
    assert!(matches!(e.start_proposal(wide), ProposalStart::Bypassed));
    assert_eq!(e.poll_event().unwrap().body.txs().len(), limit);
    assert_eq!(pending(&mut e), vec![limit.to_string(), (limit + 1).to_string()]
        .into_iter()
        .map(String::into_bytes)
        .collect::<Vec<_>>());
}

#[test]
fn answers_beyond_a_body_leave_the_pool_alone() {
    let mut e = with_pending(4, &[b"a", b"b", b"c"]);
    let (_, waiting) = awaited(&mut e, 5);
    let answer = vec![b"a".to_vec(); MAX_COSMOS_TXS_PER_BLOCK + 1];
    assert!(e.finish_proposal(waiting, Ok(answer)));
    assert!(e.poll_event().unwrap().body.txs().is_empty());
    assert_eq!(pending(&mut e), vec![b"a".to_vec(), b"b".to_vec(), b"c".to_vec()]);
}

#[test]
fn candidates_that_are_left_out_stay_pending() {
    let mut e = with_pending(4, &[b"a", b"b", b"c"]);
    let (offered, waiting) = awaited(&mut e, 5);
    assert_eq!(offered, vec![b"a".to_vec(), b"b".to_vec()]);
    assert!(e.finish_proposal(waiting, Ok(vec![b"b".to_vec(), b"own".to_vec()])));
    let proposal = e.poll_event().unwrap();
    assert_eq!(proposal.body.txs(), &vec![b"b".to_vec(), b"own".to_vec()]);
    assert_eq!(pending(&mut e), vec![b"a".to_vec(), b"c".to_vec()]);
}

#[test]
fn failed_proposals_put_their_candidates_back() {
    let mut e = with_pending(4, &[b"a", b"b", b"c"]);
    let (_, waiting) = awaited(&mut e, 5);
    assert_eq!(e.pending_txs.pending_len(), 1);
    assert!(!e.finish_proposal(waiting, Err(failure())));
    assert!(e.poll_event().is_none());
    assert_eq!(pending(&mut e), vec![b"a".to_vec(), b"b".to_vec(), b"c".to_vec()]);
}

#[test]
fn proposals_go_out_before_anything_else() {
    let mut e = executor(4);
    let (_, waiting) = awaited(&mut e, 5);
    assert!(!e.finish_proposal(waiting, Err(failure())));
    assert!(e.poll_event().is_none());
    let (_, waiting) = awaited(&mut e, 5);
    assert!(e.finish_proposal(waiting, Ok(vec![b"t".to_vec()])));
    let proposal = e.poll_event().unwrap();
    assert_eq!(proposal.context, 3);
    assert_eq!(proposal.body.txs(), &vec![b"t".to_vec()]);
    assert!(e.poll_event().is_none());
}

#[test]
fn runs_stop_below_the_first_gap() {
    let mut e = executor(4);
    let blocks = [5, 6, 8].iter().map(|h| block(*h, u128::from(*h), &[])).collect();
    let mut action = e.block_commit(blocks);
    assert!(matches!(action, DrainAction::AskInfo));
    action = e.sync_informed(info(4));
    let mut written = vec![];
    loop {
        action = match action {
            DrainAction::AskInfo => e.informed(info(4), &hasher),
            DrainAction::Finalize(_) => e.finalized(executed()),
            DrainAction::Write(file) => {
                written.push(file.name);
                e.written(Ok(())).0
            }
            DrainAction::Done => break,
        };
    }
    assert_eq!(written, vec![String::from("5.rlp"), String::from("6.rlp")]);
    assert_eq!(e.store.latest(), Some(6));
    assert_eq!(e.pending_app_commits.keys().copied().collect::<Vec<u64>>(), vec![8]);
}

#[test]
fn local_transactions_are_forwarded_and_others_are_not() {
    let mut e = executor(4);
    let txs = vec![Bytes::from_static(b"a"), Bytes::from_static(b"b"), Bytes::from_static(b"a")];
    let (counts, wake) = e.insert_forwarded_txs(txs, &vec![Some(0), Some(3), Some(0)]);
    assert_eq!(counts, InsertCounts { accepted: 1, check_reject: 1, duplicates: 1 });
    assert!(wake);
    let (batch, again) = e.poll_ingress(IngressPoll::Pending);
    assert!(batch.is_none());
    assert!(!again);
    let local = vec![Bytes::from_static(b"a"), Bytes::from_static(b"c")];
    let (batch, again) = e.poll_ingress(IngressPoll::Batch(local));
    assert_eq!(batch, Some(vec![Bytes::from_static(b"c")]));
    assert!(again);
    let (batch, again) = e.poll_ingress(IngressPoll::Closed);
    assert!(batch.is_none());
    assert!(again);
    let (_, again) = e.poll_ingress(IngressPoll::Batch(vec![Bytes::from_static(b"d")]));
    assert!(!again);
    assert_eq!(e.pending_txs.pending_len(), 2);
    assert!(e.apply_checked_ingress_batch(vec![Bytes::from_static(b"e")]));
    assert!(!e.apply_checked_ingress_batch(vec![Bytes::from_static(b"e")]));
}

#[test]
fn policy_wants_blocks_without_results() {
    let policy = CosmosBlockPolicy;
    let parent = block(6, 10, &[]);
    let check = |b: &CosmosBlock| policy.check_coherency(b, Some(&parent), 0, Some(4));
    assert_eq!(check(&block(7, 11, &[])), Ok(()));
    assert_eq!(check(&block(8, 11, &[])), Err(BlockPolicyError::BlockNotCoherent));
    assert_eq!(check(&block(7, 10, &[])), Err(BlockPolicyError::TimestampError));
    let mut with_results = block(7, 11, &[]);
    with_results.execution_results.push(CosmosFinalizedHeader::bare(1, vec![]));
    assert_eq!(check(&with_results), Err(BlockPolicyError::ExecutionResultMismatch));
    assert_eq!(
        policy.check_coherency(&block(7, 11, &[]), Some(&parent), 0, Some(2)),
        Err(BlockPolicyError::BlockNotCoherent)
    );
    assert_eq!(policy.check_coherency(&block(4, 1, &[]), None, 3, None), Ok(()));
    assert_eq!(policy.get_expected_execution_results(9), Ok(vec![]));
}

#[test]
fn validator_asks_about_all_but_the_first_blocks() {
    let validator = CosmosBlockValidator::new(String::from("tcp://x"));
    assert_eq!(validator.endpoint(), "tcp://x");
    assert!(matches!(
        validator.start(&block(COSMOS_MAX_AHEAD_BLOCKS, 1, &[]), &hasher),
        ValidationAction::CheckBody
    ));
    assert!(matches!(
        validator.start(&block(COSMOS_MAX_AHEAD_BLOCKS + 1, 1, &[b"t"]), &hasher),
        ValidationAction::Ask(request) if request.hash == b"t"
    ));
    assert_eq!(CosmosBlockValidator::answered(Ok(ProcessProposalResponse { status: 1 })), Ok(()));
    assert_eq!(
        CosmosBlockValidator::answered(Ok(ProcessProposalResponse { status: 2 })),
        Err(CosmosBlockValidationError::Abci(CosmosIntegrationError::ProposalRejected))
    );
    assert_eq!(
        CosmosBlockValidator::answered(Err(failure())),
        Err(CosmosBlockValidationError::Abci(failure()))
    );
    let b = block(1, 1, &[]);
    assert_eq!(CosmosBlockValidator::finish(b.clone(), true), Ok(b.clone()));
    assert_eq!(
        CosmosBlockValidator::finish(b, false),
        Err(CosmosBlockValidationError::HeaderPayloadMismatch)
    );
}
