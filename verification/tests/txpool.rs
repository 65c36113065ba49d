use bytes::Bytes;
use monad_cosmos::abci::error::CosmosTxPoolError;
use monad_cosmos::abci::messages::CheckTxResponse;
use monad_cosmos::block_policy::CosmosBlock;
use monad_cosmos::cosmos_types::{CosmosBlockBody, ProposedCosmosHeader};
use monad_cosmos::integration;
use monad_cosmos::txpool::executor::CosmosTxPoolExecutor;
use monad_cosmos::txpool::ipc;
use monad_cosmos::txpool::ipc::{
    CheckedBatch, CosmosTxPoolIngressTx, CosmosTxPoolIpcRequest, CosmosTxPoolIpcTx,
    CosmosTxPoolSnapshot, IpcError, IpcErrorKind,
};
use monad_cosmos::txpool::proposal::ProposalRequest;

fn block(seq_num: u64, txs: &[&[u8]]) -> CosmosBlock {
    CosmosBlock {
        seq_num,
        timestamp_ns: 0,
        execution_results: vec![],
        header: ProposedCosmosHeader {
            height: seq_num,
            max_tx_bytes: 0,
            time_ns: 0,
            local_last_commit: vec![],
            misbehavior: vec![],
            next_validators_hash: vec![],
            proposer_address: vec![],
        },
        body: CosmosBlockBody::from_txs(txs.iter().map(|t| t.to_vec()).collect()),
    }
}

fn request() -> ProposalRequest<u8> {
    ProposalRequest {
        seq_num: 9,
        tx_limit: 1,
        proposal_byte_limit: 77,
        timestamp_ns: 1_000_000_002,
        context: 5,
    }
}

#[test]
fn proposals_tell_the_application_what_is_taken() {
    let executor = CosmosTxPoolExecutor::<u8>::new(String::from("tcp://x"), Some("10"));
    let prepare =
        executor.start_proposal(&request(), &vec![block(7, &[b"a", b"b"]), block(8, &[b"c"])]);
    assert_eq!(prepare.txs, vec![b"a".to_vec(), b"b".to_vec(), b"c".to_vec()]);
    assert_eq!(prepare.max_tx_bytes, 77);
    assert_eq!(prepare.height, 9);
    assert_eq!(prepare.time.map(|t| (t.seconds, t.nanos)), Some((1, 2)));
}

#[test]
fn proposals_are_handed_out_in_order() {
    let mut executor = CosmosTxPoolExecutor::<u8>::new(String::from("tcp://x"), None);
    assert!(!executor.finish_proposal(request(), Err(CosmosTxPoolError::ProposalRejected)));
    assert!(executor.poll_event().is_none());
    assert!(executor.finish_proposal(request(), Ok(vec![b"t".to_vec()])));
    assert!(executor.finish_proposal(ProposalRequest { seq_num: 10, ..request() }, Ok(vec![])));
    let first = executor.poll_event().unwrap();
    assert_eq!(first.seq_num, 9);
    assert_eq!(first.context, 5);
    assert_eq!(first.body.txs(), &vec![b"t".to_vec()]);
    assert_eq!((first.base_fee, first.base_fee_trend, first.base_fee_moment), (0, 0, 0));
    assert_eq!(first.header.max_tx_bytes, 77);
    assert_eq!(executor.poll_event().unwrap().seq_num, 10);
    assert!(executor.poll_event().is_none());
}

#[test]
fn committed_transactions_leave_the_pool() {
    let mut executor = CosmosTxPoolExecutor::<u8>::new(String::from("tcp://x"), None);
    for tx in [&b"a"[..], b"b", b"c"] {
        assert!(executor.pending_txs.try_push(Bytes::copy_from_slice(tx)));
    }
    assert_eq!(executor.pending_len(), 3);
    executor.block_commit(&vec![block(1, &[b"b"]), block(2, &[b"c", b"d"])]);
    assert_eq!(executor.pending_len(), 1);
    let (left, _) = executor.pending_txs.drain_for_proposal(10, 10);
    assert_eq!(left, vec![b"a".to_vec()]);
    assert!(executor.insert_forwarded_txs(vec![]).is_none());
    assert_eq!(
        executor.insert_forwarded_txs(vec![Bytes::from_static(b"x")]),
        Some(vec![Bytes::from_static(b"x")])
    );
}

#[test]
fn frames_hold_lists_of_integers() {
    let bare = CosmosTxPoolIpcTx { tx: vec![1, 0, 200] };
    assert_eq!(bare.encode(), vec![0xc5, 0xc4, 1, 0x80, 0x81, 200]);
    assert_eq!(bare.encode()[1..], alloy_rlp::encode(&bare.tx));
    assert_eq!(CosmosTxPoolIpcTx::decode_exact(&bare.encode()), Ok(bare));
    let waiting = CosmosTxPoolIpcRequest { tx: vec![7], sync: true };
    assert_eq!(waiting.encode(), vec![0xc3, 0xc1, 7, 1]);
    assert_eq!(CosmosTxPoolIpcRequest::decode_exact(&waiting.encode()), Ok(waiting.clone()));
    assert_eq!(ipc::sync_frame(vec![7]), waiting.encode());
    assert_eq!(
        ipc::feed_frames(&vec![vec![7], vec![]]),
        vec![vec![0xc2, 0xc1, 7], vec![0xc1, 0xc0]]
    );
    assert_eq!(CosmosTxPoolSnapshot::default(), CosmosTxPoolSnapshot {});
    assert_eq!(
        CosmosTxPoolIpcRequest::decode_exact(&[0xc3, 0xc1, 7, 2]).err().map(|e| e.message()),
        Some(String::from("invalid bool value, must be 0 or 1"))
    );
    assert!(CosmosTxPoolIpcTx::decode_exact(&[0xc3, 0xc1, 7, 1]).is_err());
}

#[test]
fn both_kinds_of_frames_are_read() {
    let bare = ipc::read_frame(&CosmosTxPoolIpcTx { tx: b"tx".to_vec() }.encode()).unwrap().unwrap();
    assert_eq!(bare.tx, Bytes::from_static(b"tx"));
    assert!(!bare.wants_response);
    let waiting = ipc::read_frame(&ipc::sync_frame(b"tx".to_vec())).unwrap().unwrap();
    assert_eq!(waiting.tx, Bytes::from_static(b"tx"));
    assert!(waiting.wants_response);
    assert!(matches!(ipc::read_frame(&[0xc1, 0xc0]), Ok(None)));
    assert!(matches!(ipc::read_frame(b"garbage"), Err(IpcError::InvalidFrame)));

    let read = integration::ipc::read_frame;
    assert_eq!(
        read(&CosmosTxPoolIpcTx { tx: b"tx".to_vec() }.encode()),
        Ok(Some(Bytes::from_static(b"tx")))
    );
    assert_eq!(read(&[0xc1, 0xc0]), Ok(None));
    assert_eq!(read(&ipc::sync_frame(b"tx".to_vec())), Err(IpcError::InvalidFrame));
}

fn answer(code: u32) -> CheckTxResponse {
    CheckTxResponse {
        code,
        data: vec![],
        log: String::from("log"),
        info: String::new(),
        gas_wanted: 21,
        gas_used: 0,
        events: vec![],
        codespace: String::from("app"),
        lane_id: String::new(),
    }
}

fn ingress(tx: &'static [u8], wants_response: bool) -> CosmosTxPoolIngressTx {
    CosmosTxPoolIngressTx { tx: Bytes::from_static(tx), wants_response }
}

fn refused(log: &str) -> CheckTxResponse {
    CheckTxResponse {
        code: 1,
        data: vec![],
        log: String::from(log),
        info: String::new(),
        gas_wanted: 0,
        gas_used: 0,
        events: vec![],
        codespace: String::from("monad_txpool"),
        lane_id: String::new(),
    }
}

fn checked_batch() -> (CheckedBatch, Vec<Option<CheckTxResponse>>) {
    let mut batch = CheckedBatch::new();
    assert!(!batch.has_accepted());
    let now = vec![
        batch.checked(0, ingress(b"a", true), Ok(answer(0))),
        batch.checked(1, ingress(b"b", true), Ok(answer(9))),
        batch.checked(2, ingress(b"c", false), Ok(answer(9))),
        batch.checked(3, ingress(b"d", true), Err(String::from("down"))),
        batch.checked(4, ingress(b"e", false), Err(String::from("down"))),
        batch.checked(5, ingress(b"f", false), Ok(answer(0))),
        batch.checked(6, ingress(b"g", true), Ok(answer(0))),
    ];
    (batch, now)
}

#[test]
fn waiting_senders_are_answered_once() {
    let (batch, now) = checked_batch();
    assert_eq!(
        now,
        vec![
            None,
            Some(answer(9)),
            None,
            Some(refused("CheckTx transport error: down")),
            None,
            None,
            None,
        ]
    );
    assert!(batch.has_accepted());
    assert_eq!(
        batch.accepted,
        vec![Bytes::from_static(b"a"), Bytes::from_static(b"f"), Bytes::from_static(b"g")]
    );
    assert_eq!(batch.finish(true), vec![(0, answer(0)), (6, answer(0))]);
    let (batch, _) = checked_batch();
    let gone = refused("txpool ingress channel closed");
    assert_eq!(batch.finish(false), vec![(0, gone.clone()), (6, gone)]);
}

#[test]
fn connection_errors_have_texts_and_kinds() {
    let cases = vec![
        (IpcError::MissingSnapshot, "missing snapshot frame", IpcErrorKind::UnexpectedEof),
        (
            IpcError::InvalidSnapshot(String::from("x")),
            "invalid cosmos txpool snapshot: x",
            IpcErrorKind::InvalidData,
        ),
        (IpcError::MissingResponse, "missing CheckTx response frame", IpcErrorKind::UnexpectedEof),
        (
            IpcError::InvalidResponse(String::from("x")),
            "invalid CheckTx response frame: x",
            IpcErrorKind::InvalidData,
        ),
        (IpcError::InvalidFrame, "invalid RLP for CosmosTxPoolIpcTx", IpcErrorKind::InvalidData),
        (IpcError::IngressClosed, "ingress channel closed", IpcErrorKind::BrokenPipe),
        (IpcError::ResponseClosed, "CheckTx response channel closed", IpcErrorKind::BrokenPipe),
    ];
    for (error, message, kind) in cases {
        assert_eq!(error.message(), message);
        assert_eq!(error.kind(), kind);
    }
}
