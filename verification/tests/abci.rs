use monad_cosmos::abci::error::{AbciClientError, CosmosIntegrationError, CosmosTxPoolError};
use monad_cosmos::abci::genesis;
use monad_cosmos::abci::messages::{
    CheckTxResponse, CheckTxType, CommitResponse, Duration, FinalizeBlockResponse, InfoResponse,
    InitChainResponse, OpaqueMessage, PrepareProposalResponse, ProcessProposalResponse,
    QueryResponse, Response, Timestamp,
};
use monad_cosmos::abci::requests;
use monad_cosmos::abci::requests::{AbciFirstBlockDebugInfo, AbciGenesisDebugInfo};
use monad_cosmos::abci::select;
use monad_cosmos::abci::select::{FinalizeAndCommit, FinalizeCommitAction};
use monad_cosmos::abci::socket;
use monad_cosmos::abci::socket::{
    FrameReader, FrameStep, RoundtripAction, RoundtripFlavor, SocketRoundtrip,
};
use monad_cosmos::abci::transport;
use monad_cosmos::abci::transport::{AbciTransportConfig, SocketAbciClient, SocketTarget};
use monad_cosmos::cosmos_types::{CosmosBlockBody, CosmosFinalizedHeader, ProposedCosmosHeader};
use monad_cosmos::json::{Json, JsonNumber};
use monad_cosmos::varint;
use monad_cosmos::varint::VarintStep;

fn text(s: &str) -> Json {
    Json::Text(String::from(s))
}

fn object(entries: Vec<(&str, Json)>) -> Json {
    Json::Object(entries.into_iter().map(|(k, v)| (String::from(k), v)).collect())
}

#[test]
fn varints_take_seven_bits_to_a_byte() {
    assert_eq!(varint::encode_varint(0), vec![0]);
    assert_eq!(varint::encode_varint(127), vec![127]);
    assert_eq!(varint::encode_varint(128), vec![0x80, 1]);
    assert_eq!(varint::encode_varint(300), vec![0xac, 2]);
    for value in [0usize, 1, 127, 128, 16_383, 16_384, usize::MAX] {
        let bytes = varint::encode_varint(value);
        assert!(matches!(
            varint::decode_varint(&bytes),
            VarintStep::Done { value: v, consumed } if v == value as u64 && consumed == bytes.len()
        ));
    }
    assert!(matches!(varint::decode_varint(&[]), VarintStep::NeedMore));
    assert!(matches!(varint::decode_varint(&[0x80]), VarintStep::NeedMore));
    assert!(matches!(varint::decode_varint(&[0x80; 10]), VarintStep::Invalid));
    assert!(matches!(
        varint::decode_varint(&[5, 9]),
        VarintStep::Done { value: 5, consumed: 1 }
    ));
}

fn read_frames(stream: &[u8]) -> Vec<Vec<u8>> {
    let mut reader = FrameReader::new();
    let mut frames = Vec::new();
    let mut rest = stream;
    while !rest.is_empty() {
        let n = reader.wanted().min(rest.len());
        match reader.push(&rest[..n]) {
            FrameStep::More => {}
            FrameStep::Frame(body) => frames.push(body),
            FrameStep::Invalid => panic!("invalid frame"),
        }
        rest = &rest[n..];
    }
    frames
}

#[test]
fn frames_come_out_of_the_stream_as_they_went_in() {
    let long = vec![7u8; 300];
    let mut stream = socket::frame(b"abc");
    assert_eq!(stream, vec![3, b'a', b'b', b'c']);
    stream.extend(socket::frame(b""));
    stream.extend(socket::frame(&long));
    assert_eq!(read_frames(&stream), vec![b"abc".to_vec(), Vec::new(), long]);
    assert_eq!(socket::request_bytes(b"x", b"yz"), vec![1, b'x', 2, b'y', b'z']);
    let mut reader = FrameReader::new();
    for _ in 0..9 {
        assert!(matches!(reader.push(&[0xff]), FrameStep::More));
    }
    assert!(matches!(reader.push(&[0xff]), FrameStep::Invalid));
    assert_eq!(reader.wanted(), 1);
}

fn feed<R>(exchange: &mut SocketRoundtrip<R>, mut action: RoundtripAction<R>, stream: &mut &[u8]) -> RoundtripAction<R> {
    while let RoundtripAction::Read(n) = action {
        let n = n.min(stream.len());
        action = exchange.received(&stream[..n]);
        *stream = &stream[n..];
    }
    action
}

#[test]
fn exchange_hands_out_the_first_of_two_responses() {
    let (mut exchange, action) =
        SocketRoundtrip::<u8>::start(RoundtripFlavor::Client, false, b"request", b"flush");
    assert!(matches!(action, RoundtripAction::Connect));
    let action = exchange.connected();
    assert!(matches!(action, RoundtripAction::Write(out) if out == socket::request_bytes(b"request", b"flush")));
    let stream = [socket::frame(b"one"), socket::frame(b"two")].concat();
    let mut rest = &stream[..];
    let action = exchange.written();
    let action = feed(&mut exchange, action, &mut rest);
    assert!(matches!(action, RoundtripAction::Decode(body) if body == b"one"));
    let action = exchange.decoded(1, false);
    let action = feed(&mut exchange, action, &mut rest);
    assert!(matches!(action, RoundtripAction::Decode(body) if body == b"two"));
    assert!(matches!(
        exchange.decoded(2, true),
        RoundtripAction::Finish { result: Ok(1), keep: true }
    ));
}

#[test]
fn exchange_needs_a_flush_at_the_end() {
    for (flavor, message, kept) in [
        (RoundtripFlavor::Client, "expected trailing flush response", true),
        (
            RoundtripFlavor::Integration,
            "socket ABCI protocol expected trailing flush response",
            false,
        ),
    ] {
        let (mut exchange, action) = SocketRoundtrip::<u8>::start(flavor, true, b"r", b"f");
        assert!(matches!(action, RoundtripAction::Write(_)));
        let stream = [socket::frame(b"a"), socket::frame(b"b")].concat();
        let mut rest = &stream[..];
        let action = exchange.written();
        let _ = feed(&mut exchange, action, &mut rest);
        let action = exchange.decoded(1, true);
        let _ = feed(&mut exchange, action, &mut rest);
        match exchange.decoded(2, false) {
            RoundtripAction::Finish { result: Err(AbciClientError::Transport(t)), keep } => {
                assert_eq!(t, message);
                assert_eq!(keep, kept);
            }
            _ => panic!("no flush at the end"),
        }
    }
}

#[test]
fn exchange_that_never_connected_keeps_nothing() {
    let (mut exchange, _) = SocketRoundtrip::<u8>::start(RoundtripFlavor::Client, false, b"r", b"f");
    assert!(matches!(
        exchange.failed(AbciClientError::Timeout),
        RoundtripAction::Finish { result: Err(AbciClientError::Timeout), keep: false }
    ));
    let (mut exchange, _) = SocketRoundtrip::<u8>::start(RoundtripFlavor::Client, true, b"r", b"f");
    let _ = exchange.written();
    let mut action = exchange.received(&[0x80]);
    for _ in 0..9 {
        action = exchange.received(&[0x80]);
    }
    assert!(matches!(
        action,
        RoundtripAction::Finish { result: Err(AbciClientError::Transport(t)), keep: true }
            if t == "invalid varint length prefix"
    ));
}

#[test]
fn endpoints_name_a_transport() {
    assert_eq!(
        AbciTransportConfig::from_endpoint("unix:///tmp/abci.sock"),
        AbciTransportConfig::Unix(String::from("/tmp/abci.sock"))
    );
    assert_eq!(
        AbciTransportConfig::from_endpoint("tcp://localhost:26658"),
        AbciTransportConfig::Tcp(String::from("localhost:26658"))
    );
    assert_eq!(
        AbciTransportConfig::from_endpoint("http://localhost:26658"),
        AbciTransportConfig::Grpc(String::from("http://localhost:26658"))
    );
    assert_eq!(
        transport::socket_client_from_endpoint("unix:///tmp/a").unwrap().target(),
        SocketTarget::Unix(String::from("/tmp/a"))
    );
    let client = transport::socket_client_from_endpoint("tcp://host:1").unwrap();
    assert_eq!(client.endpoint(), "host:1");
    assert_eq!(client.target(), SocketTarget::Tcp(String::from("host:1")));
    assert_eq!(
        transport::socket_client_from_endpoint("http://host").err(),
        Some(CosmosTxPoolError::InvalidEndpoint(String::from(
            "grpc endpoint passed to socket client"
        )))
    );
    assert_eq!(
        SocketAbciClient::new(String::from("")).target(),
        SocketTarget::Tcp(String::new())
    );
}

#[test]
fn errors_have_texts() {
    let s = || String::from("x");
    let texts: Vec<(AbciClientError, &str)> = vec![
        (AbciClientError::InvalidEndpoint(s()), "invalid ABCI endpoint: x"),
        (AbciClientError::Transport(s()), "transport error: x"),
        (AbciClientError::GrpcStatus(s()), "grpc status: x"),
        (AbciClientError::Encode(s()), "encode error: x"),
        (AbciClientError::Decode(s()), "decode error: x"),
        (AbciClientError::ProposalRejected, "proposal rejected by ABCI application"),
        (AbciClientError::Io(s()), "io error: x"),
        (AbciClientError::Timeout, "timeout"),
        (AbciClientError::ConnectionClosed, "connection closed"),
    ];
    for (error, message) in texts {
        assert_eq!(error.message(), message);
    }
    assert_eq!(CosmosTxPoolError::Io(s()).message(), "io error: x");
    assert_eq!(
        CosmosIntegrationError::ProposalRejected.message(),
        "proposal rejected by ABCI application"
    );
    assert!(!CosmosIntegrationError::FullBlock.message().is_empty());
    assert_eq!(
        CosmosTxPoolError::from(AbciClientError::Transport(s())),
        CosmosTxPoolError::Transport(s())
    );
}

fn check() -> CheckTxResponse {
    CheckTxResponse {
        code: 0,
        data: vec![],
        log: String::new(),
        info: String::from("cheap"),
        gas_wanted: 7,
        gas_used: 5,
        events: vec![vec![1, 2]],
        codespace: String::new(),
        lane_id: String::new(),
    }
}

fn info(height: i64, hash: &[u8]) -> InfoResponse {
    InfoResponse { app_version: 1, last_block_height: height, last_block_app_hash: hash.to_vec() }
}

fn finalize() -> FinalizeBlockResponse {
    FinalizeBlockResponse {
        encoded: vec![1],
        tx_results: vec![],
        validator_updates: vec![],
        app_hash: vec![2, 3],
    }
}

fn refused(method: &str) -> AbciClientError {
    AbciClientError::Transport(format!("unexpected response type for {method}"))
}

#[test]
fn responses_answer_their_own_request() {
    let opaque = || OpaqueMessage { encoded: vec![4] };
    let init = || InitChainResponse {
        has_consensus_params: true,
        validator_updates: 2,
        app_hash: vec![1],
    };
    let query = || QueryResponse { code: 0, log: String::new(), value: vec![] };
    let commit = || CommitResponse { encoded: vec![], retain_height: 3 };
    assert_eq!(select::check_tx(Response::CheckTx(check())), Ok(check()));
    assert_eq!(select::check_tx(Response::Flush), Err(refused("CheckTx")));
    assert_eq!(select::info(Response::Info(info(1, &[]))), Ok(info(1, &[])));
    assert_eq!(select::info(Response::Absent), Err(refused("Info")));
    assert_eq!(select::init_chain(Response::InitChain(init())), Ok(init()));
    assert_eq!(select::init_chain(Response::Flush), Err(refused("InitChain")));
    assert_eq!(select::query(Response::Query(query())), Ok(query()));
    assert_eq!(select::query(Response::Flush), Err(refused("Query")));
    assert_eq!(select::commit(Response::Commit(commit())), Ok(commit()));
    assert_eq!(select::commit(Response::Flush), Err(refused("Commit")));
    assert_eq!(select::finalize_block(Response::FinalizeBlock(finalize())), Ok(finalize()));
    assert_eq!(select::finalize_block(Response::Flush), Err(refused("FinalizeBlock")));
    let prepared = PrepareProposalResponse { txs: vec![vec![1]] };
    assert_eq!(
        select::prepare_proposal(Response::PrepareProposal(prepared.clone())),
        Ok(prepared.clone())
    );
    assert_eq!(select::prepare_proposal(Response::Flush), Err(refused("PrepareProposal")));
    let processed = ProcessProposalResponse { status: 1 };
    assert_eq!(
        select::process_proposal(Response::ProcessProposal(processed)),
        Ok(processed)
    );
    assert_eq!(select::process_proposal(Response::Flush), Err(refused("ProcessProposal")));
    assert_eq!(select::flush(Response::Flush), Ok(()));
    assert_eq!(select::flush(Response::Absent), Err(refused("Flush")));
    assert_eq!(select::echo(Response::Echo(opaque())), Ok(opaque()));
    assert_eq!(select::echo(Response::Flush), Err(refused("Echo")));
    assert_eq!(select::extend_vote(Response::ExtendVote(opaque())), Ok(opaque()));
    assert_eq!(select::extend_vote(Response::Flush), Err(refused("ExtendVote")));
    assert_eq!(
        select::verify_vote_extension(Response::VerifyVoteExtension(opaque())),
        Ok(opaque())
    );
    assert_eq!(
        select::verify_vote_extension(Response::Flush),
        Err(refused("VerifyVoteExtension"))
    );
    assert_eq!(select::list_snapshots(Response::ListSnapshots(opaque())), Ok(opaque()));
    assert_eq!(select::list_snapshots(Response::Flush), Err(refused("ListSnapshots")));
    assert_eq!(select::offer_snapshot(Response::OfferSnapshot(opaque())), Ok(opaque()));
    assert_eq!(select::offer_snapshot(Response::Flush), Err(refused("OfferSnapshot")));
    assert_eq!(
        select::load_snapshot_chunk(Response::LoadSnapshotChunk(opaque())),
        Ok(opaque())
    );
    assert_eq!(select::load_snapshot_chunk(Response::Flush), Err(refused("LoadSnapshotChunk")));
    assert_eq!(
        select::apply_snapshot_chunk(Response::ApplySnapshotChunk(opaque())),
        Ok(opaque())
    );
    assert_eq!(select::apply_snapshot_chunk(Response::Flush), Err(refused("ApplySnapshotChunk")));
}

#[test]
fn integration_passes_exceptions_on() {
    let transport = |t: &str| CosmosIntegrationError::Transport(String::from(t));
    let exception = || Response::Exception { error: String::from("app is down") };
    assert_eq!(select::integration_check_tx(Response::CheckTx(check())), Ok(check()));
    assert_eq!(select::integration_check_tx(exception()), Err(transport("app is down")));
    assert_eq!(
        select::integration_check_tx(Response::Absent),
        Err(transport("unexpected response for CheckTx: None"))
    );
    assert_eq!(
        select::integration_info(Response::Flush),
        Err(transport("unexpected response for Info"))
    );
    assert_eq!(
        select::integration_init_chain(Response::Absent).err(),
        Some(transport("unexpected response for InitChain"))
    );
    assert_eq!(
        select::integration_process_proposal(exception()).err(),
        Some(transport("app is down"))
    );
    assert_eq!(
        select::integration_prepare_proposal(Response::Absent).err(),
        Some(transport("unexpected response for PrepareProposal: None"))
    );
}

#[test]
fn commit_follows_only_a_finalized_block() {
    let mut machine = FinalizeAndCommit::new();
    assert!(matches!(
        machine.answered(Response::FinalizeBlock(finalize())),
        FinalizeCommitAction::SendCommit
    ));
    let commit = CommitResponse { encoded: vec![], retain_height: 1 };
    assert!(matches!(
        machine.answered(Response::Commit(commit.clone())),
        FinalizeCommitAction::Finish(Ok((f, c))) if f == finalize() && c == commit
    ));
    let mut machine = FinalizeAndCommit::new();
    assert!(matches!(
        machine.answered(Response::Flush),
        FinalizeCommitAction::Finish(Err(CosmosIntegrationError::Transport(t)))
            if t == "unexpected response for FinalizeBlock"
    ));
    let mut machine = FinalizeAndCommit::new();
    let _ = machine.answered(Response::FinalizeBlock(finalize()));
    assert!(matches!(
        machine.answered(Response::Flush),
        FinalizeCommitAction::Finish(Err(CosmosIntegrationError::Transport(t)))
            if t == "unexpected response for Commit"
    ));
    let mut machine = FinalizeAndCommit::new();
    assert!(matches!(
        machine.failed(CosmosIntegrationError::FullBlock),
        FinalizeCommitAction::Finish(Err(CosmosIntegrationError::FullBlock))
    ));
}

fn genesis_document() -> Json {
    object(vec![
        ("genesis_time", text("2024-02-29T12:00:00.25+01:00")),
        ("chain_id", text("chain-9")),
        ("initial_height", text("5")),
        (
            "consensus",
            object(vec![(
                "params",
                object(vec![
                    (
                        "block",
                        object(vec![("max_bytes", text("22020096")), ("max_gas", text("-1"))]),
                    ),
                    (
                        "evidence",
                        object(vec![
                            ("max_age_num_blocks", text("100000")),
                            ("max_age_duration", text("172800000000001")),
                            ("max_bytes", Json::Number(JsonNumber::PosInt(5))),
                        ]),
                    ),
                    (
                        "validator",
                        object(vec![(
                            "pub_key_types",
                            Json::Array(vec![text("ed25519"), Json::Null, text("secp256k1")]),
                        )]),
                    ),
                    ("version", object(vec![("app", text("7"))])),
                    ("synchrony", object(vec![("precision", text("-1500000000"))])),
                    ("feature", object(vec![("pbts_enable_height", text("3"))])),
                ]),
            )]),
        ),
        (
            "app_state",
            object(vec![
                (
                    "genutil",
                    object(vec![(
                        "gen_txs",
                        Json::Array(vec![object(vec![(
                            "body",
                            object(vec![(
                                "messages",
                                Json::Array(vec![object(vec![(
                                    "value",
                                    object(vec![("denom", text("inj"))]),
                                )])]),
                            )]),
                        )])]),
                    )]),
                ),
                (
                    "staking",
                    object(vec![("params", object(vec![("bond_denom", text("stake"))]))]),
                ),
            ]),
        ),
    ])
}

#[test]
fn genesis_becomes_an_init_chain_request() {
    let document = genesis_document();
    let request = genesis::build_init_chain_request(&document).unwrap();
    assert_eq!(request.time, Timestamp { seconds: 1_709_204_400, nanos: 250_000_000 });
    assert_eq!(request.chain_id, "chain-9");
    assert_eq!(request.initial_height, 5);
    let params = &request.consensus_params;
    assert_eq!(params.block.max_bytes, 22_020_096);
    assert_eq!(params.block.max_gas, -1);
    assert_eq!(params.block.max_txs, 0);
    assert_eq!(params.evidence.max_age_num_blocks, 100_000);
    assert_eq!(
        params.evidence.max_age_duration,
        Some(Duration { seconds: 172_800, nanos: 1 })
    );
    assert_eq!(params.evidence.max_bytes, 0);
    assert_eq!(params.pub_key_types, vec![String::from("ed25519"), String::from("secp256k1")]);
    assert_eq!(params.app_version, 7);
    assert_eq!(params.precision, Some(Duration { seconds: -1, nanos: -500_000_000 }));
    assert_eq!(params.message_delay, None);
    assert_eq!(params.pbts_enable_height, 3);
    let state = &request.app_state;
    assert_eq!(
        state.get("consensus").unwrap().get("params"),
        document.get("consensus").unwrap().get("params")
    );
    let bond = state.get("staking").unwrap().get("params").unwrap().get("bond_denom");
    assert_eq!(bond.unwrap().as_str(), Some("inj"));
}

#[test]
fn genesis_needs_a_time() {
    assert_eq!(
        genesis::build_init_chain_request(&Json::Null).err(),
        Some(CosmosTxPoolError::Transport(String::from("missing genesis_time")))
    );
    let document = object(vec![("genesis_time", text("yesterday"))]);
    let error = genesis::build_init_chain_request(&document).err().unwrap();
    assert!(matches!(
        error,
        CosmosTxPoolError::Transport(t) if t.starts_with("invalid genesis_time: ")
    ));
    let document = object(vec![("genesis_time", text("1970-01-01T00:00:00Z"))]);
    let request = genesis::build_init_chain_request(&document).unwrap();
    assert_eq!(request.time, Timestamp { seconds: 0, nanos: 0 });
    assert_eq!(request.initial_height, 1);
    assert_eq!(request.chain_id, "");
    assert_eq!(request.app_state, Json::Null);
    let given = genesis::init_chain_request_at(&document, Ok((9, 8))).unwrap();
    assert_eq!(given.time, Timestamp { seconds: 9, nanos: 8 });
    assert_eq!(
        genesis::parse_timestamp_rfc3339("1969-12-31T23:59:59.5Z"),
        Ok(Timestamp { seconds: -1, nanos: 500_000_000 })
    );
}

fn header() -> ProposedCosmosHeader {
    ProposedCosmosHeader {
        height: 12,
        max_tx_bytes: 1_000,
        time_ns: 5_000_000_007,
        local_last_commit: vec![],
        misbehavior: vec![],
        next_validators_hash: vec![1],
        proposer_address: vec![2],
    }
}

#[test]
fn requests_carry_header_and_transactions() {
    let time = Some(Timestamp { seconds: 5, nanos: 7 });
    let prepare = requests::prepare_request_from_header(&header(), vec![vec![9]]);
    assert_eq!(prepare.max_tx_bytes, 1_000);
    assert_eq!(prepare.txs, vec![vec![9]]);
    assert_eq!(prepare.height, 12);
    assert_eq!(prepare.time, time);
    let body = CosmosBlockBody::from_txs(vec![vec![1], vec![2, 3]]);
    let hasher = |bytes: &[u8]| bytes.to_vec();
    let process = requests::process_request_from_inputs(&header(), &body, &hasher);
    assert_eq!(process.hash, vec![1, 2, 3]);
    assert_eq!(process.txs, vec![vec![1], vec![2, 3]]);
    assert_eq!(process.time, time);
    assert_eq!(process.next_validators_hash, vec![1]);
    assert_eq!(process.proposer_address, vec![2]);
    let finalize = requests::finalize_request_from_inputs(&header(), &body, &hasher);
    assert_eq!(finalize.height, 12);
    assert_eq!(finalize.syncing_to_height, 12);
    assert_eq!(finalize.hash, vec![1, 2, 3]);
    let huge = ProposedCosmosHeader { height: u64::MAX, ..header() };
    assert_eq!(requests::prepare_request_from_header(&huge, vec![]).height, -1);
    let check = requests::check_tx_request(&[4, 5]);
    assert_eq!(check.tx, vec![4, 5]);
    assert_eq!(check.check_type, CheckTxType::Check);
    let _ = requests::info_request();
}

#[test]
fn execution_results_travel_as_queries() {
    let request = requests::execution_result_query(0x0102);
    assert_eq!(request.data, vec![0, 0, 0, 0, 0, 0, 1, 2]);
    assert_eq!(request.path, "monad/execution_result");
    let header = CosmosFinalizedHeader::bare(3, vec![1]);
    let found = QueryResponse { code: 0, log: String::new(), value: header.encode() };
    assert_eq!(requests::execution_result_from(3, &found), Ok(header));
    let refused = QueryResponse { code: 4, log: String::from("gone"), value: vec![] };
    assert_eq!(
        requests::execution_result_from(3, &refused).err().map(|e| e.message()),
        Some(String::from(
            "transport error: ABCI Query monad/execution_result height=3 code=4 log=gone"
        ))
    );
    let broken = QueryResponse { code: 0, log: String::new(), value: vec![0x80] };
    assert_eq!(
        requests::execution_result_from(3, &broken).err().map(|e| e.message()),
        Some(String::from("transport error: decode CosmosFinalizedHeader: unexpected string"))
    );
}

#[test]
fn handshakes_are_reported() {
    assert!(requests::needs_init_chain(&info(0, &[1])));
    assert!(requests::needs_init_chain(&info(5, &[])));
    assert!(!requests::needs_init_chain(&info(5, &[1])));
    let report = AbciGenesisDebugInfo::before_init_chain(&info(5, &[1, 2]));
    assert_eq!(report.info_last_block_app_hash_len, 2);
    assert!(!report.init_chain_sent);
    let response = InitChainResponse {
        has_consensus_params: true,
        validator_updates: 3,
        app_hash: vec![1],
    };
    let report = report.after_init_chain(&response);
    assert!(report.init_chain_sent && report.init_chain_has_consensus_params);
    assert_eq!(report.init_chain_validator_updates, 3);
    assert_eq!(report.info_last_block_height, 5);
    let first = AbciFirstBlockDebugInfo::finalize_request(Timestamp { seconds: 1, nanos: 2 });
    assert_eq!(first.height, 1);
    assert_eq!(first.syncing_to_height, 1);
    let commit = CommitResponse { encoded: vec![], retain_height: 9 };
    let report = AbciFirstBlockDebugInfo::from_responses(&finalize(), &commit);
    assert_eq!(report.finalize_app_hash_len, 2);
    assert_eq!(report.commit_retain_height, 9);
}
