use monad_cosmos::abci::error::CosmosTxPoolError;
use monad_cosmos::abci::messages::{
    CommitResponse, FinalizeBlockResponse, InfoResponse, InitChainResponse,
};
use monad_cosmos::commit_store;
use monad_cosmos::commit_store::{CosmosCommitStore, GenesisAction, StoredFile, SyncAction};
use monad_cosmos::cosmos_types;
use monad_cosmos::cosmos_types::{CosmosBlockBody, CosmosFinalizedHeader};
use monad_cosmos::integration::policy::CosmosStateBackend;
use monad_cosmos::json::Json;
use monad_cosmos::rlp::RlpError;

fn commit(disk: &mut Vec<StoredFile>, store: &mut CosmosCommitStore, header: CosmosFinalizedHeader) {
    disk.push(CosmosCommitStore::file_for(&header));
    store.commit(header, Ok(())).unwrap();
}

fn full_header(height: u64) -> CosmosFinalizedHeader {
    CosmosFinalizedHeader {
        height,
        app_hash: vec![1, 2, 3],
        tx_results_hash: vec![4],
        validator_updates_hash: vec![5],
        finalize_block_response: vec![6],
        commit_response: vec![7],
        retain_height: height,
    }
}

#[test]
fn commit_store_roundtrip() {
    let mut disk = Vec::new();
    let mut store = CosmosCommitStore::new(&disk).unwrap();
    let header = CosmosFinalizedHeader {
        height: 7,
        app_hash: vec![1, 2, 3],
        tx_results_hash: vec![4],
        validator_updates_hash: vec![5],
        finalize_block_response: vec![6],
        commit_response: vec![7],
        retain_height: 7,
    };
    commit(&mut disk, &mut store, header.clone());

    let reopened = CosmosCommitStore::new(&disk).unwrap();
    assert_eq!(reopened.get(7), Some(&header));
    assert_eq!(reopened.latest(), Some(7));
    assert_eq!(reopened.earliest(), Some(7));
}

#[test]
fn state_backend_reads_persisted_commit() {
    let mut disk = Vec::new();
    let mut store = CosmosCommitStore::new(&disk).unwrap();
    commit(
        &mut disk,
        &mut store,
        CosmosFinalizedHeader {
            height: 9,
            app_hash: vec![9],
            tx_results_hash: vec![],
            validator_updates_hash: vec![],
            finalize_block_response: vec![],
            commit_response: vec![],
            retain_height: 9,
        },
    );

    let backend = CosmosStateBackend::new(store);
    let result = backend.get_execution_result(9, true).unwrap();
    assert_eq!(result.height, 9);
    assert_eq!(backend.raw_read_latest_finalized_block(), Some(9));
}

#[test]
fn files_are_named_by_height() {
    let file = CosmosCommitStore::file_for(&full_header(42));
    assert_eq!(file.name, "42.rlp");
    assert_eq!(file.bytes, full_header(42).encode());
    assert_eq!(commit_store::height_of_file("42.rlp"), Some(42));
    assert_eq!(commit_store::height_of_file("+7.rlp"), Some(7));
    assert_eq!(commit_store::height_of_file("x.rlp"), None);
    assert_eq!(commit_store::height_of_file("42.tmp"), None);
    assert_eq!(commit_store::height_of_file(".rlp"), None);
    assert_eq!(commit_store::height_of_file("rlp"), None);
}

#[test]
fn store_keeps_its_ends() {
    let mut disk = Vec::new();
    let mut store = CosmosCommitStore::empty();
    assert!(store.is_empty());
    assert_eq!(store.latest_or_genesis(), 0);
    for height in [5u64, 3, 8] {
        commit(&mut disk, &mut store, full_header(height));
    }
    assert!(!store.is_empty());
    assert_eq!(store.earliest(), Some(3));
    assert_eq!(store.latest(), Some(8));
    assert_eq!(store.latest_or_genesis(), 8);
    disk.push(StoredFile { name: String::from("notes.txt"), bytes: vec![0xff] });
    let reopened = CosmosCommitStore::new(&disk).unwrap();
    assert_eq!(reopened.earliest(), Some(3));
    assert_eq!(reopened.latest(), Some(8));
    assert_eq!(reopened.get(4), None);
}

#[test]
fn failed_write_leaves_the_store_alone() {
    let mut store = CosmosCommitStore::empty();
    assert_eq!(
        store.commit(full_header(1), Err(String::from("disk full"))),
        Err(String::from("disk full"))
    );
    assert!(store.is_empty());
}

#[test]
fn broken_file_stops_the_opening() {
    let files = vec![StoredFile { name: String::from("1.rlp"), bytes: vec![0x80] }];
    assert_eq!(CosmosCommitStore::new(&files).err(), Some(RlpError::UnexpectedString));
    let mut bytes = full_header(1).encode();
    bytes.push(0);
    let files = vec![StoredFile { name: String::from("1.rlp"), bytes }];
    let error = CosmosCommitStore::new(&files).err().unwrap();
    assert_eq!(error, RlpError::UnexpectedLength);
    assert_eq!(error.message(), "unexpected length");
}

#[test]
fn header_encodes_byte_vectors_as_lists_of_integers() {
    let header = CosmosFinalizedHeader {
        height: 1,
        app_hash: vec![0, 1, 200],
        tx_results_hash: vec![],
        validator_updates_hash: vec![],
        finalize_block_response: vec![],
        commit_response: vec![],
        retain_height: 0,
    };
    let bytes = header.encode();
    assert_eq!(hex::encode(&bytes), "cb01c4800181c8c0c0c0c080");
    assert_eq!(CosmosFinalizedHeader::decode_exact(&bytes), Ok(header));
    assert_eq!(
        CosmosFinalizedHeader::decode_exact(&[0xc0]).err().map(|e| e.message()),
        Some(String::from("input too short"))
    );
    assert_eq!(
        CosmosFinalizedHeader::decode_exact(&[0xc6, 1, 0xc0, 0xc0, 0xc0, 0xc0, 0xc0, 0x80])
            .err()
            .map(|e| e.message()),
        Some(String::from("unexpected list length (got 7, expected 6)"))
    );
}

#[test]
fn header_digests_results_and_updates() {
    let finalize = FinalizeBlockResponse {
        encoded: vec![1, 2],
        tx_results: vec![b"a".to_vec(), b"bc".to_vec()],
        validator_updates: vec![],
        app_hash: vec![9, 9],
    };
    let commit = CommitResponse { encoded: vec![3], retain_height: 12 };
    let header = CosmosFinalizedHeader::from_abci_responses(5, &finalize, &commit);
    assert_eq!(header.height, 5);
    assert_eq!(header.app_hash, vec![9, 9]);
    assert_eq!(
        hex::encode(&header.tx_results_hash),
        "ba7816bf8f01cfea414140de5dae2223b00361a396177a9cb410ff61f20015ad"
    );
    assert_eq!(
        hex::encode(&header.validator_updates_hash),
        "e3b0c44298fc1c149afbf4c8996fb92427ae41e4649b934ca495991b7852b855"
    );
    assert_eq!(header.finalize_block_response, vec![1, 2]);
    assert_eq!(header.commit_response, vec![3]);
    assert_eq!(header.retain_height, 12);
    assert_eq!(header.seq_num(), 5);
    assert_eq!(
        cosmos_types::hash_messages(&vec![b"abc".to_vec()]),
        header.tx_results_hash
    );
    let bare = CosmosFinalizedHeader::bare(3, vec![7]);
    assert_eq!(bare.height, 3);
    assert_eq!(bare.app_hash, vec![7]);
    assert!(bare.tx_results_hash.is_empty() && bare.retain_height == 0);
}

#[test]
fn body_beyond_the_limit_is_empty() {
    let body = CosmosBlockBody::from_txs(vec![vec![1], vec![2]]);
    assert_eq!(body.txs(), &vec![vec![1], vec![2]]);
    assert_eq!(body.duplicate().txs().len(), 2);
    let many = CosmosBlockBody::from_txs(vec![vec![1]; cosmos_types::MAX_COSMOS_TXS_PER_BLOCK]);
    assert_eq!(many.txs().len(), cosmos_types::MAX_COSMOS_TXS_PER_BLOCK);
    let more = CosmosBlockBody::from_txs(vec![vec![1]; cosmos_types::MAX_COSMOS_TXS_PER_BLOCK + 1]);
    assert!(more.txs().is_empty());
}

fn info(height: i64, hash: &[u8]) -> InfoResponse {
    InfoResponse { app_version: 0, last_block_height: height, last_block_app_hash: hash.to_vec() }
}

#[test]
fn genesis_header_comes_from_the_application() {
    let store = CosmosCommitStore::empty();
    assert!(matches!(
        store.genesis_start(false),
        GenesisAction::Commit(h) if h == CosmosFinalizedHeader::bare(0, vec![])
    ));
    assert!(matches!(store.genesis_start(true), GenesisAction::AskInfo));
    let document = Json::Object(vec![(
        String::from("genesis_time"),
        Json::Text(String::from("2024-01-01T00:00:00Z")),
    )]);
    assert!(matches!(
        CosmosCommitStore::genesis_informed(&document, info(3, &[5])),
        Ok(GenesisAction::Commit(h)) if h == CosmosFinalizedHeader::bare(0, vec![5])
    ));
    assert!(matches!(
        CosmosCommitStore::genesis_informed(&document, info(0, &[5])),
        Ok(GenesisAction::InitChain(request)) if request.time.seconds == 1_704_067_200
    ));
    assert!(matches!(
        CosmosCommitStore::genesis_informed(&Json::Null, info(0, &[])),
        Err(CosmosTxPoolError::Transport(t)) if t == "missing genesis_time"
    ));
    let response = InitChainResponse {
        has_consensus_params: true,
        validator_updates: 0,
        app_hash: vec![8],
    };
    assert!(matches!(
        CosmosCommitStore::genesis_initialised(response),
        GenesisAction::Commit(h) if h == CosmosFinalizedHeader::bare(0, vec![8])
    ));
    let mut filled = CosmosCommitStore::empty();
    filled.commit(full_header(1), Ok(())).unwrap();
    assert!(matches!(filled.genesis_start(true), GenesisAction::Done));
}

#[test]
fn store_catches_up_by_one_block_only() {
    let mut store = CosmosCommitStore::empty();
    store.commit(full_header(4), Ok(())).unwrap();
    assert!(matches!(store.sync_step(&info(4, &[1])), SyncAction::InSync));
    assert!(matches!(store.sync_step(&info(-2, &[1])), SyncAction::InSync));
    assert!(matches!(
        store.sync_step(&info(6, &[1])),
        SyncAction::TooFarAhead(CosmosTxPoolError::Transport(t))
            if t.starts_with("ABCI last_block_height=6 is ahead of local cosmos-commits latest=4 by")
    ));
    match store.sync_step(&info(5, &[1])) {
        SyncAction::Append(h) => {
            assert_eq!(h, CosmosFinalizedHeader::bare(5, vec![1]));
            store.commit(h, Ok(())).unwrap();
        }
        _ => panic!("one block behind"),
    }
    assert!(matches!(store.sync_step(&info(5, &[1])), SyncAction::InSync));
    assert_eq!(store.latest(), Some(5));
}
