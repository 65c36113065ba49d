use monad_cosmos::ledger::{
    BlockRange, CosmosLedger, HeaderFetchStep, LedgerBlock, LedgerHeader, PayloadFetch,
    PersistAction, BLOCK_CACHE_SIZE,
};

fn id(n: u64) -> [u8; 32] {
    let mut id = [0u8; 32];
    id[24..].copy_from_slice(&n.to_be_bytes());
    id
}

fn body_id(n: u64) -> [u8; 32] {
    let mut id = id(n);
    id[0] = 1;
    id
}

fn block(n: u64) -> LedgerBlock {
    LedgerBlock {
        id: id(n),
        body_id: body_id(n),
        seq_num: n,
        round: n,
        header: LedgerHeader { parent_id: id(n - 1), encoded: n.to_be_bytes().to_vec() },
        body: vec![n as u8],
    }
}

#[test]
fn commands_say_what_to_persist() {
    let mut ledger = CosmosLedger::new();
    assert_eq!(ledger.last_commit(), None);
    assert_eq!(
        ledger.proposed(&block(5), true),
        vec![
            PersistAction::WriteBody,
            PersistAction::WriteHeader,
            PersistAction::UpdateProposedHead(id(5)),
        ]
    );
    assert_eq!(
        ledger.proposed(&block(6), false),
        vec![PersistAction::WriteBody, PersistAction::WriteHeader]
    );
    assert_eq!(ledger.voted(&block(6)), PersistAction::UpdateVotedHead(id(6)));
    assert_eq!(ledger.finalized(&block(5)), PersistAction::UpdateFinalizedHead(id(5)));
    assert_eq!(ledger.last_commit(), Some(5));
}

#[test]
fn headers_are_walked_through_parents() {
    let mut ledger = CosmosLedger::new();
    for n in 3..=6 {
        ledger.update_cache(&block(n));
    }
    let (_, step) = ledger.fetch_headers(BlockRange { last_block_id: id(6), num_blocks: 3 }, 10);
    match step {
        HeaderFetchStep::Found(headers) => {
            let encoded: Vec<Vec<u8>> = headers.into_iter().map(|h| h.encoded).collect();
            assert_eq!(encoded, vec![block(4), block(5), block(6)].into_iter().map(|b| b.header.encoded).collect::<Vec<_>>());
        }
        _ => panic!("all headers are cached"),
    }
    let range = BlockRange { last_block_id: id(4), num_blocks: 3 };
    let (mut fetch, step) = ledger.fetch_headers(range, 10);
    assert!(matches!(step, HeaderFetchStep::ReadDisk(missing) if missing == id(2)));
    let step = ledger.fetch_headers_read(&mut fetch, Some(block(2).header));
    assert!(matches!(step, HeaderFetchStep::Found(headers) if headers.len() == 3 && headers[0].parent_id == id(1)));
    let (mut fetch, _) = ledger.fetch_headers(range, 10);
    assert!(matches!(ledger.fetch_headers_read(&mut fetch, None), HeaderFetchStep::NotAvailable));
    let (_, step) = ledger.fetch_headers(range, 2);
    assert!(matches!(step, HeaderFetchStep::NotAvailable));
    let (_, step) = ledger.fetch_headers(BlockRange { last_block_id: id(9), num_blocks: 0 }, 2);
    assert!(matches!(step, HeaderFetchStep::Found(headers) if headers.is_empty()));
}

#[test]
fn bodies_are_found_in_the_cache_or_on_disk() {
    let mut ledger = CosmosLedger::new();
    ledger.update_cache(&block(3));
    assert!(matches!(ledger.ledger_fetch_payload(body_id(3)), PayloadFetch::Found(b) if b == vec![3]));
    assert!(matches!(ledger.ledger_fetch_payload(body_id(4)), PayloadFetch::ReadDisk(m) if m == body_id(4)));
}

#[test]
fn a_block_of_the_same_round_takes_the_place() {
    let mut ledger = CosmosLedger::new();
    ledger.update_cache(&block(3));
    let mut other = block(4);
    other.round = 3;
    ledger.update_cache(&other);
    assert!(matches!(ledger.ledger_fetch_payload(body_id(3)), PayloadFetch::ReadDisk(_)));
    assert!(matches!(ledger.ledger_fetch_payload(body_id(4)), PayloadFetch::Found(_)));
}

#[test]
fn the_cache_drops_the_first_round() {
    let mut ledger = CosmosLedger::new();
    for n in 1..=BLOCK_CACHE_SIZE as u64 {
        assert!(!ledger.is_cache_hydrated());
        ledger.update_cache(&block(n));
    }
    assert!(ledger.is_cache_hydrated());
    assert!(matches!(ledger.ledger_fetch_payload(body_id(1)), PayloadFetch::Found(_)));
    ledger.update_cache(&block(BLOCK_CACHE_SIZE as u64 + 1));
    assert!(ledger.is_cache_hydrated());
    assert!(matches!(ledger.ledger_fetch_payload(body_id(1)), PayloadFetch::NotAvailable));
    assert!(matches!(ledger.ledger_fetch_payload(body_id(2)), PayloadFetch::Found(_)));
    let (_, step) = ledger.fetch_headers(BlockRange { last_block_id: id(1), num_blocks: 1 }, 10);
    assert!(matches!(step, HeaderFetchStep::NotAvailable));
}
