use bytes::Bytes;
use monad_cosmos::txpool::forward;
use monad_cosmos::txpool::forward::{ForwardEgress, TxIdSet, COSMOS_FORWARD_EGRESS_MAX_BYTES};
use monad_cosmos::txpool::mempool;
use monad_cosmos::txpool::mempool::{IndexedCosmosMempool, DEFAULT_MAX_TXS};

#[test]
fn dedup_same_bytes() {
    let mut m = IndexedCosmosMempool::new(None);
    assert!(m.try_push(Bytes::from_static(b"tx1")));
    assert!(!m.try_push(Bytes::from_static(b"tx1")));
    assert_eq!(m.pending_len(), 1);
}

#[test]
fn drain_restore_roundtrip() {
    let mut m = IndexedCosmosMempool::new(None);
    m.try_push(Bytes::from_static(b"a"));
    m.try_push(Bytes::from_static(b"bb"));
    let (cand, taken) = m.drain_for_proposal(10, 10_000);
    assert_eq!(cand.len(), 2);
    assert!(m.pending_len() == 0);
    m.restore_taken_front(taken);
    assert_eq!(m.pending_len(), 2);
    let (cand2, _) = m.drain_for_proposal(10, 10_000);
    assert_eq!(cand2, cand);
}

#[test]
fn remove_by_raw() {
    let mut m = IndexedCosmosMempool::new(None);
    let raw = Bytes::from_static(b"committed");
    m.try_push(raw.clone());
    assert_eq!(m.pending_len(), 1);
    assert!(m.remove_by_raw(raw.as_ref()));
    assert_eq!(m.pending_len(), 0);
    assert!(!m.remove_by_raw(raw.as_ref()));
}

#[test]
fn bound_comes_from_the_setting() {
    assert_eq!(mempool::configured_max_txs(None), DEFAULT_MAX_TXS);
    assert_eq!(mempool::configured_max_txs(Some(" 12 ")), 12);
    assert_eq!(mempool::configured_max_txs(Some("0")), 0);
    assert_eq!(mempool::configured_max_txs(Some("many")), DEFAULT_MAX_TXS);
    assert_eq!(mempool::configured_max_txs(Some("-1")), DEFAULT_MAX_TXS);
    assert_eq!(mempool::configured_max_txs(Some("99999999999999999999999")), DEFAULT_MAX_TXS);
}

#[test]
fn full_pool_turns_transactions_away() {
    let mut m = IndexedCosmosMempool::with_max_txs(2);
    assert!(m.try_push(Bytes::from_static(b"a")));
    assert!(!m.is_full());
    assert!(m.try_push(Bytes::from_static(b"b")));
    assert!(m.is_full());
    assert!(!m.try_push(Bytes::from_static(b"c")));
    assert!(m.remove_by_raw(b"a"));
    assert!(m.try_push(Bytes::from_static(b"c")));
    assert_eq!(m.pending_len(), 2);
    assert_eq!(m.total_bytes(), 2);

    let mut unbounded = IndexedCosmosMempool::with_max_txs(0);
    for i in 0u32..200 {
        assert!(unbounded.try_push(Bytes::from(i.to_be_bytes().to_vec())));
        assert!(!unbounded.is_full());
    }
    assert_eq!(unbounded.total_bytes(), 800);
}

#[test]
fn empty_transactions_are_never_pending() {
    let mut m = IndexedCosmosMempool::with_max_txs(0);
    assert!(!m.try_push(Bytes::new()));
    assert_eq!(m.pending_len(), 0);
    assert!(!m.remove_by_raw(b""));
}

#[test]
fn drain_stops_at_either_limit() {
    let mut m = IndexedCosmosMempool::with_max_txs(0);
    for tx in [&b"aaaa"[..], b"bbbb", b"cc", b"d"] {
        m.try_push(Bytes::copy_from_slice(tx));
    }
    let (cand, taken) = m.drain_for_proposal(1, 100);
    assert_eq!(cand, vec![b"aaaa".to_vec()]);
    m.restore_taken_front(taken);
    let (cand, taken) = m.drain_for_proposal(10, 9);
    assert_eq!(cand, vec![b"aaaa".to_vec(), b"bbbb".to_vec()]);
    assert_eq!(m.pending_len(), 2);
    m.restore_taken_front(taken);
    let (all, _) = m.drain_for_proposal(10, 100);
    assert_eq!(all, vec![b"aaaa".to_vec(), b"bbbb".to_vec(), b"cc".to_vec(), b"d".to_vec()]);
}

#[test]
fn requeued_transactions_go_to_the_front_one_by_one() {
    let mut m = IndexedCosmosMempool::with_max_txs(0);
    m.try_push(Bytes::from_static(b"z"));
    m.requeue_front_raw_in_candidate_order(&vec![b"x".to_vec(), b"z".to_vec(), b"y".to_vec()]);
    let (cand, _) = m.drain_for_proposal(10, 100);
    assert_eq!(cand, vec![b"y".to_vec(), b"x".to_vec(), b"z".to_vec()]);
}

#[test]
fn purge_takes_committed_transactions_out() {
    let mut m = IndexedCosmosMempool::with_max_txs(0);
    for tx in [&b"a"[..], b"b", b"c"] {
        m.try_push(Bytes::copy_from_slice(tx));
    }
    m.purge(&vec![b"b".to_vec(), b"unknown".to_vec(), Vec::new(), b"a".to_vec()]);
    let (cand, _) = m.drain_for_proposal(10, 100);
    assert_eq!(cand, vec![b"c".to_vec()]);
}

#[test]
fn handle_is_the_sha256_of_the_bytes() {
    assert_eq!(
        hex::encode(mempool::cosmos_raw_tx_id(b"abc")),
        "ba7816bf8f01cfea414140de5dae2223b00361a396177a9cb410ff61f20015ad"
    );
}

#[test]
fn forward_batches_stay_below_the_limit() {
    let mut egress = ForwardEgress::new();
    assert!(egress.is_empty());
    let half = COSMOS_FORWARD_EGRESS_MAX_BYTES / 2;
    for fill in [1u8, 2, 3] {
        egress.push(Bytes::from(vec![fill; half]));
    }
    let (batch, more) = egress.drain_batch();
    assert_eq!(batch.len(), 2);
    assert!(more);
    let (batch, more) = egress.drain_batch();
    assert_eq!(batch, vec![Bytes::from(vec![3u8; half])]);
    assert!(!more);
    assert!(egress.is_empty());

    egress.push(Bytes::from(vec![9u8; COSMOS_FORWARD_EGRESS_MAX_BYTES + 1]));
    egress.push(Bytes::from_static(b"x"));
    let (batch, more) = egress.drain_batch();
    assert_eq!(batch.len(), 1);
    assert!(more);
}

#[test]
fn checked_batch_is_counted_and_forwarded() {
    let mut pool = IndexedCosmosMempool::with_max_txs(3);
    let mut seen = TxIdSet::new();
    seen.insert(mempool::cosmos_raw_tx_id(b"old"));
    assert!(seen.contains(&mempool::cosmos_raw_tx_id(b"old")));
    assert!(!seen.contains(&mempool::cosmos_raw_tx_id(b"new")));
    let mut egress = ForwardEgress::new();
    let txs = [&b"a"[..], b"a", b"old", b"b", b"c", b"d"];
    let txs: Vec<Bytes> = txs.iter().map(|t| Bytes::copy_from_slice(t)).collect();
    let counts = forward::apply_checked_batch(&mut pool, &seen, &mut egress, true, txs);
    assert_eq!(counts.accepted, 3);
    assert_eq!(counts.accepted + counts.duplicates + counts.rejected_full, 6);
    assert_eq!(pool.pending_len(), 3);
    let (batch, _) = egress.drain_batch();
    assert_eq!(
        batch,
        vec![Bytes::from_static(b"a"), Bytes::from_static(b"b"), Bytes::from_static(b"c")]
    );

    let mut quiet = ForwardEgress::new();
    let counts = forward::apply_checked_batch(
        &mut IndexedCosmosMempool::with_max_txs(0),
        &TxIdSet::new(),
        &mut quiet,
        false,
        vec![Bytes::from_static(b"q")],
    );
    assert_eq!(counts.accepted, 1);
    assert!(quiet.is_empty());
}

#[test]
fn only_admitted_transactions_are_kept() {
    let txs = vec![
        Bytes::from_static(b"a"),
        Bytes::from_static(b"b"),
        Bytes::from_static(b"c"),
        Bytes::from_static(b"d"),
    ];
    let kept = forward::keep_admitted(txs, &vec![Some(0), Some(5), None, Some(0)]);
    assert_eq!(kept, vec![Bytes::from_static(b"a"), Bytes::from_static(b"d")]);
}
