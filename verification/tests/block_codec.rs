use monad_cosmos::cosmos_types::{
    CosmosBlockBody, ProposedCosmosHeader, MAX_COSMOS_MISBEHAVIOR, MAX_COSMOS_TXS_PER_BLOCK,
};
use monad_cosmos::rlp::RlpError;

fn header(misbehavior: Vec<Vec<u8>>) -> ProposedCosmosHeader {
    ProposedCosmosHeader {
        height: 7,
        max_tx_bytes: 1_000,
        time_ns: u128::MAX,
        local_last_commit: vec![0, 1, 0x80],
        misbehavior,
        next_validators_hash: vec![],
        proposer_address: vec![9; 60],
    }
}

/// The list of some items.
fn list(items: &[Vec<u8>]) -> Vec<u8> {
    let payload: Vec<u8> = items.concat();
    let mut out = vec![];
    alloy_rlp::Header { list: true, payload_length: payload.len() }.encode(&mut out);
    out.extend(payload);
    out
}

#[test]
fn headers_come_back_from_their_encoding() {
    for misbehavior in [vec![], vec![vec![], vec![1, 2]], vec![vec![5]; MAX_COSMOS_MISBEHAVIOR]] {
        let h = header(misbehavior);
        let bytes = h.encode();
        assert_eq!(
            bytes,
            list(&[
                alloy_rlp::encode(h.height),
                alloy_rlp::encode(h.max_tx_bytes),
                alloy_rlp::encode(h.time_ns),
                alloy_rlp::encode(&h.local_last_commit),
                alloy_rlp::encode(&h.misbehavior),
                alloy_rlp::encode(&h.next_validators_hash),
                alloy_rlp::encode(&h.proposer_address),
            ])
        );
        assert_eq!(ProposedCosmosHeader::decode_exact(&bytes), Ok(h));
    }
}

#[test]
fn headers_respect_their_bound() {
    let bytes = header(vec![vec![5]; MAX_COSMOS_MISBEHAVIOR + 1]).encode();
    assert_eq!(
        ProposedCosmosHeader::decode_exact(&bytes),
        Err(RlpError::Custom("list exceeds its limit"))
    );
}

#[test]
fn headers_fill_their_bytes() {
    let mut bytes = header(vec![]).encode();
    bytes.push(0x80);
    assert_eq!(ProposedCosmosHeader::decode_exact(&bytes), Err(RlpError::UnexpectedLength));
    assert_eq!(ProposedCosmosHeader::decode_exact(&[0x80]), Err(RlpError::UnexpectedString));
    assert!(matches!(ProposedCosmosHeader::decode_exact(&[]), Err(RlpError::Codec(_))));
    let wide = [0x91; 18];
    let fields = [vec![7], vec![7], wide.to_vec()];
    assert!(matches!(ProposedCosmosHeader::decode_exact(&list(&fields)), Err(RlpError::Codec(_))));
}

#[test]
fn bodies_come_back_from_their_encoding() {
    for txs in [vec![], vec![vec![]], vec![b"one".to_vec(), vec![0xff; 70]]] {
        let body = CosmosBlockBody::from_txs(txs.clone());
        let bytes = body.encode();
        assert_eq!(bytes, list(&[alloy_rlp::encode(&txs)]));
        assert_eq!(CosmosBlockBody::decode_exact(&bytes), Ok(body));
    }
    assert_eq!(CosmosBlockBody::from_txs(vec![]).encode(), vec![0xc1, 0xc0]);
}

#[test]
fn bodies_respect_their_bound() {
    let full = vec![vec![1u8]; MAX_COSMOS_TXS_PER_BLOCK];
    let bytes = list(&[alloy_rlp::encode(&full)]);
    assert_eq!(CosmosBlockBody::decode_exact(&bytes).unwrap().txs().len(), full.len());
    let over = vec![vec![1u8]; MAX_COSMOS_TXS_PER_BLOCK + 1];
    let bytes = list(&[alloy_rlp::encode(&over)]);
    assert_eq!(
        CosmosBlockBody::decode_exact(&bytes),
        Err(RlpError::Custom("list exceeds its limit"))
    );
    assert_eq!(
        CosmosBlockBody::decode_exact(&[0xc2, 0xc0, 0xc0]),
        Err(RlpError::ListLengthMismatch { expected: 2, got: 1 })
    );
}
