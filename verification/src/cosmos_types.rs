//! Blocks and headers of the Cosmos execution protocol.
use vstd::prelude::*;

use crate::abci::messages::{CommitResponse, FinalizeBlockResponse};
use crate::rlp;
use crate::rlp::{RlpError, RlpErrorView};
use crate::rlp_codec;

verus! {

/// Most transactions that a block body holds.
pub const MAX_COSMOS_TXS_PER_BLOCK: usize = 10_000;

/// Most misbehavior records that a header holds.
pub const MAX_COSMOS_MISBEHAVIOR: usize = 128;

/// The execution protocol of Cosmos blocks.
#[derive(Clone, Copy, Debug, PartialEq, Eq, Structural)]
pub struct CosmosExecutionProtocol;

/// The header of a proposed block.
#[derive(Clone, Debug, PartialEq, Eq)]
pub struct ProposedCosmosHeader {
    pub height: u64,
    pub max_tx_bytes: u64,
    pub time_ns: u128,
    pub local_last_commit: Vec<u8>,
    pub misbehavior: Vec<Vec<u8>>,
    pub next_validators_hash: Vec<u8>,
    pub proposer_address: Vec<u8>,
}

/// The bytes of some transactions.
pub open spec fn tx_views(txs: Seq<Vec<u8>>) -> Seq<Seq<u8>> {
    Seq::new(txs.len(), |i: int| txs[i]@)
}

/// All transactions, one behind the other.
pub open spec fn concat_all(txs: Seq<Seq<u8>>) -> Seq<u8>
    decreases txs.len(),
{
    if txs.len() == 0 {
        Seq::empty()
    } else {
        concat_all(txs.drop_last()) + txs.last()
    }
}

/// A copy of some bytes.
pub fn copy_bytes(bytes: &Vec<u8>) -> (out: Vec<u8>)
    ensures
        out@ == bytes@,
{
    let out: Vec<u8> = bytes.clone();
    assert(out@ =~= bytes@);
    out
}

/// A copy of some transactions.
pub fn copy_txs(txs: &Vec<Vec<u8>>) -> (out: Vec<Vec<u8>>)
    ensures
        tx_views(out@) == tx_views(txs@),
        out@.len() == txs@.len(),
{
    let mut out: Vec<Vec<u8>> = Vec::new();
    let mut i: usize = 0;
    while i < txs.len()
        invariant
            i <= txs@.len(),
            out@.len() == i,
            forall|j: int| 0 <= j < i ==> (#[trigger] out@[j])@ == txs@[j]@,
        decreases txs@.len() - i,
    {
        out.push(copy_bytes(&txs[i]));
        i = i + 1;
    }
    assert(tx_views(out@) =~= tx_views(txs@));
    out
}

/// Puts messages one behind the other.
pub fn concatenate(parts: &Vec<Vec<u8>>) -> (out: Vec<u8>)
    ensures
        out@ == concat_all(tx_views(parts@)),
{
    let mut out: Vec<u8> = Vec::new();
    let mut i: usize = 0;
    let ghost views = tx_views(parts@);
    assert(views.take(0) =~= Seq::<Seq<u8>>::empty());
    while i < parts.len()
        invariant
            i <= parts@.len(),
            views == tx_views(parts@),
            out@ == concat_all(views.take(i as int)),
        decreases parts@.len() - i,
    {
        let mut part: Vec<u8> = copy_bytes(&parts[i]);
        out.append(&mut part);
        assert(views.take(i + 1).drop_last() =~= views.take(i as int));
        i = i + 1;
    }
    assert(views.take(i as int) =~= views);
    out
}

/// The transactions of a block.
#[derive(Clone, Debug, PartialEq, Eq)]
pub struct CosmosBlockBody {
    txs: Vec<Vec<u8>>,
}

impl CosmosBlockBody {
    /// The transactions as bytes.
    pub closed spec fn view(self) -> Seq<Seq<u8>> {
        tx_views(self.txs@)
    }

    /// A body holds a bounded number of transactions.
    pub closed spec fn wf(self) -> bool {
        self.txs@.len() <= MAX_COSMOS_TXS_PER_BLOCK
    }

    /// A body with these transactions, or an empty one where there are too many.
    pub fn from_txs(txs: Vec<Vec<u8>>) -> (body: Self)
        ensures
            body.wf(),
            body@ == if txs@.len() <= MAX_COSMOS_TXS_PER_BLOCK {
                tx_views(txs@)
            } else {
                Seq::<Seq<u8>>::empty()
            },
    {
        if txs.len() <= MAX_COSMOS_TXS_PER_BLOCK {
            CosmosBlockBody { txs }
        } else {
            let body = CosmosBlockBody { txs: Vec::new() };
            assert(body@ =~= Seq::<Seq<u8>>::empty());
            body
        }
    }

    /// The transactions.
    pub fn txs(&self) -> (txs: &Vec<Vec<u8>>)
        ensures
            tx_views(txs@) == self@,
    {
        &self.txs
    }

    /// A copy of the body.
    pub fn duplicate(&self) -> (body: Self)
        ensures
            body@ == self@,
            self.wf() ==> body.wf(),
    {
        CosmosBlockBody { txs: copy_txs(&self.txs) }
    }
}

/// The outcome of a block that the application executed and committed.
#[derive(Clone, Debug, PartialEq, Eq)]
pub struct CosmosFinalizedHeader {
    pub height: u64,
    pub app_hash: Vec<u8>,
    pub tx_results_hash: Vec<u8>,
    pub validator_updates_hash: Vec<u8>,
    pub finalize_block_response: Vec<u8>,
    pub commit_response: Vec<u8>,
    pub retain_height: u64,
}

/// What a [`CosmosFinalizedHeader`] says.
#[verifier::ext_equal]
pub struct FinalizedHeaderView {
    pub height: u64,
    pub app_hash: Seq<u8>,
    pub tx_results_hash: Seq<u8>,
    pub validator_updates_hash: Seq<u8>,
    pub finalize_block_response: Seq<u8>,
    pub commit_response: Seq<u8>,
    pub retain_height: u64,
}

impl View for CosmosFinalizedHeader {
    type V = FinalizedHeaderView;

    open spec fn view(&self) -> FinalizedHeaderView {
        FinalizedHeaderView {
            height: self.height,
            app_hash: self.app_hash@,
            tx_results_hash: self.tx_results_hash@,
            validator_updates_hash: self.validator_updates_hash@,
            finalize_block_response: self.finalize_block_response@,
            commit_response: self.commit_response@,
            retain_height: self.retain_height,
        }
    }
}

/// The SHA-256 digest of some bytes.
pub uninterp spec fn sha256(bytes: Seq<u8>) -> Seq<u8>;

/// `sha2::Sha256::digest`: thirty-two bytes that depend on the input alone.
#[verifier::external_body]
pub(crate) fn sha256_digest(bytes: &[u8]) -> (out: [u8; 32])
    ensures
        out@ == sha256(bytes@),
{
    <sha2::Sha256 as sha2::Digest>::digest(bytes).into()
}

/// The digest of messages that are hashed one after the other.
pub fn hash_messages(messages: &Vec<Vec<u8>>) -> (out: Vec<u8>)
    ensures
        out@ == sha256(concat_all(tx_views(messages@))),
{
    let digest: [u8; 32] = sha256_digest(concatenate(messages).as_slice());
    vstd::slice::slice_to_vec(vstd::array::array_as_slice(&digest))
}

/// The header of a height whose application hash is all that is known: the
/// genesis state, or a height that the application committed on its own.
pub open spec fn bare_header(height: u64, app_hash: Seq<u8>) -> FinalizedHeaderView {
    FinalizedHeaderView {
        height,
        app_hash,
        tx_results_hash: Seq::empty(),
        validator_updates_hash: Seq::empty(),
        finalize_block_response: Seq::empty(),
        commit_response: Seq::empty(),
        retain_height: 0,
    }
}

/// The header of a block from what the application answered. The results and
/// the validator updates are hashed in their encoded form, one behind the
/// other; a negative retain height counts as zero.
pub open spec fn executed_header(
    height: u64,
    finalize_block: FinalizeBlockResponse,
    commit: CommitResponse,
) -> FinalizedHeaderView {
    FinalizedHeaderView {
        height,
        app_hash: finalize_block.app_hash@,
        tx_results_hash: sha256(concat_all(tx_views(finalize_block.tx_results@))),
        validator_updates_hash: sha256(concat_all(tx_views(finalize_block.validator_updates@))),
        finalize_block_response: finalize_block.encoded@,
        commit_response: commit.encoded@,
        retain_height: if commit.retain_height < 0 {
            0
        } else {
            commit.retain_height as u64
        },
    }
}

impl FinalizedHeaderView {
    /// The fields of the header, encoded one after the other.
    pub open spec fn rlp_payload(self) -> Seq<u8> {
        rlp::rlp_uint(self.height as nat) + rlp::rlp_byte_list(self.app_hash) + rlp::rlp_byte_list(
            self.tx_results_hash,
        ) + rlp::rlp_byte_list(self.validator_updates_hash) + rlp::rlp_byte_list(
            self.finalize_block_response,
        ) + rlp::rlp_byte_list(self.commit_response) + rlp::rlp_uint(self.retain_height as nat)
    }

    /// The encoded header.
    pub open spec fn rlp(self) -> Seq<u8> {
        rlp::rlp_list(self.rlp_payload())
    }

    /// Whether the encoded header fits in memory.
    pub open spec fn fits(self) -> bool {
        self.rlp_payload().len() <= usize::MAX
    }
}

impl CosmosFinalizedHeader {
    /// The header of a height of which only the application hash is known.
    pub fn bare(height: u64, app_hash: Vec<u8>) -> (header: Self)
        ensures
            header@ == bare_header(height, app_hash@),
    {
        let header = CosmosFinalizedHeader {
            height,
            app_hash,
            tx_results_hash: Vec::new(),
            validator_updates_hash: Vec::new(),
            finalize_block_response: Vec::new(),
            commit_response: Vec::new(),
            retain_height: 0,
        };
        assert(header@ =~= bare_header(height, app_hash@));
        header
    }

    /// The sequence number of the block that the header belongs to.
    pub fn seq_num(&self) -> (n: u64)
        ensures
            n == self@.height,
    {
        self.height
    }

    /// A copy of the header.
    pub fn duplicate(&self) -> (header: Self)
        ensures
            header@ == self@,
    {
        CosmosFinalizedHeader {
            height: self.height,
            app_hash: copy_bytes(&self.app_hash),
            tx_results_hash: copy_bytes(&self.tx_results_hash),
            validator_updates_hash: copy_bytes(&self.validator_updates_hash),
            finalize_block_response: copy_bytes(&self.finalize_block_response),
            commit_response: copy_bytes(&self.commit_response),
            retain_height: self.retain_height,
        }
    }

    /// The header of a block from what the application answered.
    pub fn from_abci_responses(
        height: u64,
        finalize_block: &FinalizeBlockResponse,
        commit: &CommitResponse,
    ) -> (header: Self)
        ensures
            header@ == executed_header(height, *finalize_block, *commit),
    {
        CosmosFinalizedHeader {
            height,
            app_hash: copy_bytes(&finalize_block.app_hash),
            tx_results_hash: hash_messages(&finalize_block.tx_results),
            validator_updates_hash: hash_messages(&finalize_block.validator_updates),
            finalize_block_response: copy_bytes(&finalize_block.encoded),
            commit_response: copy_bytes(&commit.encoded),
            retain_height: if commit.retain_height < 0 {
                0
            } else {
                commit.retain_height as u64
            },
        }
    }
}

/// What a decoder makes of the fields of a header.
pub open spec fn parse_header_fields(bytes: Seq<u8>) -> Result<
    (FinalizedHeaderView, Seq<u8>),
    RlpErrorView,
> {
    match rlp_codec::parse_u64(bytes) {
        Err(e) => Err(e),
        Ok((height, r1)) => match rlp_codec::parse_byte_list(r1) {
            Err(e) => Err(e),
            Ok((app_hash, r2)) => match rlp_codec::parse_byte_list(r2) {
                Err(e) => Err(e),
                Ok((tx_results_hash, r3)) => match rlp_codec::parse_byte_list(r3) {
                    Err(e) => Err(e),
                    Ok((validator_updates_hash, r4)) => match rlp_codec::parse_byte_list(r4) {
                        Err(e) => Err(e),
                        Ok((finalize_block_response, r5)) => match rlp_codec::parse_byte_list(r5) {
                            Err(e) => Err(e),
                            Ok((commit_response, r6)) => match rlp_codec::parse_u64(r6) {
                                Err(e) => Err(e),
                                Ok((retain_height, rest)) => Ok(
                                    (
                                        FinalizedHeaderView {
                                            height,
                                            app_hash,
                                            tx_results_hash,
                                            validator_updates_hash,
                                            finalize_block_response,
                                            commit_response,
                                            retain_height,
                                        },
                                        rest,
                                    ),
                                ),
                            },
                        },
                    },
                },
            },
        },
    }
}

/// What a decoder of a whole header makes of `bytes`: one list, filled by the
/// fields, with nothing behind it.
pub open spec fn parse_finalized_header(bytes: Seq<u8>) -> Result<
    FinalizedHeaderView,
    RlpErrorView,
> {
    match rlp_codec::parse_list_header(bytes) {
        Err(e) => Err(e),
        Ok((n, fields)) => match parse_header_fields(fields) {
            Err(e) => Err(e),
            Ok((header, rest)) => if fields.len() - rest.len() != n {
                Err(
                    RlpErrorView::ListLengthMismatch {
                        expected: n,
                        got: (fields.len() - rest.len()) as usize,
                    },
                )
            } else if rest.len() != 0 {
                Err(RlpErrorView::UnexpectedLength)
            } else {
                Ok(header)
            },
        },
    }
}

/// An encoded byte vector is longer than its items.
proof fn lemma_byte_list_len(s: Seq<u8>)
    ensures
        rlp::rlp_byte_list(s).len() > rlp::rlp_uint_items(s).len(),
{
}

proof fn lemma_parse_header_fields(h: FinalizedHeaderView, rest: Seq<u8>)
    requires
        h.fits(),
    ensures
        parse_header_fields(h.rlp_payload() + rest) == Ok::<
            (FinalizedHeaderView, Seq<u8>),
            RlpErrorView,
        >((h, rest)),
{
    let f0 = rlp::rlp_uint(h.height as nat);
    let f1 = rlp::rlp_byte_list(h.app_hash);
    let f2 = rlp::rlp_byte_list(h.tx_results_hash);
    let f3 = rlp::rlp_byte_list(h.validator_updates_hash);
    let f4 = rlp::rlp_byte_list(h.finalize_block_response);
    let f5 = rlp::rlp_byte_list(h.commit_response);
    let f6 = rlp::rlp_uint(h.retain_height as nat);
    let r6 = f6 + rest;
    let r5 = f5 + r6;
    let r4 = f4 + r5;
    let r3 = f3 + r4;
    let r2 = f2 + r3;
    let r1 = f1 + r2;
    lemma_assoc(f0 + f1 + f2 + f3 + f4 + f5, f6, rest);
    lemma_assoc(f0 + f1 + f2 + f3 + f4, f5, r6);
    lemma_assoc(f0 + f1 + f2 + f3, f4, r5);
    lemma_assoc(f0 + f1 + f2, f3, r4);
    lemma_assoc(f0 + f1, f2, r3);
    lemma_assoc(f0, f1, r2);
    lemma_byte_list_len(h.app_hash);
    lemma_byte_list_len(h.tx_results_hash);
    lemma_byte_list_len(h.validator_updates_hash);
    lemma_byte_list_len(h.finalize_block_response);
    lemma_byte_list_len(h.commit_response);
    rlp_codec::lemma_parse_u64(h.height, r1);
    rlp_codec::lemma_parse_byte_list(h.app_hash, r2);
    rlp_codec::lemma_parse_byte_list(h.tx_results_hash, r3);
    rlp_codec::lemma_parse_byte_list(h.validator_updates_hash, r4);
    rlp_codec::lemma_parse_byte_list(h.finalize_block_response, r5);
    rlp_codec::lemma_parse_byte_list(h.commit_response, r6);
    rlp_codec::lemma_parse_u64(h.retain_height, rest);
}

/// Decoding an encoded header gives the header back.
pub proof fn finalized_header_roundtrip(h: FinalizedHeaderView)
    requires
        h.fits(),
    ensures
        parse_finalized_header(h.rlp()) == Ok::<FinalizedHeaderView, RlpErrorView>(h),
{
    let payload = h.rlp_payload();
    rlp_codec::lemma_parse_list_header(payload.len() as usize, payload);
    lemma_parse_header_fields(h, Seq::empty());
    assert(payload + Seq::<u8>::empty() =~= payload);
}

proof fn lemma_assoc(a: Seq<u8>, b: Seq<u8>, c: Seq<u8>)
    ensures
        a + (b + c) == (a + b) + c,
{
    assert(a + (b + c) =~= (a + b) + c);
}

/// The fields that a decoder accepts are encoded in front of the rest.
proof fn lemma_header_fields_canonical(bytes: Seq<u8>)
    ensures
        parse_header_fields(bytes) matches Ok((h, rest)) ==> bytes == h.rlp_payload() + rest,
{
    if let Ok((h, rest)) = parse_header_fields(bytes) {
        let f0 = rlp::rlp_uint(h.height as nat);
        let f1 = rlp::rlp_byte_list(h.app_hash);
        let f2 = rlp::rlp_byte_list(h.tx_results_hash);
        let f3 = rlp::rlp_byte_list(h.validator_updates_hash);
        let f4 = rlp::rlp_byte_list(h.finalize_block_response);
        let f5 = rlp::rlp_byte_list(h.commit_response);
        let f6 = rlp::rlp_uint(h.retain_height as nat);
        let r1 = rlp_codec::parse_u64(bytes)->Ok_0.1;
        let r2 = rlp_codec::parse_byte_list(r1)->Ok_0.1;
        let r3 = rlp_codec::parse_byte_list(r2)->Ok_0.1;
        let r4 = rlp_codec::parse_byte_list(r3)->Ok_0.1;
        let r5 = rlp_codec::parse_byte_list(r4)->Ok_0.1;
        let r6 = rlp_codec::parse_byte_list(r5)->Ok_0.1;
        rlp_codec::lemma_parse_u64_canonical(bytes);
        rlp_codec::lemma_parse_byte_list_canonical(r1);
        rlp_codec::lemma_parse_byte_list_canonical(r2);
        rlp_codec::lemma_parse_byte_list_canonical(r3);
        rlp_codec::lemma_parse_byte_list_canonical(r4);
        rlp_codec::lemma_parse_byte_list_canonical(r5);
        rlp_codec::lemma_parse_u64_canonical(r6);
        lemma_assoc(f0, f1, r2);
        lemma_assoc(f0 + f1, f2, r3);
        lemma_assoc(f0 + f1 + f2, f3, r4);
        lemma_assoc(f0 + f1 + f2 + f3, f4, r5);
        lemma_assoc(f0 + f1 + f2 + f3 + f4, f5, r6);
        lemma_assoc(f0 + f1 + f2 + f3 + f4 + f5, f6, rest);
    }
}

/// A header has one encoding: what decodes to a header is its encoding.
pub proof fn finalized_header_canonical(bytes: Seq<u8>)
    ensures
        parse_finalized_header(bytes) matches Ok(h) ==> bytes == h.rlp(),
{
    rlp_codec::lemma_parse_list_header_canonical(bytes);
    if let Ok((n, fields)) = rlp_codec::parse_list_header(bytes) {
        lemma_header_fields_canonical(fields);
        if let Ok(h) = parse_finalized_header(bytes) {
            assert(fields =~= h.rlp_payload());
        }
    }
}

impl CosmosFinalizedHeader {
    /// Encodes the header.
    pub fn encode(&self) -> (out: Vec<u8>)
        ensures
            out@ == self@.rlp(),
    {
        let mut payload: Vec<u8> = rlp_codec::encode_u64(self.height);
        let mut f1: Vec<u8> = rlp_codec::encode_byte_list(self.app_hash.as_slice());
        let mut f2: Vec<u8> = rlp_codec::encode_byte_list(self.tx_results_hash.as_slice());
        let mut f3: Vec<u8> = rlp_codec::encode_byte_list(self.validator_updates_hash.as_slice());
        let mut f4: Vec<u8> = rlp_codec::encode_byte_list(self.finalize_block_response.as_slice());
        let mut f5: Vec<u8> = rlp_codec::encode_byte_list(self.commit_response.as_slice());
        let mut f6: Vec<u8> = rlp_codec::encode_u64(self.retain_height);
        payload.append(&mut f1);
        payload.append(&mut f2);
        payload.append(&mut f3);
        payload.append(&mut f4);
        payload.append(&mut f5);
        payload.append(&mut f6);
        assert(payload@ =~= self@.rlp_payload());
        rlp_codec::encode_list(payload)
    }

    fn decode_fields(bytes: &[u8]) -> (r: Result<(Self, &[u8]), RlpError>)
        ensures
            match r {
                Ok((h, rest)) => parse_header_fields(bytes@) == Ok::<
                    (FinalizedHeaderView, Seq<u8>),
                    RlpErrorView,
                >((h@, rest@)),
                Err(e) => parse_header_fields(bytes@) == Err::<
                    (FinalizedHeaderView, Seq<u8>),
                    RlpErrorView,
                >(e@),
            },
    {
        let (height, r1) = match rlp_codec::take_u64(bytes) {
            Ok(v) => v,
            Err(e) => {
                return Err(e);
            },
        };
        let (app_hash, r2) = match rlp_codec::take_byte_list(r1) {
            Ok(v) => v,
            Err(e) => {
                return Err(e);
            },
        };
        let (tx_results_hash, r3) = match rlp_codec::take_byte_list(r2) {
            Ok(v) => v,
            Err(e) => {
                return Err(e);
            },
        };
        let (validator_updates_hash, r4) = match rlp_codec::take_byte_list(r3) {
            Ok(v) => v,
            Err(e) => {
                return Err(e);
            },
        };
        let (finalize_block_response, r5) = match rlp_codec::take_byte_list(r4) {
            Ok(v) => v,
            Err(e) => {
                return Err(e);
            },
        };
        let (commit_response, r6) = match rlp_codec::take_byte_list(r5) {
            Ok(v) => v,
            Err(e) => {
                return Err(e);
            },
        };
        let (retain_height, rest) = match rlp_codec::take_u64(r6) {
            Ok(v) => v,
            Err(e) => {
                return Err(e);
            },
        };
        Ok(
            (
                CosmosFinalizedHeader {
                    height,
                    app_hash,
                    tx_results_hash,
                    validator_updates_hash,
                    finalize_block_response,
                    commit_response,
                    retain_height,
                },
                rest,
            ),
        )
    }

    /// Decodes a header that fills `bytes` exactly.
    pub fn decode_exact(bytes: &[u8]) -> (r: Result<Self, RlpError>)
        ensures
            match r {
                Ok(h) => parse_finalized_header(bytes@) == Ok::<FinalizedHeaderView, RlpErrorView>(
                    h@,
                ),
                Err(e) => parse_finalized_header(bytes@) == Err::<
                    FinalizedHeaderView,
                    RlpErrorView,
                >(e@),
            },
    {
        let (n, fields) = match rlp_codec::take_list_header(bytes) {
            Ok(v) => v,
            Err(e) => {
                return Err(e);
            },
        };
        let (header, rest) = match Self::decode_fields(fields) {
            Ok(v) => v,
            Err(e) => {
                return Err(e);
            },
        };
        proof {
            lemma_header_fields_canonical(fields@);
        }
        let consumed: usize = fields.len() - rest.len();
        if consumed != n {
            Err(RlpError::ListLengthMismatch { expected: n, got: consumed })
        } else if rest.len() != 0 {
            Err(RlpError::UnexpectedLength)
        } else {
            Ok(header)
        }
    }
}

/// Putting transactions one behind the other keeps their bytes and their order.
pub proof fn bytes_stand_one_behind_the_other(a: Seq<Seq<u8>>, b: Seq<Seq<u8>>, tx: Seq<u8>)
    ensures
        concat_all(a + b) == concat_all(a) + concat_all(b),
        concat_all(seq![tx]) == tx,
        concat_all(Seq::empty()) == Seq::<u8>::empty(),
    decreases b.len(),
{
    reveal_with_fuel(concat_all, 2);
    assert(seq![tx].drop_last() =~= Seq::empty());
    assert(Seq::<u8>::empty() + tx =~= tx);
    if b.len() > 0 {
        bytes_stand_one_behind_the_other(a, b.drop_last(), tx);
        assert((a + b).drop_last() =~= a + b.drop_last());
        assert((a + b).last() == b.last());
        assert(concat_all(a) + (concat_all(b.drop_last()) + b.last()) =~= (concat_all(a)
            + concat_all(b.drop_last())) + b.last());
    } else {
        assert(a + b =~= a);
        assert(concat_all(a) + Seq::<u8>::empty() =~= concat_all(a));
    }
}

/// The header of an executed block says what the application answered: its
/// hash, both answers as they came, the digests of the results and of the
/// validator updates each put one behind the other, and from which height on
/// blocks are to be kept, none where that is negative.
pub proof fn executed_headers_say_what_was_answered(
    height: u64,
    finalize_block: FinalizeBlockResponse,
    commit: CommitResponse,
    results: Seq<Seq<u8>>,
    updates: Seq<Seq<u8>>,
)
    requires
        results.len() == finalize_block.tx_results@.len(),
        forall|i: int|
            0 <= i < results.len() ==> (#[trigger] finalize_block.tx_results@[i])@ == results[i],
        updates.len() == finalize_block.validator_updates@.len(),
        forall|i: int|
            0 <= i < updates.len() ==> (#[trigger] finalize_block.validator_updates@[i])@
                == updates[i],
    ensures
        ({
            let h = executed_header(height, finalize_block, commit);
            &&& h.height == height
            &&& h.app_hash == finalize_block.app_hash@
            &&& h.tx_results_hash == sha256(concat_all(results))
            &&& h.validator_updates_hash == sha256(concat_all(updates))
            &&& h.finalize_block_response == finalize_block.encoded@
            &&& h.commit_response == commit.encoded@
            &&& commit.retain_height >= 0 ==> h.retain_height == commit.retain_height
            &&& commit.retain_height < 0 ==> h.retain_height == 0
        }),
{
    assert(tx_views(finalize_block.tx_results@) =~= results);
    assert(tx_views(finalize_block.validator_updates@) =~= updates);
}

/// A header without an execution holds a height and an application hash, and
/// nothing else.
pub proof fn bare_headers_hold_a_hash(height: u64, app_hash: Seq<u8>)
    ensures
        ({
            let h = bare_header(height, app_hash);
            &&& h.height == height && h.app_hash == app_hash && h.retain_height == 0
            &&& h.tx_results_hash.len() == 0 && h.validator_updates_hash.len() == 0
            &&& h.finalize_block_response.len() == 0 && h.commit_response.len() == 0
        }),
{
}

/// The fields of an encoded header stand in their order: reading them one after
/// the other gives each in its turn.
pub proof fn header_fields_stand_in_order(h: FinalizedHeaderView)
    requires
        h.fits(),
    ensures
        ({
            let r0 = rlp_codec::parse_list_header(h.rlp());
            let r1 = rlp_codec::parse_u64(r0->Ok_0.1);
            let r2 = rlp_codec::parse_byte_list(r1->Ok_0.1);
            let r3 = rlp_codec::parse_byte_list(r2->Ok_0.1);
            let r4 = rlp_codec::parse_byte_list(r3->Ok_0.1);
            let r5 = rlp_codec::parse_byte_list(r4->Ok_0.1);
            let r6 = rlp_codec::parse_byte_list(r5->Ok_0.1);
            let r7 = rlp_codec::parse_u64(r6->Ok_0.1);
            &&& r0 is Ok && r0->Ok_0.0 == r0->Ok_0.1.len()
            &&& r1 is Ok && r1->Ok_0.0 == h.height
            &&& r2 is Ok && r2->Ok_0.0 == h.app_hash
            &&& r3 is Ok && r3->Ok_0.0 == h.tx_results_hash
            &&& r4 is Ok && r4->Ok_0.0 == h.validator_updates_hash
            &&& r5 is Ok && r5->Ok_0.0 == h.finalize_block_response
            &&& r6 is Ok && r6->Ok_0.0 == h.commit_response
            &&& r7 is Ok && r7->Ok_0.0 == h.retain_height && r7->Ok_0.1.len() == 0
        }),
{
    let payload = h.rlp_payload();
    rlp_codec::lemma_parse_list_header(payload.len() as usize, payload);
    lemma_parse_header_fields(h, Seq::empty());
    assert(payload + Seq::<u8>::empty() =~= payload);
}

/// A block holds ten thousand transactions at most.
pub proof fn blocks_hold_ten_thousand(body: CosmosBlockBody)
    requires
        body.wf(),
    ensures
        body@.len() <= 10_000,
        MAX_COSMOS_TXS_PER_BLOCK == 10_000,
        MAX_COSMOS_MISBEHAVIOR == 128,
{
}

/// The bytes of some transactions stand in their order, one for each.
pub proof fn transactions_stand_in_order(txs: Seq<Vec<u8>>, i: int)
    ensures
        tx_views(txs).len() == txs.len(),
        0 <= i < txs.len() ==> tx_views(txs)[i] == txs[i]@,
{
}

/// Bytes behind an encoded header are refused, and so are bytes behind its
/// fields in the list; the error tells what was expected.
pub proof fn stray_bytes_are_refused(h: FinalizedHeaderView, stray: Seq<u8>)
    requires
        h.rlp_payload().len() + stray.len() <= usize::MAX,
        stray.len() > 0,
    ensures
        parse_finalized_header(h.rlp() + stray) == Err::<FinalizedHeaderView, RlpErrorView>(
            RlpErrorView::UnexpectedLength,
        ),
        parse_finalized_header(rlp::rlp_list(h.rlp_payload() + stray)) == Err::<
            FinalizedHeaderView,
            RlpErrorView,
        >(
            RlpErrorView::ListLengthMismatch {
                expected: (h.rlp_payload().len() + stray.len()) as usize,
                got: h.rlp_payload().len() as usize,
            },
        ),
{
    let payload = h.rlp_payload();
    let all = payload + stray;
    rlp_codec::lemma_parse_list_header(payload.len() as usize, all);
    rlp_codec::lemma_parse_list_header(all.len() as usize, all);
    assert(h.rlp() + stray =~= rlp::rlp_header(true, payload.len()) + all);
    lemma_parse_header_fields(h, stray);
}

/// Bytes that do not start as a list are refused with what the list reader
/// says.
pub proof fn headers_are_lists(bytes: Seq<u8>)
    ensures
        rlp_codec::parse_list_header(bytes) matches Err(e) ==> parse_finalized_header(bytes)
            == Err::<FinalizedHeaderView, RlpErrorView>(e),
{
}

/// What a header says is what its fields hold.
pub proof fn headers_say_what_they_hold(h: CosmosFinalizedHeader)
    ensures
        h@.height == h.height,
        h@.app_hash == h.app_hash@,
        h@.tx_results_hash == h.tx_results_hash@,
        h@.validator_updates_hash == h.validator_updates_hash@,
        h@.finalize_block_response == h.finalize_block_response@,
        h@.commit_response == h.commit_response@,
        h@.retain_height == h.retain_height,
{
}

} // verus!
