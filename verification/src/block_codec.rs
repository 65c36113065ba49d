//! The encoding in which the headers and bodies of proposed blocks travel.
use vstd::prelude::*;

use crate::cosmos_types;
use crate::cosmos_types::{
    CosmosBlockBody, ProposedCosmosHeader, MAX_COSMOS_MISBEHAVIOR, MAX_COSMOS_TXS_PER_BLOCK,
};
use crate::rlp;
use crate::rlp::{RlpError, RlpErrorView};
use crate::rlp_codec;

verus! {

/// What a [`ProposedCosmosHeader`] says.
#[verifier::ext_equal]
pub struct ProposedHeaderView {
    pub height: u64,
    pub max_tx_bytes: u64,
    pub time_ns: u128,
    pub local_last_commit: Seq<u8>,
    pub misbehavior: Seq<Seq<u8>>,
    pub next_validators_hash: Seq<u8>,
    pub proposer_address: Seq<u8>,
}

impl View for ProposedCosmosHeader {
    type V = ProposedHeaderView;

    open spec fn view(&self) -> ProposedHeaderView {
        ProposedHeaderView {
            height: self.height,
            max_tx_bytes: self.max_tx_bytes,
            time_ns: self.time_ns,
            local_last_commit: self.local_last_commit@,
            misbehavior: cosmos_types::tx_views(self.misbehavior@),
            next_validators_hash: self.next_validators_hash@,
            proposer_address: self.proposer_address@,
        }
    }
}

impl ProposedHeaderView {
    /// A header holds a bounded number of misbehavior records.
    pub open spec fn bounded(self) -> bool {
        self.misbehavior.len() <= MAX_COSMOS_MISBEHAVIOR
    }

    /// The fields of the header, encoded one after the other.
    pub open spec fn rlp_payload(self) -> Seq<u8> {
        rlp::rlp_uint(self.height as nat) + rlp::rlp_uint(self.max_tx_bytes as nat) + rlp::rlp_uint(
            self.time_ns as nat,
        ) + rlp::rlp_byte_list(self.local_last_commit) + rlp::rlp_byte_lists(self.misbehavior)
            + rlp::rlp_byte_list(self.next_validators_hash) + rlp::rlp_byte_list(
            self.proposer_address,
        )
    }

    /// The encoded header.
    pub open spec fn rlp(self) -> Seq<u8> {
        rlp::rlp_list(self.rlp_payload())
    }

    /// Whether the encoded header fits in memory.
    pub open spec fn fits(self) -> bool {
        self.rlp_payload().len() <= usize::MAX
    }
}

/// What a decoder makes of the fields of a header.
pub open spec fn parse_proposed_fields(bytes: Seq<u8>) -> Result<
    (ProposedHeaderView, Seq<u8>),
    RlpErrorView,
> {
    match rlp_codec::parse_u64(bytes) {
        Err(e) => Err(e),
        Ok((height, r1)) => match rlp_codec::parse_u64(r1) {
            Err(e) => Err(e),
            Ok((max_tx_bytes, r2)) => match rlp_codec::parse_u128(r2) {
                Err(e) => Err(e),
                Ok((time_ns, r3)) => match rlp_codec::parse_byte_list(r3) {
                    Err(e) => Err(e),
                    Ok((local_last_commit, r4)) => match rlp_codec::parse_byte_lists(
                        r4,
                        MAX_COSMOS_MISBEHAVIOR as nat,
                    ) {
                        Err(e) => Err(e),
                        Ok((misbehavior, r5)) => match rlp_codec::parse_byte_list(r5) {
                            Err(e) => Err(e),
                            Ok((next_validators_hash, r6)) => match rlp_codec::parse_byte_list(r6) {
                                Err(e) => Err(e),
                                Ok((proposer_address, rest)) => Ok(
                                    (
                                        ProposedHeaderView {
                                            height,
                                            max_tx_bytes,
                                            time_ns,
                                            local_last_commit,
                                            misbehavior,
                                            next_validators_hash,
                                            proposer_address,
                                        },
                                        rest,
                                    ),
                                ),
                            },
                        },
                    },
                },
            },
        },
    }
}

/// What the end of a list means for the value that its fields made up: they
/// have to fill the list, with nothing behind it.
pub open spec fn closed_list<T>(n: usize, fields: Seq<u8>, value: T, rest: Seq<u8>) -> Result<
    T,
    RlpErrorView,
> {
    if fields.len() - rest.len() != n {
        Err(
            RlpErrorView::ListLengthMismatch {
                expected: n,
                got: (fields.len() - rest.len()) as usize,
            },
        )
    } else if rest.len() != 0 {
        Err(RlpErrorView::UnexpectedLength)
    } else {
        Ok(value)
    }
}

/// What a decoder of a whole header makes of `bytes`.
pub open spec fn parse_proposed_header(bytes: Seq<u8>) -> Result<ProposedHeaderView, RlpErrorView> {
    match rlp_codec::parse_list_header(bytes) {
        Err(e) => Err(e),
        Ok((n, fields)) => match parse_proposed_fields(fields) {
            Err(e) => Err(e),
            Ok((header, rest)) => closed_list(n, fields, header, rest),
        },
    }
}

/// The encoded body of a block.
pub open spec fn body_rlp(txs: Seq<Seq<u8>>) -> Seq<u8> {
    rlp::rlp_list(rlp::rlp_byte_lists(txs))
}

/// What a decoder of a whole body makes of `bytes`.
pub open spec fn parse_body(bytes: Seq<u8>) -> Result<Seq<Seq<u8>>, RlpErrorView> {
    match rlp_codec::parse_list_header(bytes) {
        Err(e) => Err(e),
        Ok((n, fields)) => match rlp_codec::parse_byte_lists(
            fields,
            MAX_COSMOS_TXS_PER_BLOCK as nat,
        ) {
            Err(e) => Err(e),
            Ok((txs, rest)) => closed_list(n, fields, txs, rest),
        },
    }
}

proof fn lemma_assoc(a: Seq<u8>, b: Seq<u8>, c: Seq<u8>)
    ensures
        a + (b + c) == (a + b) + c,
{
    assert(a + (b + c) =~= (a + b) + c);
}

proof fn lemma_parse_proposed_fields(h: ProposedHeaderView, rest: Seq<u8>)
    requires
        h.fits(),
        h.bounded(),
    ensures
        parse_proposed_fields(h.rlp_payload() + rest) == Ok::<
            (ProposedHeaderView, Seq<u8>),
            RlpErrorView,
        >((h, rest)),
{
    let f0 = rlp::rlp_uint(h.height as nat);
    let f1 = rlp::rlp_uint(h.max_tx_bytes as nat);
    let f2 = rlp::rlp_uint(h.time_ns as nat);
    let f3 = rlp::rlp_byte_list(h.local_last_commit);
    let f4 = rlp::rlp_byte_lists(h.misbehavior);
    let f5 = rlp::rlp_byte_list(h.next_validators_hash);
    let f6 = rlp::rlp_byte_list(h.proposer_address);
    let r6 = f6 + rest;
    let r5 = f5 + r6;
    let r4 = f4 + r5;
    let r3 = f3 + r4;
    let r2 = f2 + r3;
    let r1 = f1 + r2;
    lemma_assoc(f0 + f1 + f2 + f3 + f4 + f5, f6, rest);
    lemma_assoc(f0 + f1 + f2 + f3 + f4, f5, r6);
    lemma_assoc(f0 + f1 + f2 + f3, f4, r5);
    lemma_assoc(f0 + f1 + f2, f3, r4);
    lemma_assoc(f0 + f1, f2, r3);
    lemma_assoc(f0, f1, r2);
    assert(f3.len() > rlp::rlp_uint_items(h.local_last_commit).len());
    assert(f4.len() > rlp::rlp_byte_list_items(h.misbehavior).len());
    assert(f5.len() > rlp::rlp_uint_items(h.next_validators_hash).len());
    assert(f6.len() > rlp::rlp_uint_items(h.proposer_address).len());
    rlp_codec::lemma_parse_u64(h.height, r1);
    rlp_codec::lemma_parse_u64(h.max_tx_bytes, r2);
    rlp_codec::lemma_parse_u128(h.time_ns, r3);
    rlp_codec::lemma_parse_byte_list(h.local_last_commit, r4);
    rlp_codec::lemma_parse_byte_lists(h.misbehavior, MAX_COSMOS_MISBEHAVIOR as nat, r5);
    rlp_codec::lemma_parse_byte_list(h.next_validators_hash, r6);
    rlp_codec::lemma_parse_byte_list(h.proposer_address, rest);
}

/// Decoding an encoded header gives the header back.
pub proof fn proposed_header_roundtrip(h: ProposedHeaderView)
    requires
        h.fits(),
        h.bounded(),
    ensures
        parse_proposed_header(h.rlp()) == Ok::<ProposedHeaderView, RlpErrorView>(h),
{
    let payload = h.rlp_payload();
    rlp_codec::lemma_parse_list_header(payload.len() as usize, payload);
    lemma_parse_proposed_fields(h, Seq::empty());
    assert(payload + Seq::<u8>::empty() =~= payload);
}

/// The fields that a decoder accepts are encoded in front of the rest.
proof fn lemma_proposed_fields_canonical(bytes: Seq<u8>)
    ensures
        parse_proposed_fields(bytes) matches Ok((h, rest)) ==> bytes == h.rlp_payload() + rest
            && h.bounded(),
{
    if let Ok((h, rest)) = parse_proposed_fields(bytes) {
        let f0 = rlp::rlp_uint(h.height as nat);
        let f1 = rlp::rlp_uint(h.max_tx_bytes as nat);
        let f2 = rlp::rlp_uint(h.time_ns as nat);
        let f3 = rlp::rlp_byte_list(h.local_last_commit);
        let f4 = rlp::rlp_byte_lists(h.misbehavior);
        let f5 = rlp::rlp_byte_list(h.next_validators_hash);
        let f6 = rlp::rlp_byte_list(h.proposer_address);
        let limit = MAX_COSMOS_MISBEHAVIOR as nat;
        let r1 = rlp_codec::parse_u64(bytes)->Ok_0.1;
        let r2 = rlp_codec::parse_u64(r1)->Ok_0.1;
        let r3 = rlp_codec::parse_u128(r2)->Ok_0.1;
        let r4 = rlp_codec::parse_byte_list(r3)->Ok_0.1;
        let r5 = rlp_codec::parse_byte_lists(r4, limit)->Ok_0.1;
        let r6 = rlp_codec::parse_byte_list(r5)->Ok_0.1;
        rlp_codec::lemma_parse_u64_canonical(bytes);
        rlp_codec::lemma_parse_u64_canonical(r1);
        rlp_codec::lemma_parse_u128_canonical(r2);
        rlp_codec::lemma_parse_byte_list_canonical(r3);
        rlp_codec::lemma_parse_byte_lists_canonical(r4, limit);
        rlp_codec::lemma_parse_byte_list_canonical(r5);
        rlp_codec::lemma_parse_byte_list_canonical(r6);
        lemma_assoc(f0, f1, r2);
        lemma_assoc(f0 + f1, f2, r3);
        lemma_assoc(f0 + f1 + f2, f3, r4);
        lemma_assoc(f0 + f1 + f2 + f3, f4, r5);
        lemma_assoc(f0 + f1 + f2 + f3 + f4, f5, r6);
        lemma_assoc(f0 + f1 + f2 + f3 + f4 + f5, f6, rest);
    }
}

/// A header has one encoding: what decodes to a header is its encoding, and the
/// header respects its bound.
pub proof fn proposed_header_canonical(bytes: Seq<u8>)
    ensures
        parse_proposed_header(bytes) matches Ok(h) ==> bytes == h.rlp() && h.bounded(),
{
    rlp_codec::lemma_parse_list_header_canonical(bytes);
    if let Ok((n, fields)) = rlp_codec::parse_list_header(bytes) {
        lemma_proposed_fields_canonical(fields);
        if let Ok(h) = parse_proposed_header(bytes) {
            assert(fields =~= h.rlp_payload());
        }
    }
}

/// Decoding an encoded body gives its transactions back.
pub proof fn body_roundtrip(txs: Seq<Seq<u8>>)
    requires
        txs.len() <= MAX_COSMOS_TXS_PER_BLOCK,
        rlp::rlp_byte_lists(txs).len() <= usize::MAX,
    ensures
        parse_body(body_rlp(txs)) == Ok::<Seq<Seq<u8>>, RlpErrorView>(txs),
{
    let payload = rlp::rlp_byte_lists(txs);
    assert(payload.len() > rlp::rlp_byte_list_items(txs).len());
    rlp_codec::lemma_parse_list_header(payload.len() as usize, payload);
    rlp_codec::lemma_parse_byte_lists(txs, MAX_COSMOS_TXS_PER_BLOCK as nat, Seq::empty());
    assert(payload + Seq::<u8>::empty() =~= payload);
}

/// A body has one encoding: what decodes to transactions is their encoding, and
/// there are no more of them than a body holds.
pub proof fn body_canonical(bytes: Seq<u8>)
    ensures
        parse_body(bytes) matches Ok(txs) ==> bytes == body_rlp(txs) && txs.len()
            <= MAX_COSMOS_TXS_PER_BLOCK,
{
    rlp_codec::lemma_parse_list_header_canonical(bytes);
    if let Ok((n, fields)) = rlp_codec::parse_list_header(bytes) {
        rlp_codec::lemma_parse_byte_lists_canonical(fields, MAX_COSMOS_TXS_PER_BLOCK as nat);
        if let Ok(txs) = parse_body(bytes) {
            assert(fields =~= rlp::rlp_byte_lists(txs));
        }
    }
}

/// Checks the end of a list, of which `left` of `available` bytes are over.
fn close_list(n: usize, available: usize, left: usize) -> (r: Result<(), RlpError>)
    requires
        left <= available,
    ensures
        match r {
            Ok(_) => available - left == n && left == 0,
            Err(e) => e@ == if available - left != n {
                RlpErrorView::ListLengthMismatch { expected: n, got: (available - left) as usize }
            } else {
                RlpErrorView::UnexpectedLength
            } && !(available - left == n && left == 0),
        },
{
    let consumed: usize = available - left;
    if consumed != n {
        Err(RlpError::ListLengthMismatch { expected: n, got: consumed })
    } else if left != 0 {
        Err(RlpError::UnexpectedLength)
    } else {
        Ok(())
    }
}

impl ProposedCosmosHeader {
    /// Encodes the header.
    pub fn encode(&self) -> (out: Vec<u8>)
        ensures
            out@ == self@.rlp(),
    {
        let mut payload: Vec<u8> = rlp_codec::encode_u64(self.height);
        let mut f1: Vec<u8> = rlp_codec::encode_u64(self.max_tx_bytes);
        let mut f2: Vec<u8> = rlp_codec::encode_u128(self.time_ns);
        let mut f3: Vec<u8> = rlp_codec::encode_byte_list(self.local_last_commit.as_slice());
        let mut f4: Vec<u8> = rlp_codec::encode_byte_lists(&self.misbehavior);
        let mut f5: Vec<u8> = rlp_codec::encode_byte_list(self.next_validators_hash.as_slice());
        let mut f6: Vec<u8> = rlp_codec::encode_byte_list(self.proposer_address.as_slice());
        payload.append(&mut f1);
        payload.append(&mut f2);
        payload.append(&mut f3);
        payload.append(&mut f4);
        payload.append(&mut f5);
        payload.append(&mut f6);
        assert(payload@ =~= self@.rlp_payload());
        rlp_codec::encode_list(payload)
    }

    fn decode_fields(bytes: &[u8]) -> (r: Result<(Self, &[u8]), RlpError>)
        ensures
            match r {
                Ok((h, rest)) => parse_proposed_fields(bytes@) == Ok::<
                    (ProposedHeaderView, Seq<u8>),
                    RlpErrorView,
                >((h@, rest@)),
                Err(e) => parse_proposed_fields(bytes@) == Err::<
                    (ProposedHeaderView, Seq<u8>),
                    RlpErrorView,
                >(e@),
            },
    {
        let (height, r1) = match rlp_codec::take_u64(bytes) {
            Ok(v) => v,
            Err(e) => {
                return Err(e);
            },
        };
        let (max_tx_bytes, r2) = match rlp_codec::take_u64(r1) {
            Ok(v) => v,
            Err(e) => {
                return Err(e);
            },
        };
        let (time_ns, r3) = match rlp_codec::take_u128(r2) {
            Ok(v) => v,
            Err(e) => {
                return Err(e);
            },
        };
        let (local_last_commit, r4) = match rlp_codec::take_byte_list(r3) {
            Ok(v) => v,
            Err(e) => {
                return Err(e);
            },
        };
        let (misbehavior, r5) = match rlp_codec::take_byte_lists(r4, MAX_COSMOS_MISBEHAVIOR) {
            Ok(v) => v,
            Err(e) => {
                return Err(e);
            },
        };
        let (next_validators_hash, r6) = match rlp_codec::take_byte_list(r5) {
            Ok(v) => v,
            Err(e) => {
                return Err(e);
            },
        };
        let (proposer_address, rest) = match rlp_codec::take_byte_list(r6) {
            Ok(v) => v,
            Err(e) => {
                return Err(e);
            },
        };
        Ok(
            (
                ProposedCosmosHeader {
                    height,
                    max_tx_bytes,
                    time_ns,
                    local_last_commit,
                    misbehavior,
                    next_validators_hash,
                    proposer_address,
                },
                rest,
            ),
        )
    }

    /// Decodes a header that fills `bytes` exactly. One with more misbehavior
    /// records than a header holds is refused.
    pub fn decode_exact(bytes: &[u8]) -> (r: Result<Self, RlpError>)
        ensures
            match r {
                Ok(h) => parse_proposed_header(bytes@) == Ok::<ProposedHeaderView, RlpErrorView>(
                    h@,
                ) && h@.bounded(),
                Err(e) => parse_proposed_header(bytes@) == Err::<
                    ProposedHeaderView,
                    RlpErrorView,
                >(e@),
            },
    {
        let (n, fields) = match rlp_codec::take_list_header(bytes) {
            Ok(v) => v,
            Err(e) => {
                return Err(e);
            },
        };
        let (header, rest) = match Self::decode_fields(fields) {
            Ok(v) => v,
            Err(e) => {
                return Err(e);
            },
        };
        proof {
            lemma_proposed_fields_canonical(fields@);
        }
        match close_list(n, fields.len(), rest.len()) {
            Ok(_) => Ok(header),
            Err(e) => Err(e),
        }
    }
}

impl CosmosBlockBody {
    /// Encodes the body.
    pub fn encode(&self) -> (out: Vec<u8>)
        ensures
            out@ == body_rlp(self@),
    {
        rlp_codec::encode_list(rlp_codec::encode_byte_lists(self.txs()))
    }

    /// Decodes a body that fills `bytes` exactly. One with more transactions
    /// than a body holds is refused.
    pub fn decode_exact(bytes: &[u8]) -> (r: Result<Self, RlpError>)
        ensures
            match r {
                Ok(body) => body.wf() && parse_body(bytes@) == Ok::<Seq<Seq<u8>>, RlpErrorView>(
                    body@,
                ),
                Err(e) => parse_body(bytes@) == Err::<Seq<Seq<u8>>, RlpErrorView>(e@),
            },
    {
        let (n, fields) = match rlp_codec::take_list_header(bytes) {
            Ok(v) => v,
            Err(e) => {
                return Err(e);
            },
        };
        let (txs, rest) = match rlp_codec::take_byte_lists(fields, MAX_COSMOS_TXS_PER_BLOCK) {
            Ok(v) => v,
            Err(e) => {
                return Err(e);
            },
        };
        proof {
            rlp_codec::lemma_parse_byte_lists_canonical(fields@, MAX_COSMOS_TXS_PER_BLOCK as nat);
            assert(cosmos_types::tx_views(txs@).len() == txs@.len());
        }
        match close_list(n, fields.len(), rest.len()) {
            Ok(_) => Ok(CosmosBlockBody::from_txs(txs)),
            Err(e) => Err(e),
        }
    }
}

/// The fields of an encoded proposed header stand in their order: reading them
/// one after the other gives each in its turn.
pub proof fn proposed_fields_stand_in_order(h: ProposedHeaderView)
    requires
        h.fits(),
        h.misbehavior.len() <= 128,
    ensures
        ({
            let r0 = rlp_codec::parse_list_header(h.rlp());
            let r1 = rlp_codec::parse_u64(r0->Ok_0.1);
            let r2 = rlp_codec::parse_u64(r1->Ok_0.1);
            let r3 = rlp_codec::parse_u128(r2->Ok_0.1);
            let r4 = rlp_codec::parse_byte_list(r3->Ok_0.1);
            let r5 = rlp_codec::parse_byte_lists(r4->Ok_0.1, 128);
            let r6 = rlp_codec::parse_byte_list(r5->Ok_0.1);
            let r7 = rlp_codec::parse_byte_list(r6->Ok_0.1);
            &&& r0 is Ok && r0->Ok_0.0 == r0->Ok_0.1.len()
            &&& r1 is Ok && r1->Ok_0.0 == h.height
            &&& r2 is Ok && r2->Ok_0.0 == h.max_tx_bytes
            &&& r3 is Ok && r3->Ok_0.0 == h.time_ns
            &&& r4 is Ok && r4->Ok_0.0 == h.local_last_commit
            &&& r5 is Ok && r5->Ok_0.0 == h.misbehavior
            &&& r6 is Ok && r6->Ok_0.0 == h.next_validators_hash
            &&& r7 is Ok && r7->Ok_0.0 == h.proposer_address && r7->Ok_0.1.len() == 0
        }),
{
    let payload = h.rlp_payload();
    rlp_codec::lemma_parse_list_header(payload.len() as usize, payload);
    lemma_parse_proposed_fields(h, Seq::empty());
    assert(payload + Seq::<u8>::empty() =~= payload);
}

/// The encoded transactions of a block are read back if and only if there are
/// ten thousand of them at most.
pub proof fn long_bodies_are_refused(txs: Seq<Seq<u8>>)
    requires
        rlp::rlp_byte_lists(txs).len() <= usize::MAX,
    ensures
        parse_body(body_rlp(txs)) == if txs.len() <= 10_000 {
            Ok::<Seq<Seq<u8>>, RlpErrorView>(txs)
        } else {
            Err::<Seq<Seq<u8>>, RlpErrorView>(RlpErrorView::Custom("list exceeds its limit"@))
        },
{
    let payload = rlp::rlp_byte_lists(txs);
    rlp_codec::lemma_parse_list_header(payload.len() as usize, payload);
    assert(rlp::rlp_byte_lists(txs).len() >= rlp::rlp_byte_list_items(txs).len());
    rlp_codec::long_lists_are_refused(txs, 10_000, Seq::empty());
    assert(payload + Seq::<u8>::empty() =~= payload);
}

/// What stands behind the fields of a list is refused, and so are fields that
/// end elsewhere than the list.
pub proof fn lists_end_with_their_fields<T>(n: usize, fields: Seq<u8>, value: T, rest: Seq<u8>)
    requires
        rest.len() <= fields.len() <= usize::MAX,
    ensures
        closed_list(n, fields, value, rest) is Ok <==> rest.len() == 0 && fields.len() == n,
        closed_list(n, fields, value, rest) matches Ok(v) ==> v == value,
        fields.len() - rest.len() != n ==> closed_list(n, fields, value, rest) == Err::<
            T,
            RlpErrorView,
        >(
            RlpErrorView::ListLengthMismatch {
                expected: n,
                got: (fields.len() - rest.len()) as usize,
            },
        ),
        fields.len() - rest.len() == n && rest.len() > 0 ==> closed_list(n, fields, value, rest)
            == Err::<T, RlpErrorView>(RlpErrorView::UnexpectedLength),
{
}

/// Bytes behind an encoded proposed header are refused, and so are bytes behind
/// its fields in the list.
pub proof fn stray_bytes_are_refused(h: ProposedHeaderView, stray: Seq<u8>)
    requires
        h.rlp_payload().len() + stray.len() <= usize::MAX,
        h.bounded(),
        stray.len() > 0,
    ensures
        parse_proposed_header(h.rlp() + stray) == Err::<ProposedHeaderView, RlpErrorView>(
            RlpErrorView::UnexpectedLength,
        ),
        parse_proposed_header(rlp::rlp_list(h.rlp_payload() + stray)) == Err::<
            ProposedHeaderView,
            RlpErrorView,
        >(
            RlpErrorView::ListLengthMismatch {
                expected: (h.rlp_payload().len() + stray.len()) as usize,
                got: h.rlp_payload().len() as usize,
            },
        ),
{
    let payload = h.rlp_payload();
    let all = payload + stray;
    rlp_codec::lemma_parse_list_header(payload.len() as usize, all);
    rlp_codec::lemma_parse_list_header(all.len() as usize, all);
    assert(h.rlp() + stray =~= rlp::rlp_header(true, payload.len()) + all);
    lemma_parse_proposed_fields(h, stray);
}

/// What a header says is what its fields hold.
pub proof fn headers_say_what_they_hold(h: ProposedCosmosHeader, i: int)
    ensures
        h@.height == h.height,
        h@.max_tx_bytes == h.max_tx_bytes,
        h@.time_ns == h.time_ns,
        h@.local_last_commit == h.local_last_commit@,
        h@.misbehavior.len() == h.misbehavior@.len(),
        0 <= i < h.misbehavior@.len() ==> h@.misbehavior[i] == h.misbehavior@[i]@,
        h@.next_validators_hash == h.next_validators_hash@,
        h@.proposer_address == h.proposer_address@,
{
}

} // verus!
