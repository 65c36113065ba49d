//! Block proposals: from a request of consensus to a proposal event.
use vstd::prelude::*;

use crate::abci::messages::PrepareProposalRequest;
use crate::abci::requests;
use crate::block_policy;
use crate::block_policy::CosmosBlock;
use crate::cosmos_types;
use crate::cosmos_types::{CosmosBlockBody, ProposedCosmosHeader};

verus! {

/// A request for a block. What consensus needs back unread travels in `context`.
#[derive(Clone, Debug, PartialEq, Eq)]
pub struct ProposalRequest<C> {
    pub seq_num: u64,
    /// How many pending transactions may be offered for the block.
    pub tx_limit: usize,
    /// How many bytes they may have.
    pub proposal_byte_limit: u64,
    pub timestamp_ns: u128,
    pub context: C,
}

/// A proposed block. Cosmos blocks have no base fee.
#[derive(Clone, Debug, PartialEq, Eq)]
pub struct Proposal<C> {
    pub seq_num: u64,
    pub timestamp_ns: u128,
    pub base_fee: u64,
    pub base_fee_trend: u64,
    pub base_fee_moment: u64,
    pub header: ProposedCosmosHeader,
    pub body: CosmosBlockBody,
    pub context: C,
}

/// Whether `header` is the header of a requested block.
pub open spec fn is_header_for<C>(
    header: ProposedCosmosHeader,
    request: ProposalRequest<C>,
) -> bool {
    &&& header.height == request.seq_num
    &&& header.max_tx_bytes == request.proposal_byte_limit
    &&& header.time_ns == request.timestamp_ns
    &&& header.local_last_commit@.len() == 0
    &&& header.misbehavior@.len() == 0
    &&& header.next_validators_hash@.len() == 0
    &&& header.proposer_address@.len() == 0
}

/// The header of a requested block. An empty commit information encodes to no
/// bytes at all.
pub fn proposal_header<C>(request: &ProposalRequest<C>) -> (header: ProposedCosmosHeader)
    ensures
        is_header_for(header, *request),
{
    ProposedCosmosHeader {
        height: request.seq_num,
        max_tx_bytes: request.proposal_byte_limit,
        time_ns: request.timestamp_ns,
        local_last_commit: Vec::new(),
        misbehavior: Vec::new(),
        next_validators_hash: Vec::new(),
        proposer_address: Vec::new(),
    }
}

/// Whether `prepare` asks the application to fill a requested block, with
/// these transactions handed along.
pub open spec fn is_prepare_for<C>(
    prepare: PrepareProposalRequest,
    request: ProposalRequest<C>,
    txs: Seq<Seq<u8>>,
) -> bool {
    &&& prepare.max_tx_bytes == request.proposal_byte_limit as i64
    &&& cosmos_types::tx_views(prepare.txs@) == txs
    &&& prepare.height == request.seq_num as i64
    &&& prepare.time matches Some(t) && t.seconds == (request.timestamp_ns / 1_000_000_000) as i64
        && t.nanos == request.timestamp_ns % 1_000_000_000
    &&& prepare.next_validators_hash@.len() == 0
    &&& prepare.proposer_address@.len() == 0
}

/// The request that asks the application to fill a block.
pub fn prepare_request<C>(request: &ProposalRequest<C>, txs: Vec<Vec<u8>>) -> (prepare:
    PrepareProposalRequest)
    ensures
        is_prepare_for(prepare, *request, cosmos_types::tx_views(txs@)),
{
    let header: ProposedCosmosHeader = proposal_header(request);
    requests::prepare_request_from_header(&header, txs)
}

/// Whether `proposal` is the block that was requested, with the transactions
/// that the application chose; a list beyond the limit of a body counts as
/// empty.
pub open spec fn is_proposal_for<C>(
    proposal: Proposal<C>,
    request: ProposalRequest<C>,
    txs: Seq<Seq<u8>>,
) -> bool {
    &&& proposal.seq_num == request.seq_num
    &&& proposal.timestamp_ns == request.timestamp_ns
    &&& proposal.base_fee == 0
    &&& proposal.base_fee_trend == 0
    &&& proposal.base_fee_moment == 0
    &&& is_header_for(proposal.header, request)
    &&& proposal.body@ == if txs.len() <= cosmos_types::MAX_COSMOS_TXS_PER_BLOCK {
        txs
    } else {
        Seq::empty()
    }
    &&& proposal.context == request.context
}

/// The proposed block with the transactions that the application chose.
pub fn propose<C>(request: ProposalRequest<C>, txs: Vec<Vec<u8>>) -> (proposal: Proposal<C>)
    ensures
        is_proposal_for(proposal, request, cosmos_types::tx_views(txs@)),
{
    let header: ProposedCosmosHeader = proposal_header(&request);
    Proposal {
        seq_num: request.seq_num,
        timestamp_ns: request.timestamp_ns,
        base_fee: 0,
        base_fee_trend: 0,
        base_fee_moment: 0,
        header,
        body: CosmosBlockBody::from_txs(txs),
        context: request.context,
    }
}

/// The transactions that are not among some others, in their order.
pub open spec fn not_among(txs: Seq<Seq<u8>>, others: Seq<Seq<u8>>) -> Seq<Seq<u8>>
    decreases txs.len(),
{
    if txs.len() == 0 {
        txs
    } else if others.contains(txs.last()) {
        not_among(txs.drop_last(), others)
    } else {
        not_among(txs.drop_last(), others).push(txs.last())
    }
}

/// A transaction that is not among the others stays.
pub proof fn lemma_not_among(txs: Seq<Seq<u8>>, others: Seq<Seq<u8>>, i: int)
    requires
        0 <= i < txs.len(),
        !others.contains(txs[i]),
    ensures
        not_among(txs, others).contains(txs[i]),
    decreases txs.len(),
{
    let init = txs.drop_last();
    let kept = not_among(init, others);
    if i < init.len() {
        lemma_not_among(init, others, i);
        let j = choose|j: int| 0 <= j < kept.len() && kept[j] == txs[i];
        assert(not_among(txs, others)[j] == txs[i]);
    } else {
        assert(not_among(txs, others)[kept.len() as int] == txs[i]);
    }
}

fn is_among(tx: &Vec<u8>, others: &Vec<Vec<u8>>) -> (r: bool)
    ensures
        r == cosmos_types::tx_views(others@).contains(tx@),
{
    let ghost views = cosmos_types::tx_views(others@);
    let mut i: usize = 0;
    while i < others.len()
        invariant
            i <= others@.len(),
            views == cosmos_types::tx_views(others@),
            forall|j: int| 0 <= j < i ==> #[trigger] views[j] != tx@,
        decreases others@.len() - i,
    {
        if block_policy::same_bytes(&others[i], tx) {
            assert(views[i as int] == tx@);
            return true;
        }
        assert(views[i as int] == others@[i as int]@);
        i = i + 1;
    }
    false
}

/// The candidates that the application did not choose.
pub fn left_out(candidates: Vec<Vec<u8>>, chosen: &Vec<Vec<u8>>) -> (rest: Vec<Vec<u8>>)
    ensures
        cosmos_types::tx_views(rest@) == not_among(
            cosmos_types::tx_views(candidates@),
            cosmos_types::tx_views(chosen@),
        ),
{
    let ghost all = cosmos_types::tx_views(candidates@);
    let ghost others = cosmos_types::tx_views(chosen@);
    let mut rest: Vec<Vec<u8>> = Vec::new();
    let mut i: usize = 0;
    assert(all.take(0) =~= Seq::<Seq<u8>>::empty());
    assert(cosmos_types::tx_views(rest@) =~= Seq::<Seq<u8>>::empty());
    while i < candidates.len()
        invariant
            i <= candidates@.len(),
            all == cosmos_types::tx_views(candidates@),
            others == cosmos_types::tx_views(chosen@),
            cosmos_types::tx_views(rest@) == not_among(all.take(i as int), others),
        decreases candidates@.len() - i,
    {
        assert(all.take(i + 1).drop_last() =~= all.take(i as int));
        assert(all.take(i + 1).last() == candidates@[i as int]@);
        if !is_among(&candidates[i], chosen) {
            let ghost before = rest@;
            rest.push(cosmos_types::copy_bytes(&candidates[i]));
            assert(cosmos_types::tx_views(rest@) =~= cosmos_types::tx_views(before).push(
                candidates@[i as int]@,
            ));
        }
        i = i + 1;
    }
    assert(all.take(i as int) =~= all);
    rest
}

/// The transactions of some blocks, one block behind the other.
pub open spec fn txs_of_blocks(blocks: Seq<CosmosBlock>) -> Seq<Seq<u8>>
    decreases blocks.len(),
{
    if blocks.len() == 0 {
        Seq::empty()
    } else {
        txs_of_blocks(blocks.drop_last()) + blocks.last().body@
    }
}

/// Collects the transactions of the blocks that a proposal extends. They tell
/// the application what is already taken; they do not go into the proposal.
pub fn collect_extending_block_txs(extending_blocks: &Vec<CosmosBlock>) -> (txs: Vec<Vec<u8>>)
    ensures
        cosmos_types::tx_views(txs@) == txs_of_blocks(extending_blocks@),
{
    let mut txs: Vec<Vec<u8>> = Vec::new();
    let mut i: usize = 0;
    assert(extending_blocks@.take(0) =~= Seq::<CosmosBlock>::empty());
    assert(cosmos_types::tx_views(txs@) =~= Seq::<Seq<u8>>::empty());
    while i < extending_blocks.len()
        invariant
            i <= extending_blocks@.len(),
            cosmos_types::tx_views(txs@) == txs_of_blocks(extending_blocks@.take(i as int)),
        decreases extending_blocks@.len() - i,
    {
        let ghost before = txs@;
        let mut more: Vec<Vec<u8>> = cosmos_types::copy_txs(extending_blocks[i].body.txs());
        let ghost added = more@;
        txs.append(&mut more);
        proof {
            let blocks = extending_blocks@.take(i + 1);
            assert(blocks.drop_last() =~= extending_blocks@.take(i as int));
            assert(cosmos_types::tx_views(txs@) =~= cosmos_types::tx_views(before)
                + cosmos_types::tx_views(added));
        }
        i = i + 1;
    }
    assert(extending_blocks@.take(i as int) =~= extending_blocks@);
    txs
}

/// Transactions that are among others are dropped and the rest keeps its order:
/// what is left of two lists is what is left of the first and then of the
/// second, and one transaction is left if and only if no other one equals it.
pub proof fn the_rest_keeps_its_order(
    a: Seq<Seq<u8>>,
    b: Seq<Seq<u8>>,
    others: Seq<Seq<u8>>,
    tx: Seq<u8>,
)
    ensures
        not_among(a + b, others) == not_among(a, others) + not_among(b, others),
        (exists|i: int| 0 <= i < others.len() && #[trigger] others[i] == tx) ==> not_among(
            seq![tx],
            others,
        ) == Seq::<Seq<u8>>::empty(),
        (forall|i: int| 0 <= i < others.len() ==> #[trigger] others[i] != tx) ==> not_among(
            seq![tx],
            others,
        ) == seq![tx],
        not_among(Seq::empty(), others) == Seq::<Seq<u8>>::empty(),
    decreases b.len(),
{
    reveal_with_fuel(not_among, 2);
    assert(seq![tx].drop_last() =~= Seq::empty());
    assert(Seq::<Seq<u8>>::empty().push(tx) =~= seq![tx]);
    if b.len() > 0 {
        the_rest_keeps_its_order(a, b.drop_last(), others, tx);
        assert((a + b).drop_last() =~= a + b.drop_last());
        assert((a + b).last() == b.last());
        assert(not_among(a + b, others) =~= not_among(a, others) + not_among(b, others));
    } else {
        assert(a + b =~= a);
        assert(not_among(a, others) + not_among(b, others) =~= not_among(a, others));
    }
}

/// The transactions of blocks stand in the order of the blocks.
pub proof fn blocks_stand_one_behind_the_other(
    a: Seq<CosmosBlock>,
    b: Seq<CosmosBlock>,
    block: CosmosBlock,
)
    ensures
        txs_of_blocks(a + b) == txs_of_blocks(a) + txs_of_blocks(b),
        txs_of_blocks(seq![block]) == block.body@,
        txs_of_blocks(Seq::empty()) == Seq::<Seq<u8>>::empty(),
    decreases b.len(),
{
    reveal_with_fuel(txs_of_blocks, 2);
    assert(seq![block].drop_last() =~= Seq::empty());
    assert(Seq::<Seq<u8>>::empty() + block.body@ =~= block.body@);
    if b.len() > 0 {
        blocks_stand_one_behind_the_other(a, b.drop_last(), block);
        assert((a + b).drop_last() =~= a + b.drop_last());
        assert((a + b).last() == b.last());
        assert(txs_of_blocks(a) + (txs_of_blocks(b.drop_last()) + b.last().body@) =~= (txs_of_blocks(
            a,
        ) + txs_of_blocks(b.drop_last())) + b.last().body@);
    } else {
        assert(a + b =~= a);
        assert(txs_of_blocks(a) + Seq::<Seq<u8>>::empty() =~= txs_of_blocks(a));
    }
}

/// A proposal is the block that was asked for: its number, its time and its
/// context are those of the request, it asks no fee, and it holds the chosen
/// transactions in order, or none where there are more than ten thousand.
pub proof fn proposals_are_what_was_asked_for<C>(
    proposed: Proposal<C>,
    request: ProposalRequest<C>,
    txs: Seq<Seq<u8>>,
)
    requires
        is_proposal_for(proposed, request, txs),
    ensures
        proposed.seq_num == request.seq_num,
        proposed.timestamp_ns == request.timestamp_ns,
        proposed.context == request.context,
        proposed.base_fee == 0 && proposed.base_fee_trend == 0 && proposed.base_fee_moment == 0,
        txs.len() <= 10_000 ==> proposed.body@ == txs,
        txs.len() > 10_000 ==> proposed.body@.len() == 0,
        proposed.header.height == request.seq_num,
        proposed.header.max_tx_bytes == request.proposal_byte_limit,
        proposed.header.time_ns == request.timestamp_ns,
        proposed.header.local_last_commit@.len() == 0,
        proposed.header.misbehavior@.len() == 0,
        proposed.header.next_validators_hash@.len() == 0,
        proposed.header.proposer_address@.len() == 0,
{
}

/// The application is asked to fill the block that consensus asked for: with
/// its number, its byte limit and its time, as far as these fit, and with the
/// given transactions in order.
pub proof fn applications_are_asked_for_the_block<C>(
    prepare: PrepareProposalRequest,
    request: ProposalRequest<C>,
    txs: Seq<Seq<u8>>,
)
    requires
        is_prepare_for(prepare, request, txs),
        request.timestamp_ns < 0x8000_0000_0000_0000 * 1_000_000_000,
    ensures
        request.seq_num <= i64::MAX ==> prepare.height == request.seq_num,
        request.proposal_byte_limit <= i64::MAX ==> prepare.max_tx_bytes
            == request.proposal_byte_limit,
        prepare.time matches Some(t) && t.seconds * 1_000_000_000 + t.nanos == request.timestamp_ns
            && 0 <= t.nanos < 1_000_000_000,
        prepare.txs@.len() == txs.len(),
        forall|i: int| 0 <= i < txs.len() ==> (#[trigger] prepare.txs@[i])@ == txs[i],
        prepare.next_validators_hash@.len() == 0,
        prepare.proposer_address@.len() == 0,
{
    assert(request.timestamp_ns / 1_000_000_000 < 0x8000_0000_0000_0000);
    assert(cosmos_types::tx_views(prepare.txs@).len() == prepare.txs@.len());
    assert forall|i: int| 0 <= i < txs.len() implies (#[trigger] prepare.txs@[i])@ == txs[i] by {
        assert(cosmos_types::tx_views(prepare.txs@)[i] == txs[i]);
    }
}

/// Numbers beyond an `i64` wrap around: the bits of a request's number, and the
/// low bits of its seconds, stay as they were.
pub proof fn large_numbers_wrap_around<C>(
    prepare: PrepareProposalRequest,
    request: ProposalRequest<C>,
    txs: Seq<Seq<u8>>,
)
    requires
        is_prepare_for(prepare, request, txs),
    ensures
        prepare.height as u64 == request.seq_num,
        prepare.max_tx_bytes as u64 == request.proposal_byte_limit,
        prepare.time matches Some(t) && t.seconds as u64 == (request.timestamp_ns / 1_000_000_000)
            % 0x1_0000_0000_0000_0000 && t.nanos == request.timestamp_ns % 1_000_000_000,
{
    let height = request.seq_num;
    let bytes = request.proposal_byte_limit;
    let seconds = request.timestamp_ns / 1_000_000_000;
    assert((height as i64) as u64 == height) by (bit_vector);
    assert((bytes as i64) as u64 == bytes) by (bit_vector);
    assert((seconds as i64) as u64 == seconds % 0x1_0000_0000_0000_0000) by (bit_vector);
}

} // verus!
