//! Requests that the node sends to the application, and what it makes of the
//! answers.
use vstd::prelude::*;

use crate::abci::error::{labelled, CosmosTxPoolError};
use crate::abci::messages::{
    CheckTxRequest, CheckTxType, CommitResponse, FinalizeBlockRequest, FinalizeBlockResponse,
    InfoRequest, InfoResponse, InitChainResponse, PrepareProposalRequest, ProcessProposalRequest,
    QueryRequest, QueryResponse, Timestamp,
};
use crate::cosmos_types;
use crate::cosmos_types::{
    CosmosBlockBody, CosmosFinalizedHeader, ProposedCosmosHeader,
};
use crate::rlp;
use crate::text;

verus! {

/// Splits nanoseconds since the epoch into seconds and the rest. Seconds
/// beyond the range of an `i64` wrap around.
pub fn timestamp_from_ns(timestamp_ns: u128) -> (t: Timestamp)
    ensures
        t.seconds == (timestamp_ns / 1_000_000_000) as i64,
        t.nanos == timestamp_ns % 1_000_000_000,
{
    Timestamp {
        seconds: #[verifier::truncate]
        ((timestamp_ns / 1_000_000_000) as i64),
        nanos: (timestamp_ns % 1_000_000_000) as i32,
    }
}

/// The request that asks whether a transaction may enter the pool.
pub fn check_tx_request(tx_bytes: &[u8]) -> (request: CheckTxRequest)
    ensures
        request.tx@ == tx_bytes@,
        request.check_type == CheckTxType::Check,
{
    CheckTxRequest { tx: vstd::slice::slice_to_vec(tx_bytes), check_type: CheckTxType::Check }
}

/// The request that asks where the application stands.
pub fn info_request() -> (request: InfoRequest)
    ensures
        request.version@ == Seq::<char>::empty(),
        request.block_version == 0,
        request.p2p_version == 0,
        request.abci_version@ == Seq::<char>::empty(),
{
    InfoRequest {
        version: String::new(),
        block_version: 0,
        p2p_version: 0,
        abci_version: String::new(),
    }
}

/// Whether `time` is the time of a header.
pub open spec fn is_time_of(time: Option<Timestamp>, header: ProposedCosmosHeader) -> bool {
    time matches Some(t) && t.seconds == (header.time_ns / 1_000_000_000) as i64 && t.nanos
        == header.time_ns % 1_000_000_000
}

/// Digests all transactions of a block with the hasher of the chain.
pub fn hash_txs<H: Fn(&[u8]) -> Vec<u8>>(txs: &Vec<Vec<u8>>, hasher: &H) -> (hash: Vec<u8>)
    requires
        forall|b: &[u8]| #[trigger] call_requires(*hasher, (b,)),
    ensures
        is_tx_hash(hash, cosmos_types::tx_views(txs@), *hasher),
{
    let all: Vec<u8> = cosmos_types::concatenate(txs);
    let bytes: &[u8] = all.as_slice();
    let hash: Vec<u8> = hasher(bytes);
    assert(call_ensures(*hasher, (bytes,), hash));
    hash
}

/// Whether `hash` is what the hasher returned for the transactions put one
/// behind the other.
pub open spec fn is_tx_hash<H: Fn(&[u8]) -> Vec<u8>>(
    hash: Vec<u8>,
    txs: Seq<Seq<u8>>,
    hasher: H,
) -> bool {
    exists|b: &[u8]|
        b@ == cosmos_types::concat_all(txs) && #[trigger] call_ensures(hasher, (b,), hash)
}

/// The request to put a block together. Numbers beyond the range of an `i64`
/// wrap around.
pub fn prepare_request_from_header(header: &ProposedCosmosHeader, txs: Vec<Vec<u8>>) -> (request:
    PrepareProposalRequest)
    ensures
        request.max_tx_bytes == header.max_tx_bytes as i64,
        request.txs == txs,
        request.height == header.height as i64,
        is_time_of(request.time, *header),
        request.next_validators_hash@ == header.next_validators_hash@,
        request.proposer_address@ == header.proposer_address@,
{
    PrepareProposalRequest {
        max_tx_bytes: #[verifier::truncate]
        (header.max_tx_bytes as i64),
        txs,
        height: #[verifier::truncate]
        (header.height as i64),
        time: Some(timestamp_from_ns(header.time_ns)),
        next_validators_hash: cosmos_types::copy_bytes(&header.next_validators_hash),
        proposer_address: cosmos_types::copy_bytes(&header.proposer_address),
    }
}

/// Whether a request asks the application to judge a block. Numbers beyond the
/// range of an `i64` wrap around.
pub open spec fn is_process_for<H: Fn(&[u8]) -> Vec<u8>>(
    request: ProcessProposalRequest,
    header: ProposedCosmosHeader,
    txs: Seq<Seq<u8>>,
    hasher: H,
) -> bool {
    &&& cosmos_types::tx_views(request.txs@) == txs
    &&& is_tx_hash(request.hash, txs, hasher)
    &&& request.height == header.height as i64
    &&& is_time_of(request.time, header)
    &&& request.next_validators_hash@ == header.next_validators_hash@
    &&& request.proposer_address@ == header.proposer_address@
}

/// Whether a request tells the application to execute a block. Numbers beyond
/// the range of an `i64` wrap around.
pub open spec fn is_finalize_for<H: Fn(&[u8]) -> Vec<u8>>(
    request: FinalizeBlockRequest,
    header: ProposedCosmosHeader,
    txs: Seq<Seq<u8>>,
    hasher: H,
) -> bool {
    &&& cosmos_types::tx_views(request.txs@) == txs
    &&& is_tx_hash(request.hash, txs, hasher)
    &&& request.height == header.height as i64
    &&& is_time_of(request.time, header)
    &&& request.next_validators_hash@ == header.next_validators_hash@
    &&& request.proposer_address@ == header.proposer_address@
    &&& request.syncing_to_height == request.height
}

/// The request to judge a block. Numbers beyond the range of an `i64` wrap
/// around.
pub fn process_request_from_inputs<H: Fn(&[u8]) -> Vec<u8>>(
    header: &ProposedCosmosHeader,
    body: &CosmosBlockBody,
    hasher: &H,
) -> (request: ProcessProposalRequest)
    requires
        forall|b: &[u8]| #[trigger] call_requires(*hasher, (b,)),
    ensures
        is_process_for(request, *header, body@, *hasher),
{
    ProcessProposalRequest {
        txs: cosmos_types::copy_txs(body.txs()),
        hash: hash_txs(body.txs(), hasher),
        height: #[verifier::truncate]
        (header.height as i64),
        time: Some(timestamp_from_ns(header.time_ns)),
        next_validators_hash: cosmos_types::copy_bytes(&header.next_validators_hash),
        proposer_address: cosmos_types::copy_bytes(&header.proposer_address),
    }
}

/// The request to execute a block. Numbers beyond the range of an `i64` wrap
/// around.
pub fn finalize_request_from_inputs<H: Fn(&[u8]) -> Vec<u8>>(
    header: &ProposedCosmosHeader,
    body: &CosmosBlockBody,
    hasher: &H,
) -> (request: FinalizeBlockRequest)
    requires
        forall|b: &[u8]| #[trigger] call_requires(*hasher, (b,)),
    ensures
        is_finalize_for(request, *header, body@, *hasher),
{
    FinalizeBlockRequest {
        txs: cosmos_types::copy_txs(body.txs()),
        hash: hash_txs(body.txs(), hasher),
        height: #[verifier::truncate]
        (header.height as i64),
        time: Some(timestamp_from_ns(header.time_ns)),
        next_validators_hash: cosmos_types::copy_bytes(&header.next_validators_hash),
        proposer_address: cosmos_types::copy_bytes(&header.proposer_address),
        syncing_to_height: #[verifier::truncate]
        (header.height as i64),
    }
}

/// The byte of a height that counts multiples of `unit`.
#[verifier::opaque]
pub open spec fn height_byte(height: u64, unit: u64) -> u8 {
    ((height / unit) % 256) as u8
}

/// The eight big-endian bytes of a height.
pub open spec fn height_bytes(height: u64) -> Seq<u8> {
    seq![
        height_byte(height, 0x100_0000_0000_0000),
        height_byte(height, 0x1_0000_0000_0000),
        height_byte(height, 0x100_0000_0000),
        height_byte(height, 0x1_0000_0000),
        height_byte(height, 0x100_0000),
        height_byte(height, 0x1_0000),
        height_byte(height, 0x100),
        height_byte(height, 1),
    ]
}

/// The bytes of a height stand for the height.
pub proof fn height_bytes_value(height: u64)
    ensures
        rlp::be_value(height_bytes(height)) == height,
{
    let b = height_bytes(height);
    assert(rlp::be_value(b.take(0)) == 0) by {
        assert(b.take(0) =~= Seq::<u8>::empty());
    }
    vstd::arithmetic::div_mod::lemma_basic_div(height as int, 0x1_0000_0000_0000_0000);
    lemma_next_byte(height, b, 0, 0x100_0000_0000_0000, 0);
    lemma_next_byte(height, b, 1, 0x1_0000_0000_0000, height as nat / 0x100_0000_0000_0000);
    lemma_next_byte(height, b, 2, 0x100_0000_0000, height as nat / 0x1_0000_0000_0000);
    lemma_next_byte(height, b, 3, 0x1_0000_0000, height as nat / 0x100_0000_0000);
    lemma_next_byte(height, b, 4, 0x100_0000, height as nat / 0x1_0000_0000);
    lemma_next_byte(height, b, 5, 0x1_0000, height as nat / 0x100_0000);
    lemma_next_byte(height, b, 6, 0x100, height as nat / 0x1_0000);
    lemma_next_byte(height, b, 7, 1, height as nat / 0x100);
    assert(b.take(8) =~= b);
}

/// One byte more of a height brings it closer by a factor of 256.
proof fn lemma_next_byte(height: u64, b: Seq<u8>, i: int, unit: u64, so_far: nat)
    requires
        0 <= i < b.len(),
        unit > 0,
        b[i] == height_byte(height, unit),
        rlp::be_value(b.take(i)) == so_far,
        so_far == height as nat / (unit as nat * 256),
    ensures
        rlp::be_value(b.take(i + 1)) == height as nat / unit as nat,
{
    reveal(height_byte);
    assert(b.take(i + 1).drop_last() =~= b.take(i));
    assert(b.take(i + 1).last() == b[i]);
    vstd::arithmetic::div_mod::lemma_div_denominator(height as int, unit as int, 256);
    vstd::arithmetic::div_mod::lemma_fundamental_div_mod((height / unit) as int, 256);
}

/// Computes the byte of a height that counts multiples of `unit`.
fn byte_of(height: u64, unit: u64) -> (b: u8)
    requires
        unit > 0,
    ensures
        b == height_byte(height, unit),
{
    proof {
        reveal(height_byte);
    }
    ((height / unit) % 256) as u8
}

/// Whether a request asks for the execution result of a height.
pub open spec fn is_result_query(request: QueryRequest, height: u64) -> bool {
    &&& request.data@ == height_bytes(height)
    &&& request.path@ == "monad/execution_result"@
    &&& request.height == 0
    &&& !request.prove
}

/// The query for the execution result of a height.
pub fn execution_result_query(height: u64) -> (request: QueryRequest)
    ensures
        is_result_query(request, height),
{
    let mut data: Vec<u8> = Vec::new();
    data.push(byte_of(height, 0x100_0000_0000_0000));
    data.push(byte_of(height, 0x1_0000_0000_0000));
    data.push(byte_of(height, 0x100_0000_0000));
    data.push(byte_of(height, 0x1_0000_0000));
    data.push(byte_of(height, 0x100_0000));
    data.push(byte_of(height, 0x1_0000));
    data.push(byte_of(height, 0x100));
    data.push(byte_of(height, 1));
    assert(data@ =~= height_bytes(height));
    QueryRequest {
        data,
        path: String::from_str("monad/execution_result"),
        height: 0,
        prove: false,
    }
}

/// The message for a query that the application refused.
pub open spec fn query_refused(height: u64, code: u32, log: Seq<char>) -> Seq<char> {
    "ABCI Query monad/execution_result height="@ + text::decimal_text(height as nat) + " code="@
        + text::decimal_text(code as nat) + " log="@ + log
}

/// The execution result in an answer to [`execution_result_query`].
pub fn execution_result_from(height: u64, response: &QueryResponse) -> (r: Result<
    CosmosFinalizedHeader,
    CosmosTxPoolError,
>)
    ensures
        if response.code != 0 {
            r matches Err(CosmosTxPoolError::Transport(t)) && t@ == query_refused(
                height,
                response.code,
                response.log@,
            )
        } else {
            match cosmos_types::parse_finalized_header(response.value@) {
                Ok(h) => r matches Ok(header) && header@ == h,
                Err(e) => r matches Err(CosmosTxPoolError::Transport(t)) && t@
                    == "decode CosmosFinalizedHeader: "@ + e.text(),
            }
        },
{
    if response.code != 0 {
        let mut out: String = String::from_str("ABCI Query monad/execution_result height=");
        text::push_decimal(&mut out, height);
        out.append(" code=");
        text::push_decimal(&mut out, response.code as u64);
        out.append(" log=");
        out.append(response.log.as_str());
        return Err(CosmosTxPoolError::Transport(out));
    }
    match CosmosFinalizedHeader::decode_exact(response.value.as_slice()) {
        Ok(header) => Ok(header),
        Err(e) => {
            let detail: String = e.message();
            Err(
                CosmosTxPoolError::Transport(
                    labelled("decode CosmosFinalizedHeader: ", detail.as_str()),
                ),
            )
        },
    }
}

/// Whether an application that answers like this still has to be initialised.
pub open spec fn awaits_genesis(info: InfoResponse) -> bool {
    info.last_block_height <= 0 || info.last_block_app_hash@.len() == 0
}

/// Whether the application still has to be initialised.
pub fn needs_init_chain(info: &InfoResponse) -> (r: bool)
    ensures
        r == awaits_genesis(*info),
{
    info.last_block_height <= 0 || info.last_block_app_hash.len() == 0
}

/// What a trial of the genesis handshake found.
#[derive(Clone, Copy, Debug, PartialEq, Eq, Structural)]
pub struct AbciGenesisDebugInfo {
    pub info_last_block_height: i64,
    pub info_last_block_app_hash_len: usize,
    pub init_chain_sent: bool,
    pub init_chain_app_hash_len: usize,
    pub init_chain_validator_updates: usize,
    pub init_chain_has_consensus_params: bool,
}

/// What a trial of the first block found.
#[derive(Clone, Copy, Debug, PartialEq, Eq, Structural)]
pub struct AbciFirstBlockDebugInfo {
    pub init_chain_sent: bool,
    pub finalize_ok: bool,
    pub commit_ok: bool,
    pub finalize_app_hash_len: usize,
    pub commit_retain_height: i64,
}

impl AbciGenesisDebugInfo {
    /// What is known before the application is initialised.
    pub fn before_init_chain(info: &InfoResponse) -> (d: Self)
        ensures
            d == (AbciGenesisDebugInfo {
                info_last_block_height: info.last_block_height,
                info_last_block_app_hash_len: info.last_block_app_hash@.len() as usize,
                init_chain_sent: false,
                init_chain_app_hash_len: 0,
                init_chain_validator_updates: 0,
                init_chain_has_consensus_params: false,
            }),
    {
        AbciGenesisDebugInfo {
            info_last_block_height: info.last_block_height,
            info_last_block_app_hash_len: info.last_block_app_hash.len(),
            init_chain_sent: false,
            init_chain_app_hash_len: 0,
            init_chain_validator_updates: 0,
            init_chain_has_consensus_params: false,
        }
    }

    /// What is known once the application answered the initialisation.
    pub fn after_init_chain(self, response: &InitChainResponse) -> (d: Self)
        ensures
            d == (AbciGenesisDebugInfo {
                init_chain_sent: true,
                init_chain_app_hash_len: response.app_hash@.len() as usize,
                init_chain_validator_updates: response.validator_updates,
                init_chain_has_consensus_params: response.has_consensus_params,
                ..self
            }),
    {
        AbciGenesisDebugInfo {
            info_last_block_height: self.info_last_block_height,
            info_last_block_app_hash_len: self.info_last_block_app_hash_len,
            init_chain_sent: true,
            init_chain_app_hash_len: response.app_hash.len(),
            init_chain_validator_updates: response.validator_updates,
            init_chain_has_consensus_params: response.has_consensus_params,
        }
    }
}

impl AbciFirstBlockDebugInfo {
    /// The request to execute an empty first block at the genesis time.
    pub fn finalize_request(time: Timestamp) -> (request: FinalizeBlockRequest)
        ensures
            request.txs@.len() == 0,
            request.hash@.len() == 0,
            request.height == 1,
            request.time == Some(time),
            request.next_validators_hash@.len() == 0,
            request.proposer_address@.len() == 0,
            request.syncing_to_height == 1,
    {
        FinalizeBlockRequest {
            txs: Vec::new(),
            hash: Vec::new(),
            height: 1,
            time: Some(time),
            next_validators_hash: Vec::new(),
            proposer_address: Vec::new(),
            syncing_to_height: 1,
        }
    }

    /// What is known once the first block was executed and committed.
    pub fn from_responses(finalize_block: &FinalizeBlockResponse, commit: &CommitResponse) -> (d:
        Self)
        ensures
            d == (AbciFirstBlockDebugInfo {
                init_chain_sent: true,
                finalize_ok: true,
                commit_ok: true,
                finalize_app_hash_len: finalize_block.app_hash@.len() as usize,
                commit_retain_height: commit.retain_height,
            }),
    {
        AbciFirstBlockDebugInfo {
            init_chain_sent: true,
            finalize_ok: true,
            commit_ok: true,
            finalize_app_hash_len: finalize_block.app_hash.len(),
            commit_retain_height: commit.retain_height,
        }
    }
}

/// A time is split into whole seconds and the nanoseconds on top, as long as
/// the seconds fit.
pub proof fn times_add_up(time: Option<Timestamp>, header: ProposedCosmosHeader)
    requires
        is_time_of(time, header),
        header.time_ns < 0x8000_0000_0000_0000 * 1_000_000_000,
    ensures
        time matches Some(t) && t.seconds * 1_000_000_000 + t.nanos == header.time_ns && 0
            <= t.nanos < 1_000_000_000,
{
    assert(header.time_ns / 1_000_000_000 < 0x8000_0000_0000_0000);
}

/// The request to judge a block carries the block: its transactions in order,
/// the hash of all their bytes, and what its header says, as long as the height
/// fits.
pub proof fn judged_blocks_are_carried<H: Fn(&[u8]) -> Vec<u8>>(
    request: ProcessProposalRequest,
    header: ProposedCosmosHeader,
    txs: Seq<Seq<u8>>,
    hasher: H,
)
    requires
        is_process_for(request, header, txs, hasher),
        header.height <= i64::MAX,
        header.time_ns < 0x8000_0000_0000_0000 * 1_000_000_000,
    ensures
        request.txs@.len() == txs.len(),
        forall|i: int| 0 <= i < txs.len() ==> (#[trigger] request.txs@[i])@ == txs[i],
        request.height == header.height,
        request.time matches Some(t) && t.seconds * 1_000_000_000 + t.nanos == header.time_ns && 0
            <= t.nanos < 1_000_000_000,
        request.next_validators_hash@ == header.next_validators_hash@,
        request.proposer_address@ == header.proposer_address@,
        exists|b: &[u8]|
            b@ == cosmos_types::concat_all(txs) && #[trigger] call_ensures(
                hasher,
                (b,),
                request.hash,
            ),
{
    times_add_up(request.time, header);
    assert forall|i: int| 0 <= i < txs.len() implies (#[trigger] request.txs@[i])@ == txs[i] by {
        assert(cosmos_types::tx_views(request.txs@)[i] == txs[i]);
    }
    assert(cosmos_types::tx_views(request.txs@).len() == request.txs@.len());
}

/// The request to execute a block carries the same block as the request to
/// judge it, and the height up to which the application is to sync.
pub proof fn executed_blocks_are_carried<H: Fn(&[u8]) -> Vec<u8>>(
    request: FinalizeBlockRequest,
    header: ProposedCosmosHeader,
    txs: Seq<Seq<u8>>,
    hasher: H,
)
    requires
        is_finalize_for(request, header, txs, hasher),
        header.height <= i64::MAX,
        header.time_ns < 0x8000_0000_0000_0000 * 1_000_000_000,
    ensures
        request.txs@.len() == txs.len(),
        forall|i: int| 0 <= i < txs.len() ==> (#[trigger] request.txs@[i])@ == txs[i],
        request.height == header.height,
        request.syncing_to_height == header.height,
        request.time matches Some(t) && t.seconds * 1_000_000_000 + t.nanos == header.time_ns && 0
            <= t.nanos < 1_000_000_000,
        request.next_validators_hash@ == header.next_validators_hash@,
        request.proposer_address@ == header.proposer_address@,
        exists|b: &[u8]|
            b@ == cosmos_types::concat_all(txs) && #[trigger] call_ensures(
                hasher,
                (b,),
                request.hash,
            ),
{
    times_add_up(request.time, header);
    assert forall|i: int| 0 <= i < txs.len() implies (#[trigger] request.txs@[i])@ == txs[i] by {
        assert(cosmos_types::tx_views(request.txs@)[i] == txs[i]);
    }
    assert(cosmos_types::tx_views(request.txs@).len() == request.txs@.len());
}

/// A query for an execution result asks for its height in eight bytes, most
/// significant one first, under one path and without a proof.
pub proof fn queries_ask_for_the_height(request: QueryRequest, height: u64)
    requires
        is_result_query(request, height),
    ensures
        request.data@.len() == 8,
        request.data@[0] * 0x100_0000_0000_0000 + request.data@[1] * 0x1_0000_0000_0000
            + request.data@[2] * 0x100_0000_0000 + request.data@[3] * 0x1_0000_0000
            + request.data@[4] * 0x100_0000 + request.data@[5] * 0x1_0000 + request.data@[6] * 0x100
            + request.data@[7] == height,
        request.path@ == "monad/execution_result"@,
        request.height == 0,
        !request.prove,
{
    let b = request.data@;
    height_bytes_value(height);
    assert(b.take(8) =~= b);
    assert(b.take(0) =~= Seq::<u8>::empty());
    lemma_value_of_one_more(b, 0);
    lemma_value_of_one_more(b, 1);
    lemma_value_of_one_more(b, 2);
    lemma_value_of_one_more(b, 3);
    lemma_value_of_one_more(b, 4);
    lemma_value_of_one_more(b, 5);
    lemma_value_of_one_more(b, 6);
    lemma_value_of_one_more(b, 7);
}

proof fn lemma_value_of_one_more(b: Seq<u8>, i: int)
    requires
        0 <= i < b.len(),
    ensures
        rlp::be_value(b.take(i + 1)) == rlp::be_value(b.take(i)) * 256 + b[i],
{
    assert(b.take(i + 1).drop_last() =~= b.take(i));
}

/// An application is initialised unless it has both a block and an application
/// hash.
pub proof fn applications_with_blocks_are_not_initialised(info: InfoResponse)
    ensures
        !awaits_genesis(info) <==> info.last_block_height >= 1 && info.last_block_app_hash@.len()
            > 0,
{
}

/// A refused query is told with its height, the code and the log.
pub proof fn refused_queries_are_told(height: u64, code: u32, log: Seq<char>)
    ensures
        query_refused(height, code, log) == "ABCI Query monad/execution_result height="@
            + text::decimal_text(height as nat) + " code="@ + text::decimal_text(code as nat)
            + " log="@ + log,
{
}

/// Numbers beyond an `i64` wrap around: the bits of a header's height, and the
/// low bits of its seconds, stay as they were.
pub proof fn large_numbers_wrap_around<H: Fn(&[u8]) -> Vec<u8>>(
    judged: ProcessProposalRequest,
    executed: FinalizeBlockRequest,
    header: ProposedCosmosHeader,
    txs: Seq<Seq<u8>>,
    hasher: H,
)
    requires
        is_process_for(judged, header, txs, hasher),
        is_finalize_for(executed, header, txs, hasher),
    ensures
        judged.height as u64 == header.height,
        executed.height as u64 == header.height,
        executed.syncing_to_height as u64 == header.height,
        judged.time matches Some(t) && t.seconds as u64 == (header.time_ns / 1_000_000_000)
            % 0x1_0000_0000_0000_0000 && t.nanos == header.time_ns % 1_000_000_000,
        executed.time matches Some(t) && t.seconds as u64 == (header.time_ns / 1_000_000_000)
            % 0x1_0000_0000_0000_0000 && t.nanos == header.time_ns % 1_000_000_000,
{
    let height = header.height;
    let seconds = header.time_ns / 1_000_000_000;
    assert((height as i64) as u64 == height) by (bit_vector);
    assert((seconds as i64) as u64 == seconds % 0x1_0000_0000_0000_0000) by (bit_vector);
}

} // verus!
