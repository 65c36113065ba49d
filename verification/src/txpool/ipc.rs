//! The local socket on which the pool takes raw transactions.
//!
//! Frames are length-delimited. The server starts with a snapshot; every frame
//! of the client holds one transaction. A client may ask to be told how the
//! check of its transaction went.
use vstd::prelude::*;

use bytes::Bytes;

use crate::abci::error::labelled;
use crate::abci::messages::CheckTxResponse;
use crate::cosmos_types;
use crate::rlp;
use crate::rlp::{RlpError, RlpErrorView};
use crate::rlp_codec;
use crate::txpool::raw;

verus! {

/// The longest frame that either side accepts.
pub const MAX_FRAME_LENGTH: usize = 67_108_864;

/// How long the server waits after it failed to accept a connection.
pub const ACCEPT_RETRY_MILLIS: u64 = 100;

/// The first frame of the server.
#[derive(Clone, Debug, Default, PartialEq, Eq)]
pub struct CosmosTxPoolSnapshot {}

/// One transaction.
#[derive(Clone, Debug, PartialEq, Eq)]
pub struct CosmosTxPoolIpcTx {
    pub tx: Vec<u8>,
}

/// One transaction, and whether its sender waits for the check.
#[derive(Clone, Debug, PartialEq, Eq)]
pub struct CosmosTxPoolIpcRequest {
    pub tx: Vec<u8>,
    pub sync: bool,
}

/// The frame of a transaction.
pub open spec fn tx_frame(tx: Seq<u8>) -> Seq<u8> {
    rlp::rlp_list(rlp::rlp_byte_list(tx))
}

/// The item of a flag.
pub open spec fn flag_item(flag: bool) -> Seq<u8> {
    rlp::rlp_uint(if flag { 1 } else { 0 })
}

/// The frame of a transaction with a flag.
pub open spec fn request_frame(tx: Seq<u8>, sync: bool) -> Seq<u8> {
    rlp::rlp_list(rlp::rlp_byte_list(tx) + flag_item(sync))
}

/// What a decoder of [`CosmosTxPoolIpcTx`] makes of a frame.
pub open spec fn parse_tx_frame(frame: Seq<u8>) -> Result<Seq<u8>, RlpErrorView> {
    match rlp_codec::parse_list_header(frame) {
        Ok((n, body)) => match rlp_codec::parse_byte_list(body) {
            Ok((tx, rest)) => if body.len() - rest.len() != n {
                Err(
                    RlpErrorView::ListLengthMismatch {
                        expected: n,
                        got: (body.len() - rest.len()) as usize,
                    },
                )
            } else if rest.len() > 0 {
                Err(RlpErrorView::UnexpectedLength)
            } else {
                Ok(tx)
            },
            Err(e) => Err(e),
        },
        Err(e) => Err(e),
    }
}

/// What a decoder of [`CosmosTxPoolIpcRequest`] makes of a frame.
pub open spec fn parse_request_frame(frame: Seq<u8>) -> Result<(Seq<u8>, bool), RlpErrorView> {
    match rlp_codec::parse_list_header(frame) {
        Ok((n, body)) => match rlp_codec::parse_byte_list(body) {
            Ok((tx, tail)) => match rlp_codec::parse_bool(tail) {
                Ok((sync, rest)) => if body.len() - rest.len() != n {
                    Err(
                        RlpErrorView::ListLengthMismatch {
                            expected: n,
                            got: (body.len() - rest.len()) as usize,
                        },
                    )
                } else if rest.len() > 0 {
                    Err(RlpErrorView::UnexpectedLength)
                } else {
                    Ok((tx, sync))
                },
                Err(e) => Err(e),
            },
            Err(e) => Err(e),
        },
        Err(e) => Err(e),
    }
}

impl CosmosTxPoolIpcTx {
    /// The frame of this transaction.
    pub fn encode(&self) -> (out: Vec<u8>)
        ensures
            out@ == tx_frame(self.tx@),
    {
        rlp_codec::encode_list(rlp_codec::encode_byte_list(self.tx.as_slice()))
    }

    /// Decodes a frame that holds one transaction and nothing else.
    pub fn decode_exact(frame: &[u8]) -> (r: Result<Self, RlpError>)
        ensures
            match r {
                Ok(v) => parse_tx_frame(frame@) == Ok::<Seq<u8>, RlpErrorView>(v.tx@),
                Err(e) => parse_tx_frame(frame@) == Err::<Seq<u8>, RlpErrorView>(e@),
            },
    {
        let (n, body) = match rlp_codec::take_list_header(frame) {
            Ok(split) => split,
            Err(e) => {
                return Err(e);
            },
        };
        match rlp_codec::take_byte_list(body) {
            Ok((tx, rest)) => {
                proof {
                    rlp_codec::lemma_parse_byte_list_canonical(body@);
                }
                let consumed: usize = body.len() - rest.len();
                if consumed != n {
                    Err(RlpError::ListLengthMismatch { expected: n, got: consumed })
                } else if rest.len() > 0 {
                    Err(RlpError::UnexpectedLength)
                } else {
                    Ok(CosmosTxPoolIpcTx { tx })
                }
            },
            Err(e) => Err(e),
        }
    }
}

impl CosmosTxPoolIpcRequest {
    /// The frame of this request.
    pub fn encode(&self) -> (out: Vec<u8>)
        ensures
            out@ == request_frame(self.tx@, self.sync),
    {
        let mut payload: Vec<u8> = rlp_codec::encode_byte_list(self.tx.as_slice());
        let mut flag: Vec<u8> = rlp_codec::encode_u64(
            if self.sync {
                1
            } else {
                0
            },
        );
        payload.append(&mut flag);
        rlp_codec::encode_list(payload)
    }

    /// Decodes a frame that holds one request and nothing else.
    pub fn decode_exact(frame: &[u8]) -> (r: Result<Self, RlpError>)
        ensures
            match r {
                Ok(v) => parse_request_frame(frame@) == Ok::<(Seq<u8>, bool), RlpErrorView>(
                    (v.tx@, v.sync),
                ),
                Err(e) => parse_request_frame(frame@) == Err::<(Seq<u8>, bool), RlpErrorView>(e@),
            },
    {
        let (n, body) = match rlp_codec::take_list_header(frame) {
            Ok(split) => split,
            Err(e) => {
                return Err(e);
            },
        };
        let (tx, tail) = match rlp_codec::take_byte_list(body) {
            Ok(split) => split,
            Err(e) => {
                return Err(e);
            },
        };
        match rlp_codec::take_bool(tail) {
            Ok((sync, rest)) => {
                proof {
                    rlp_codec::lemma_parse_byte_list_canonical(body@);
                    rlp_codec::lemma_parse_u8_canonical(tail@);
                }
                let consumed: usize = body.len() - rest.len();
                if consumed != n {
                    Err(RlpError::ListLengthMismatch { expected: n, got: consumed })
                } else if rest.len() > 0 {
                    Err(RlpError::UnexpectedLength)
                } else {
                    Ok(CosmosTxPoolIpcRequest { tx, sync })
                }
            },
            Err(e) => Err(e),
        }
    }
}

/// The frames that carry some transactions, in order.
pub fn feed_frames(txs: &Vec<Vec<u8>>) -> (frames: Vec<Vec<u8>>)
    ensures
        frames@.len() == txs@.len(),
        forall|i: int| 0 <= i < txs@.len() ==> (#[trigger] frames@[i])@ == tx_frame(txs@[i]@),
{
    let mut frames: Vec<Vec<u8>> = Vec::new();
    let mut i: usize = 0;
    while i < txs.len()
        invariant
            i <= txs@.len(),
            frames@.len() == i,
            forall|j: int| 0 <= j < i ==> (#[trigger] frames@[j])@ == tx_frame(txs@[j]@),
        decreases txs@.len() - i,
    {
        let one = CosmosTxPoolIpcTx { tx: cosmos_types::copy_bytes(&txs[i]) };
        frames.push(one.encode());
        i = i + 1;
    }
    frames
}

/// The frame of a transaction whose sender waits for the check.
pub fn sync_frame(tx: Vec<u8>) -> (frame: Vec<u8>)
    ensures
        frame@ == request_frame(tx@, true),
{
    CosmosTxPoolIpcRequest { tx, sync: true }.encode()
}

/// What ends a connection before its time.
#[derive(Clone, Debug, PartialEq, Eq)]
pub enum IpcError {
    MissingSnapshot,
    InvalidSnapshot(String),
    MissingResponse,
    InvalidResponse(String),
    InvalidFrame,
    IngressClosed,
    ResponseClosed,
}

/// The broad kind of an [`IpcError`].
#[derive(Clone, Copy, Debug, PartialEq, Eq, Structural)]
pub enum IpcErrorKind {
    UnexpectedEof,
    InvalidData,
    BrokenPipe,
}

impl IpcError {
    /// The text shown to users.
    pub open spec fn text(self) -> Seq<char> {
        match self {
            IpcError::MissingSnapshot => "missing snapshot frame"@,
            IpcError::InvalidSnapshot(e) => "invalid cosmos txpool snapshot: "@ + e@,
            IpcError::MissingResponse => "missing CheckTx response frame"@,
            IpcError::InvalidResponse(e) => "invalid CheckTx response frame: "@ + e@,
            IpcError::InvalidFrame => "invalid RLP for CosmosTxPoolIpcTx"@,
            IpcError::IngressClosed => "ingress channel closed"@,
            IpcError::ResponseClosed => "CheckTx response channel closed"@,
        }
    }

    /// The error as a message.
    pub fn message(&self) -> (out: String)
        ensures
            out@ == self.text(),
    {
        match self {
            IpcError::MissingSnapshot => String::from_str("missing snapshot frame"),
            IpcError::InvalidSnapshot(e) => labelled(
                "invalid cosmos txpool snapshot: ",
                e.as_str(),
            ),
            IpcError::MissingResponse => String::from_str("missing CheckTx response frame"),
            IpcError::InvalidResponse(e) => labelled(
                "invalid CheckTx response frame: ",
                e.as_str(),
            ),
            IpcError::InvalidFrame => String::from_str("invalid RLP for CosmosTxPoolIpcTx"),
            IpcError::IngressClosed => String::from_str("ingress channel closed"),
            IpcError::ResponseClosed => String::from_str("CheckTx response channel closed"),
        }
    }

    /// The kind of this error.
    pub fn kind(&self) -> (r: IpcErrorKind)
        ensures
            r == match *self {
                IpcError::MissingSnapshot | IpcError::MissingResponse
                    => IpcErrorKind::UnexpectedEof,
                IpcError::InvalidSnapshot(_) | IpcError::InvalidResponse(_)
                | IpcError::InvalidFrame => IpcErrorKind::InvalidData,
                IpcError::IngressClosed | IpcError::ResponseClosed => IpcErrorKind::BrokenPipe,
            },
    {
        match self {
            IpcError::MissingSnapshot | IpcError::MissingResponse => IpcErrorKind::UnexpectedEof,
            IpcError::InvalidSnapshot(_) | IpcError::InvalidResponse(_) | IpcError::InvalidFrame
                => IpcErrorKind::InvalidData,
            IpcError::IngressClosed | IpcError::ResponseClosed => IpcErrorKind::BrokenPipe,
        }
    }
}

/// A transaction on its way into the pool.
pub struct CosmosTxPoolIngressTx {
    pub tx: Bytes,
    /// Whether the sender waits for the check.
    pub wants_response: bool,
}

/// What a frame holds: a request where it is one, a bare transaction where it
/// is not, and nothing that can be read otherwise.
pub open spec fn frame_contents(frame: Seq<u8>) -> Option<(Seq<u8>, bool)> {
    match parse_request_frame(frame) {
        Ok(request) => Some(request),
        Err(_) => match parse_tx_frame(frame) {
            Ok(tx) => Some((tx, false)),
            Err(_) => None,
        },
    }
}

/// Reads a frame of a client. An empty transaction is passed over.
pub fn read_frame(frame: &[u8]) -> (r: Result<Option<CosmosTxPoolIngressTx>, IpcError>)
    ensures
        match frame_contents(frame@) {
            Some((tx, sync)) => if tx.len() == 0 {
                r matches Ok(None)
            } else {
                r matches Ok(Some(ingress)) && raw::raw_bytes(ingress.tx) == tx
                    && ingress.wants_response == sync
            },
            None => r matches Err(IpcError::InvalidFrame),
        },
{
    let request: CosmosTxPoolIpcRequest = match CosmosTxPoolIpcRequest::decode_exact(frame) {
        Ok(request) => request,
        Err(_) => match CosmosTxPoolIpcTx::decode_exact(frame) {
            Ok(bare) => CosmosTxPoolIpcRequest { tx: bare.tx, sync: false },
            Err(_) => {
                return Err(IpcError::InvalidFrame);
            },
        },
    };
    if request.tx.len() == 0 {
        return Ok(None);
    }
    Ok(
        Some(
            CosmosTxPoolIngressTx {
                tx: raw::from_vec(request.tx),
                wants_response: request.sync,
            },
        ),
    )
}

/// The response to a transaction that the pool could not take.
pub open spec fn refusal(response: CheckTxResponse, log: Seq<char>) -> bool {
    &&& response.code == 1
    &&& response.data@ == Seq::<u8>::empty()
    &&& response.log@ == log
    &&& response.info@ == Seq::<char>::empty()
    &&& response.gas_wanted == 0
    &&& response.gas_used == 0
    &&& response.events@.len() == 0
    &&& response.codespace@ == "monad_txpool"@
    &&& response.lane_id@ == Seq::<char>::empty()
}

fn refuse(log: String) -> (r: CheckTxResponse)
    ensures
        refusal(r, log@),
{
    CheckTxResponse {
        code: 1,
        data: Vec::new(),
        log,
        info: String::new(),
        gas_wanted: 0,
        gas_used: 0,
        events: Vec::new(),
        codespace: String::from_str("monad_txpool"),
        lane_id: String::new(),
    }
}

/// A batch of transactions whose checks come back one by one.
pub struct CheckedBatch {
    /// The transactions that passed, in order.
    pub accepted: Vec<Bytes>,
    /// Responses that wait until the batch is in the pool, each with the place
    /// of its transaction in the batch.
    pub held: Vec<(usize, CheckTxResponse)>,
}

/// Whether the check of a transaction came back with a code of zero.
pub open spec fn passes(outcome: Result<CheckTxResponse, String>) -> bool {
    outcome matches Ok(response) && response.code == 0
}

/// Whether a sender is answered as soon as the check came back.
pub open spec fn answers_now(
    wants_response: bool,
    outcome: Result<CheckTxResponse, String>,
) -> bool {
    wants_response && !passes(outcome)
}

/// Whether a sender is answered once the batch is in the pool.
pub open spec fn answers_later(
    wants_response: bool,
    outcome: Result<CheckTxResponse, String>,
) -> bool {
    wants_response && passes(outcome)
}

/// What the outcome of the check of the transaction at `place` does to a batch,
/// and what is answered at once.
pub open spec fn check_taken(
    before: CheckedBatch,
    after: CheckedBatch,
    place: usize,
    ingress: CosmosTxPoolIngressTx,
    outcome: Result<CheckTxResponse, String>,
    now: Option<CheckTxResponse>,
) -> bool {
    &&& after.accepted@ == if passes(outcome) {
        before.accepted@.push(ingress.tx)
    } else {
        before.accepted@
    }
    &&& after.held@ == if answers_later(ingress.wants_response, outcome) {
        before.held@.push((place, outcome->Ok_0))
    } else {
        before.held@
    }
    &&& now is Some <==> answers_now(ingress.wants_response, outcome)
    &&& now matches Some(response) ==> match outcome {
        Ok(check) => response == check,
        Err(e) => refusal(response, "CheckTx transport error: "@ + e@),
    }
}

/// Whether these are the responses at the end of a batch.
pub open spec fn batch_finished(
    batch: CheckedBatch,
    delivered: bool,
    responses: Seq<(usize, CheckTxResponse)>,
) -> bool {
    &&& responses.len() == batch.held@.len()
    &&& delivered ==> responses == batch.held@
    &&& !delivered ==> forall|i: int|
        0 <= i < batch.held@.len() ==> (#[trigger] responses[i]).0 == batch.held@[i].0 && refusal(
            responses[i].1,
            "txpool ingress channel closed"@,
        )
}

impl CheckedBatch {
    /// Responses wait only for transactions that passed.
    pub open spec fn wf(self) -> bool {
        self.held@.len() <= self.accepted@.len()
    }

    /// A batch of which nothing was checked yet.
    pub fn new() -> (r: Self)
        ensures
            r.wf(),
            r.accepted@ == Seq::<Bytes>::empty(),
            r.held@ == Seq::<(usize, CheckTxResponse)>::empty(),
    {
        CheckedBatch { accepted: Vec::new(), held: Vec::new() }
    }

    /// Takes the outcome of the check of the transaction at `place`. The result
    /// is the response to send at once, if any: a transaction that passed is
    /// answered later.
    pub fn checked(
        &mut self,
        place: usize,
        ingress: CosmosTxPoolIngressTx,
        outcome: Result<CheckTxResponse, String>,
    ) -> (now: Option<CheckTxResponse>)
        requires
            old(self).wf(),
        ensures
            final(self).wf(),
            check_taken(*old(self), *final(self), place, ingress, outcome, now),
    {
        let CosmosTxPoolIngressTx { tx, wants_response } = ingress;
        match outcome {
            Ok(response) => {
                if response.code == 0 {
                    self.accepted.push(tx);
                    if wants_response {
                        self.held.push((place, response));
                    }
                    None
                } else if wants_response {
                    Some(response)
                } else {
                    None
                }
            },
            Err(e) => if wants_response {
                Some(refuse(labelled("CheckTx transport error: ", e.as_str())))
            } else {
                None
            },
        }
    }

    /// Whether there is anything to hand to the pool.
    pub fn has_accepted(&self) -> (r: bool)
        ensures
            r == (self.accepted@.len() > 0),
    {
        self.accepted.len() > 0
    }

    /// The responses to send once the accepted transactions are in the pool, or
    /// the pool turned out to be gone. Only where they are in, the checks count.
    pub fn finish(self, delivered: bool) -> (responses: Vec<(usize, CheckTxResponse)>)
        ensures
            batch_finished(self, delivered, responses@),
    {
        if delivered {
            return self.held;
        }
        let held: Vec<(usize, CheckTxResponse)> = self.held;
        let mut responses: Vec<(usize, CheckTxResponse)> = Vec::new();
        let mut i: usize = 0;
        while i < held.len()
            invariant
                i <= held@.len(),
                held@ == self.held@,
                responses@.len() == i,
                forall|j: int|
                    0 <= j < i ==> (#[trigger] responses@[j]).0 == held@[j].0 && refusal(
                        responses@[j].1,
                        "txpool ingress channel closed"@,
                    ),
            decreases held@.len() - i,
        {
            responses.push(
                (held[i].0, refuse(String::from_str("txpool ingress channel closed"))),
            );
            i = i + 1;
        }
        responses
    }
}

/// A transaction comes out of its frame as it went in, and nobody waits for it.
pub proof fn tx_frame_roundtrip(tx: Seq<u8>)
    requires
        rlp::rlp_byte_list(tx).len() <= usize::MAX,
    ensures
        parse_tx_frame(tx_frame(tx)) == Ok::<Seq<u8>, RlpErrorView>(tx),
        frame_contents(tx_frame(tx)) == Some((tx, false)),
{
    let payload = rlp::rlp_byte_list(tx);
    let none = Seq::<u8>::empty();
    assert(payload + none =~= payload);
    rlp_codec::lemma_parse_list_header(payload.len() as usize, payload);
    assert(rlp::rlp_byte_list(tx).len() >= rlp::rlp_uint_items(tx).len());
    rlp_codec::lemma_parse_byte_list(tx, none);
    if let Ok((v, rest)) = rlp_codec::parse_u8(none) {
        rlp_codec::lemma_parse_u8_canonical(none);
        assert(rlp::rlp_uint(v as nat).len() > 0);
        assert(none.len() == rlp::rlp_uint(v as nat).len() + rest.len());
    }
}

/// A request comes out of its frame as it went in.
pub proof fn request_frame_roundtrip(tx: Seq<u8>, sync: bool)
    requires
        rlp::rlp_byte_list(tx).len() + 1 <= usize::MAX,
    ensures
        frame_contents(request_frame(tx, sync)) == Some((tx, sync)),
{
    let flag: u8 = if sync {
        1
    } else {
        0
    };
    let item = flag_item(sync);
    let payload = rlp::rlp_byte_list(tx) + item;
    let none = Seq::<u8>::empty();
    lemma_flag_item(sync);
    rlp_codec::lemma_parse_list_header(payload.len() as usize, payload);
    assert(rlp::rlp_byte_list(tx).len() >= rlp::rlp_uint_items(tx).len());
    rlp_codec::lemma_parse_byte_list(tx, item);
    rlp_codec::lemma_parse_u8(flag, none);
    assert(item + none =~= item);
}

proof fn lemma_flag_item(flag: bool)
    ensures
        flag_item(flag).len() == 1,
{
    reveal_with_fuel(rlp::be_bytes, 3);
}

/// Whether `run` are the states of a batch while its transactions are checked
/// one by one, and `now` what was answered at once.
pub open spec fn batch_run(
    run: Seq<CheckedBatch>,
    ingress: Seq<CosmosTxPoolIngressTx>,
    outcomes: Seq<Result<CheckTxResponse, String>>,
    now: Seq<Option<CheckTxResponse>>,
) -> bool {
    &&& run.len() == ingress.len() + 1
    &&& outcomes.len() == ingress.len()
    &&& now.len() == ingress.len()
    &&& ingress.len() <= usize::MAX
    &&& run[0].held@ == Seq::<(usize, CheckTxResponse)>::empty()
    &&& forall|i: int|
        0 <= i < ingress.len() ==> check_taken(
            #[trigger] run[i],
            run[i + 1],
            i as usize,
            ingress[i],
            outcomes[i],
            now[i],
        )
}

/// Whether the sender of the transaction at `place` gets one of these responses.
pub open spec fn answers(responses: Seq<(usize, CheckTxResponse)>, place: int) -> bool {
    exists|j: int| 0 <= j < responses.len() && (#[trigger] responses[j]).0 == place
}

/// Whether no two of these responses go to one place, and all go to places
/// below `n`.
pub open spec fn once_each(responses: Seq<(usize, CheckTxResponse)>, n: int) -> bool {
    &&& forall|j: int, k: int|
        0 <= j < k < responses.len() ==> (#[trigger] responses[j]).0 != (#[trigger] responses[k]).0
    &&& forall|j: int| 0 <= j < responses.len() ==> (#[trigger] responses[j]).0 < n
}

/// The responses that are held after `n` checks are those of the first `n`
/// transactions that passed and whose senders wait.
proof fn lemma_held(
    run: Seq<CheckedBatch>,
    ingress: Seq<CosmosTxPoolIngressTx>,
    outcomes: Seq<Result<CheckTxResponse, String>>,
    now: Seq<Option<CheckTxResponse>>,
    n: int,
)
    requires
        batch_run(run, ingress, outcomes, now),
        0 <= n <= ingress.len(),
    ensures
        once_each(run[n].held@, n),
        forall|i: int| #[trigger]
            answers(run[n].held@, i) <==> 0 <= i < n && answers_later(
                ingress[i].wants_response,
                outcomes[i],
            ),
    decreases n,
{
    if n > 0 {
        let last = n - 1;
        lemma_held(run, ingress, outcomes, now, last);
        let before = run[last].held@;
        let after = run[n].held@;
        assert(check_taken(
            run[last],
            run[last + 1],
            last as usize,
            ingress[last],
            outcomes[last],
            now[last],
        ));
        assert forall|i: int| #[trigger] answers(after, i) <==> 0 <= i < n && answers_later(
            ingress[i].wants_response,
            outcomes[i],
        ) by {
            assert(answers(before, i) <==> 0 <= i < last && answers_later(
                ingress[i].wants_response,
                outcomes[i],
            ));
            if answers(before, i) {
                let j = choose|j: int| 0 <= j < before.len() && (#[trigger] before[j]).0 == i;
                assert(after[j].0 == i);
            }
            if i == last && after.len() > before.len() {
                assert(after[before.len() as int].0 == i);
            }
            if answers(after, i) && i != last {
                let j = choose|j: int| 0 <= j < after.len() && (#[trigger] after[j]).0 == i;
                assert(before[j].0 == i);
            }
        }
    }
}

/// Every sender that waits is answered exactly once: as soon as the check came
/// back where its transaction did not pass, at the end of the batch where it
/// did. No other sender is answered.
pub proof fn waiting_senders_are_answered_once(
    run: Seq<CheckedBatch>,
    ingress: Seq<CosmosTxPoolIngressTx>,
    outcomes: Seq<Result<CheckTxResponse, String>>,
    now: Seq<Option<CheckTxResponse>>,
    delivered: bool,
    responses: Seq<(usize, CheckTxResponse)>,
)
    requires
        batch_run(run, ingress, outcomes, now),
        batch_finished(run.last(), delivered, responses),
    ensures
        once_each(responses, ingress.len() as int),
        forall|i: int|
            0 <= i < ingress.len() ==> {
                &&& (#[trigger] ingress[i]).wants_response <==> now[i] is Some || answers(
                    responses,
                    i,
                )
                &&& !(now[i] is Some && answers(responses, i))
            },
{
    let n = ingress.len() as int;
    let held = run.last().held@;
    lemma_held(run, ingress, outcomes, now, n);
    assert forall|j: int| 0 <= j < responses.len() implies (#[trigger] responses[j]).0
        == held[j].0 by {}
    assert forall|i: int| answers(responses, i) <==> answers(held, i) by {
        if answers(responses, i) {
            let j = choose|j: int| 0 <= j < responses.len() && (#[trigger] responses[j]).0 == i;
            assert(held[j].0 == i);
        }
        if answers(held, i) {
            let j = choose|j: int| 0 <= j < held.len() && (#[trigger] held[j]).0 == i;
            assert(responses[j].0 == i);
        }
    }
    assert forall|i: int| 0 <= i < n implies {
        &&& (#[trigger] ingress[i]).wants_response <==> now[i] is Some || answers(responses, i)
        &&& !(now[i] is Some && answers(responses, i))
    } by {
        assert(check_taken(run[i], run[i + 1], i as usize, ingress[i], outcomes[i], now[i]));
        assert(answers(held, i) <==> answers(responses, i));
    }
}

/// A check is taken by its code: a transaction goes on if and only if its check
/// came back with zero. A sender that waits is answered at once with what came
/// back otherwise, or with a refusal where nothing did, and after the batch
/// where its transaction went on.
pub proof fn checks_are_taken_by_their_code(
    before: CheckedBatch,
    after: CheckedBatch,
    place: usize,
    ingress: CosmosTxPoolIngressTx,
    outcome: Result<CheckTxResponse, String>,
    now: Option<CheckTxResponse>,
)
    requires
        check_taken(before, after, place, ingress, outcome, now),
    ensures
        match outcome {
            Ok(check) => if check.code == 0 {
                &&& after.accepted@ == before.accepted@.push(ingress.tx)
                &&& after.held@ == if ingress.wants_response {
                    before.held@.push((place, check))
                } else {
                    before.held@
                }
                &&& now is None
            } else {
                &&& after.accepted@ == before.accepted@
                &&& after.held@ == before.held@
                &&& now == if ingress.wants_response {
                    Some(check)
                } else {
                    None
                }
            },
            Err(e) => {
                &&& after.accepted@ == before.accepted@
                &&& after.held@ == before.held@
                &&& now is Some <==> ingress.wants_response
                &&& now matches Some(response) ==> response.code == 1 && response.log@
                    == "CheckTx transport error: "@ + e@ && response.codespace@ == "monad_txpool"@
                    && response.data@.len() == 0 && response.events@.len() == 0
                    && response.gas_wanted == 0 && response.gas_used == 0
                    && response.info@.len() == 0 && response.lane_id@.len() == 0
            },
        },
{
}

/// The senders that wait at the end of a batch get what the check of their
/// transaction said if the batch was delivered, and a refusal otherwise, each
/// at its place.
pub proof fn held_answers_go_to_their_places(
    batch: CheckedBatch,
    delivered: bool,
    responses: Seq<(usize, CheckTxResponse)>,
)
    requires
        batch_finished(batch, delivered, responses),
    ensures
        responses.len() == batch.held@.len(),
        forall|i: int|
            0 <= i < responses.len() ==> {
                &&& (#[trigger] responses[i]).0 == batch.held@[i].0
                &&& delivered ==> responses[i].1 == batch.held@[i].1
                &&& !delivered ==> responses[i].1.code == 1 && responses[i].1.log@
                    == "txpool ingress channel closed"@ && responses[i].1.codespace@
                    == "monad_txpool"@
            },
{
}

/// Only the one encoding of a transaction is a frame of it: a frame is read if
/// and only if it is a list with the transaction, or with the transaction and
/// a flag, and nothing behind them.
pub proof fn frames_are_canonical(frame: Seq<u8>)
    ensures
        parse_tx_frame(frame) matches Ok(tx) ==> frame == tx_frame(tx),
        parse_request_frame(frame) matches Ok((tx, sync)) ==> frame == request_frame(tx, sync),
        frame_contents(frame) matches Some((tx, sync)) ==> frame == request_frame(tx, sync) || (
        !sync && frame == tx_frame(tx)),
{
    rlp_codec::lemma_parse_list_header_canonical(frame);
    if let Ok((n, body)) = rlp_codec::parse_list_header(frame) {
        rlp_codec::lemma_parse_byte_list_canonical(body);
        if let Ok((tx, tail)) = rlp_codec::parse_byte_list(body) {
            if parse_tx_frame(frame) is Ok {
                assert(body =~= rlp::rlp_byte_list(tx));
            }
            rlp_codec::lemma_parse_u8_canonical(tail);
            if let Ok((v, rest)) = rlp_codec::parse_u8(tail) {
                if parse_request_frame(frame) is Ok {
                    assert(tail =~= rlp::rlp_uint(v as nat));
                    assert(body =~= rlp::rlp_byte_list(tx) + rlp::rlp_uint(v as nat));
                }
            }
        }
    }
}

/// A frame holds sixty-four mebibytes at most, and a failed accept is tried
/// again after a tenth of a second.
pub proof fn frames_are_bounded()
    ensures
        MAX_FRAME_LENGTH == 64 * 1024 * 1024,
        ACCEPT_RETRY_MILLIS == 100,
{
}

/// Bytes behind a frame's list, and behind what is in it, are refused.
pub proof fn stray_bytes_are_refused(tx: Seq<u8>, stray: Seq<u8>)
    requires
        rlp::rlp_byte_list(tx).len() + stray.len() <= usize::MAX,
        stray.len() > 0,
    ensures
        parse_tx_frame(tx_frame(tx) + stray) == Err::<Seq<u8>, RlpErrorView>(
            RlpErrorView::UnexpectedLength,
        ),
        parse_tx_frame(rlp::rlp_list(rlp::rlp_byte_list(tx) + stray)) == Err::<
            Seq<u8>,
            RlpErrorView,
        >(
            RlpErrorView::ListLengthMismatch {
                expected: (rlp::rlp_byte_list(tx).len() + stray.len()) as usize,
                got: rlp::rlp_byte_list(tx).len() as usize,
            },
        ),
{
    let payload = rlp::rlp_byte_list(tx);
    let all = payload + stray;
    rlp_codec::lemma_parse_list_header(payload.len() as usize, all);
    rlp_codec::lemma_parse_list_header(all.len() as usize, all);
    assert(tx_frame(tx) + stray =~= rlp::rlp_header(true, payload.len()) + all);
    assert(rlp::rlp_byte_list(tx).len() >= rlp::rlp_uint_items(tx).len());
    rlp_codec::lemma_parse_byte_list(tx, stray);
}

/// Each error of the socket is told in its own words, with its details behind
/// them.
pub proof fn socket_errors_are_told_in_words(s: String)
    ensures
        IpcError::MissingSnapshot.text() == "missing snapshot frame"@,
        IpcError::InvalidSnapshot(s).text() == "invalid cosmos txpool snapshot: "@ + s@,
        IpcError::MissingResponse.text() == "missing CheckTx response frame"@,
        IpcError::InvalidResponse(s).text() == "invalid CheckTx response frame: "@ + s@,
        IpcError::InvalidFrame.text() == "invalid RLP for CosmosTxPoolIpcTx"@,
        IpcError::IngressClosed.text() == "ingress channel closed"@,
        IpcError::ResponseClosed.text() == "CheckTx response channel closed"@,
{
}

} // verus!
