//! Broadcasting of transactions: from the text that a client sent to the bytes
//! for the transaction pool, and from the pool's answer to the response.
use vstd::prelude::*;

use crate::abci::error::labelled;
use crate::abci::messages::CheckTxResponse;
use crate::byte_text;
use crate::cosmos_types;
use crate::node_rpc::resources::NodeRpcResources;
use crate::node_rpc::types::{
    CometErrorResponse, CometResponse, ResultBroadcastTx, INTERNAL_ERROR, INVALID_PARAMS,
};
use crate::text;

verus! {

/// Why some bytes cannot be a transaction at all, if that shows at the start:
/// a transaction is a protobuf message whose first field is length-delimited.
pub open spec fn flaw(bytes: Seq<u8>) -> Option<Seq<char>> {
    if bytes.len() < 2 {
        Some("tx too short to be a valid protobuf message"@)
    } else if bytes[0] % 8 != 2 {
        Some("first protobuf field is not length-delimited (not a TxRaw)"@)
    } else {
        None
    }
}

/// The transaction in the decoded bytes, or the message for the client.
pub open spec fn tx_of_bytes(bytes: Seq<u8>) -> Result<Seq<u8>, Seq<char>> {
    if bytes.len() == 0 {
        Err("tx must not be empty"@)
    } else {
        match flaw(bytes) {
            Some(reason) => Err("invalid tx: "@ + reason),
            None => Ok(bytes),
        }
    }
}

/// The bytes that a text stands for, or the message for the client: hexadecimal
/// digits behind `0x` or `0X`, base64 otherwise.
pub open spec fn bytes_of_text(trimmed: Seq<char>) -> Result<Seq<u8>, Seq<char>> {
    if "0x"@.is_prefix_of(trimmed) || "0X"@.is_prefix_of(trimmed) {
        match byte_text::hex_decoded(trimmed.skip(2)) {
            Ok(b) => Ok(b),
            Err(e) => Err("hex decode error: "@ + e),
        }
    } else {
        match byte_text::base64_decoded(trimmed) {
            Ok(b) => Ok(b),
            Err(e) => Err("base64 decode error: "@ + e),
        }
    }
}

/// The transaction that a client sent, or the message for the client. White
/// space around the text does not count.
pub open spec fn tx_of_text(tx: Seq<char>) -> Result<Seq<u8>, Seq<char>> {
    match bytes_of_text(text::trim_of(tx)) {
        Ok(b) => tx_of_bytes(b),
        Err(e) => Err(e),
    }
}

/// Checks that bytes look like a transaction, as far as that shows at a glance.
pub fn lightweight_tx_check(bytes: &[u8]) -> (r: Result<(), &'static str>)
    ensures
        match r {
            Ok(_) => flaw(bytes@) is None,
            Err(reason) => flaw(bytes@) == Some(reason@),
        },
{
    if bytes.len() < 2 {
        return Err("tx too short to be a valid protobuf message");
    }
    let first: u8 = bytes[0];
    assert(first & 7 == first % 8) by (bit_vector);
    let wire_type: u8 = first & 7;
    if wire_type != 2 {
        return Err("first protobuf field is not length-delimited (not a TxRaw)");
    }
    Ok(())
}

/// The transaction in decoded bytes, or the response that refuses them.
pub fn check_decoded(bytes: Vec<u8>, id: i64) -> (r: Result<Vec<u8>, CometErrorResponse>)
    ensures
        match r {
            Ok(tx) => tx_of_bytes(bytes@) == Ok::<Seq<u8>, Seq<char>>(tx@),
            Err(response) => tx_of_bytes(bytes@) matches Err(message) && response.says(
                id,
                INVALID_PARAMS,
                message,
            ),
        },
{
    if bytes.len() == 0 {
        return Err(
            CometErrorResponse::invalid_params(id, String::from_str("tx must not be empty")),
        );
    }
    match lightweight_tx_check(bytes.as_slice()) {
        Ok(_) => Ok(bytes),
        Err(reason) => Err(
            CometErrorResponse::invalid_params(id, labelled("invalid tx: ", reason)),
        ),
    }
}

/// Decodes a hexadecimal or base64 text and checks what comes out.
pub fn decode_tx(tx: &str, id: i64) -> (r: Result<Vec<u8>, CometErrorResponse>)
    ensures
        match r {
            Ok(b) => tx_of_text(tx@) == Ok::<Seq<u8>, Seq<char>>(b@),
            Err(response) => tx_of_text(tx@) matches Err(message) && response.says(
                id,
                INVALID_PARAMS,
                message,
            ),
        },
{
    let trimmed: &str = text::trim(tx);
    proof {
        reveal_strlit("0x");
        reveal_strlit("0X");
    }
    let digits: Option<&str> = match text::strip_prefix(trimmed, "0x") {
        Some(s) => Some(s),
        None => text::strip_prefix(trimmed, "0X"),
    };
    match digits {
        Some(s) => match byte_text::decode_hex(s) {
            Ok(bytes) => check_decoded(bytes, id),
            Err(e) => Err(
                CometErrorResponse::invalid_params(id, labelled("hex decode error: ", e.as_str())),
            ),
        },
        None => match byte_text::decode_base64(trimmed) {
            Ok(bytes) => {
                proof {
                    let b = choose|b: Seq<u8>| trimmed@ == #[trigger] byte_text::base64_text(b);
                    byte_text::base64_is_injective(b, bytes@);
                }
                check_decoded(bytes, id)
            },
            Err(e) => Err(
                CometErrorResponse::invalid_params(
                    id,
                    labelled("base64 decode error: ", e.as_str()),
                ),
            ),
        },
    }
}

/// The SHA-256 of a raw transaction, by which CometBFT knows it.
pub fn tx_hash(tx_bytes: &[u8]) -> (out: [u8; 32])
    ensures
        out@ == cosmos_types::sha256(tx_bytes@),
{
    cosmos_types::sha256_digest(tx_bytes)
}

/// A transaction that is to be sent to the transaction pool.
#[derive(Clone, Debug, PartialEq, Eq)]
pub struct ForwardTx {
    /// The socket of the pool.
    pub ipc_path: String,
    pub tx: Vec<u8>,
    pub hash: [u8; 32],
    /// The identifier of the request.
    pub id: i64,
}

impl ForwardTx {
    /// Whether this hands on the bytes `tx` for the request `id`.
    pub open spec fn carries(self, ipc_path: Seq<char>, tx: Seq<u8>, id: i64) -> bool {
        &&& self.ipc_path@ == ipc_path
        &&& self.tx@ == tx
        &&& self.hash@ == cosmos_types::sha256(tx)
        &&& self.id == id
    }

    /// The response once the transaction was sent, or could not be.
    pub fn sent(self, outcome: Result<(), String>) -> (r: Result<
        CometResponse<ResultBroadcastTx>,
        CometErrorResponse,
    >)
        ensures
            match outcome {
                Ok(_) => {
                    &&& r matches Ok(response)
                    &&& response.jsonrpc@ == "2.0"@
                    &&& response.id == self.id
                    &&& response.result.code == 0
                    &&& response.result.data@ == Seq::<char>::empty()
                    &&& response.result.log@ == Seq::<char>::empty()
                    &&& response.result.codespace@ == Seq::<char>::empty()
                    &&& response.result.hash@ == byte_text::hex_text(self.hash@, true)
                },
                Err(e) => r matches Err(response) && response.says(
                    self.id,
                    INTERNAL_ERROR,
                    "failed to forward tx to mempool: "@ + e@,
                ),
            },
    {
        match outcome {
            Ok(_) => Ok(CometResponse::with_id(self.id, ResultBroadcastTx::accepted(self.hash))),
            Err(e) => Err(forward_failed(self.id, e.as_str())),
        }
    }

    /// The response once the check of the transaction came back, or did not.
    pub fn checked(self, outcome: Result<CheckTxResponse, String>) -> (r: Result<
        CometResponse<ResultBroadcastTx>,
        CometErrorResponse,
    >)
        ensures
            match outcome {
                Ok(check) => {
                    &&& r matches Ok(response)
                    &&& response.jsonrpc@ == "2.0"@
                    &&& response.id == self.id
                    &&& response.result.code == check.code
                    &&& response.result.data@ == byte_text::hex_text(check.data@, false)
                    &&& response.result.log == check.log
                    &&& response.result.codespace == check.codespace
                    &&& response.result.hash@ == byte_text::hex_text(self.hash@, true)
                },
                Err(e) => r matches Err(response) && response.says(
                    self.id,
                    INTERNAL_ERROR,
                    "failed to forward tx to mempool: "@ + e@,
                ),
            },
    {
        match outcome {
            Ok(check) => Ok(
                CometResponse::with_id(
                    self.id,
                    ResultBroadcastTx::from_check_tx(self.hash, check),
                ),
            ),
            Err(e) => Err(forward_failed(self.id, e.as_str())),
        }
    }
}

fn forward_failed(id: i64, reason: &str) -> (r: CometErrorResponse)
    ensures
        r.says(id, INTERNAL_ERROR, "failed to forward tx to mempool: "@ + reason@),
{
    CometErrorResponse::internal(id, labelled("failed to forward tx to mempool: ", reason))
}

/// What a broadcast comes to before anything is sent: the transaction for the
/// pool, or the response that refuses it. A text that holds no transaction is
/// refused first, then a pool that cannot be reached.
pub open spec fn prepared(
    path: Option<Seq<char>>,
    tx: Seq<char>,
    id: i64,
    r: Result<ForwardTx, CometErrorResponse>,
) -> bool {
    match tx_of_text(tx) {
        Err(message) => r matches Err(response) && response.says(id, INVALID_PARAMS, message),
        Ok(bytes) => match path {
            None => r matches Err(response) && response.says(
                id,
                INTERNAL_ERROR,
                "cosmos IPC path not configured; broadcast unavailable"@,
            ),
            Some(path) => r matches Ok(forward) && forward.carries(path, bytes, id),
        },
    }
}

/// The text of a path, if there is one.
pub open spec fn path_view(path: Option<String>) -> Option<Seq<char>> {
    match path {
        Some(p) => Some(p@),
        None => None,
    }
}

/// Prepares a transaction for the pool at `path`.
pub fn prepare(path: Option<&String>, tx: &str, id: i64) -> (r: Result<
    ForwardTx,
    CometErrorResponse,
>)
    ensures
        prepared(
            match path {
                Some(p) => Some(p@),
                None => None,
            },
            tx@,
            id,
            r,
        ),
{
    let bytes: Vec<u8> = match decode_tx(tx, id) {
        Ok(bytes) => bytes,
        Err(response) => {
            return Err(response);
        },
    };
    let hash: [u8; 32] = tx_hash(bytes.as_slice());
    match path {
        Some(p) => Ok(ForwardTx { ipc_path: p.clone(), tx: bytes, hash, id }),
        None => Err(
            CometErrorResponse::internal(
                id,
                String::from_str("cosmos IPC path not configured; broadcast unavailable"),
            ),
        ),
    }
}

/// Prepares a broadcast that does not wait for the check; it goes on with
/// [`ForwardTx::sent`].
pub fn broadcast_tx_async(resources: &NodeRpcResources, tx: &str, id: i64) -> (r: Result<
    ForwardTx,
    CometErrorResponse,
>)
    ensures
        prepared(path_view(resources.cosmos_ipc_path), tx@, id, r),
{
    prepare(resources.cosmos_ipc_path.as_ref(), tx, id)
}

/// Prepares a broadcast that waits for the check; it goes on with
/// [`ForwardTx::checked`].
pub fn broadcast_tx_sync(resources: &NodeRpcResources, tx: &str, id: i64) -> (r: Result<
    ForwardTx,
    CometErrorResponse,
>)
    ensures
        prepared(path_view(resources.cosmos_ipc_path), tx@, id, r),
{
    prepare(resources.cosmos_ipc_path.as_ref(), tx, id)
}

/// Bytes have no flaw if and only if there are at least two of them and the low
/// three bits of the first one are two. Otherwise the reason says which of the
/// two is wrong.
pub proof fn flawless_bytes(bytes: Seq<u8>)
    ensures
        flaw(bytes) is None <==> bytes.len() >= 2 && bytes[0] & 7 == 2,
        bytes.len() < 2 ==> flaw(bytes) == Some("tx too short to be a valid protobuf message"@),
        bytes.len() >= 2 && bytes[0] & 7 != 2 ==> flaw(bytes) == Some(
            "first protobuf field is not length-delimited (not a TxRaw)"@,
        ),
{
    if bytes.len() >= 2 {
        let first = bytes[0];
        assert(first & 7 == first % 8) by (bit_vector);
    }
}

/// Decoded bytes are the transaction if and only if there are at least two of
/// them and the low three bits of the first one are two; otherwise the client
/// is told what is wrong with them.
pub proof fn sound_bytes_are_the_transaction(bytes: Seq<u8>)
    ensures
        bytes.len() >= 2 && bytes[0] & 7 == 2 ==> tx_of_bytes(bytes) == Ok::<Seq<u8>, Seq<char>>(
            bytes,
        ),
        bytes.len() == 0 ==> tx_of_bytes(bytes) == Err::<Seq<u8>, Seq<char>>(
            "tx must not be empty"@,
        ),
        bytes.len() == 1 ==> tx_of_bytes(bytes) == Err::<Seq<u8>, Seq<char>>(
            "invalid tx: "@ + "tx too short to be a valid protobuf message"@,
        ),
        bytes.len() >= 2 && bytes[0] & 7 != 2 ==> tx_of_bytes(bytes) == Err::<
            Seq<u8>,
            Seq<char>,
        >("invalid tx: "@ + "first protobuf field is not length-delimited (not a TxRaw)"@),
{
    flawless_bytes(bytes);
}

/// Whether a text is nothing but white space.
pub open spec fn blank(s: Seq<char>) -> bool {
    forall|i: int| 0 <= i < s.len() ==> text::is_white(#[trigger] s[i])
}

proof fn lemma_trim_start(before: Seq<char>, s: Seq<char>)
    requires
        blank(before),
        s.len() > 0,
        !text::is_white(s[0]),
    ensures
        text::trim_start_of(before + s) == s,
    decreases before.len(),
{
    if before.len() > 0 {
        assert((before + s)[0] == before[0]);
        assert((before + s).skip(1) =~= before.skip(1) + s);
        assert(blank(before.skip(1)));
        lemma_trim_start(before.skip(1), s);
    } else {
        assert(before + s =~= s);
    }
}

proof fn lemma_trim_end(s: Seq<char>, after: Seq<char>)
    requires
        blank(after),
        s.len() > 0,
        !text::is_white(s.last()),
    ensures
        text::trim_end_of(s + after) == s,
    decreases after.len(),
{
    if after.len() > 0 {
        assert((s + after).last() == after[after.len() - 1]);
        assert((s + after).drop_last() =~= s + after.drop_last());
        assert(blank(after.drop_last()));
        lemma_trim_end(s, after.drop_last());
    } else {
        assert(s + after =~= s);
    }
}

/// White space around a text is cut off.
proof fn lemma_trim_keeps(before: Seq<char>, s: Seq<char>, after: Seq<char>)
    requires
        blank(before),
        blank(after),
        s.len() > 0,
        !text::is_white(s[0]),
        !text::is_white(s.last()),
    ensures
        text::trim_of(before + s + after) == s,
{
    assert(before + s + after =~= before + (s + after));
    lemma_trim_start(before, s + after);
    lemma_trim_end(s, after);
}

/// Every transaction that looks like one gets through in base64, whatever
/// white space is around it.
pub proof fn base64_gets_through(tx: Seq<u8>, before: Seq<char>, after: Seq<char>)
    requires
        tx.len() >= 2,
        tx[0] & 7 == 2,
        blank(before),
        blank(after),
    ensures
        tx_of_text(before + byte_text::base64_text(tx) + after) == Ok::<Seq<u8>, Seq<char>>(tx),
{
    let s = byte_text::base64_text(tx);
    flawless_bytes(tx);
    byte_text::lemma_base64_ends(tx);
    lemma_trim_keeps(before, s, after);
    reveal_strlit("0x");
    reveal_strlit("0X");
    if "0x"@.is_prefix_of(s) || "0X"@.is_prefix_of(s) {
        assert(s[0] == s.subrange(0, 2)[0] && s[1] == s.subrange(0, 2)[1]);
        byte_text::lemma_base64_first(tx);
        assert(false);
    }
    let b = choose|b: Seq<u8>| s == #[trigger] byte_text::base64_text(b);
    byte_text::base64_is_injective(b, tx);
}

/// The mark in front of hexadecimal digits.
pub open spec fn hex_mark(upper: bool) -> Seq<char> {
    if upper {
        "0X"@
    } else {
        "0x"@
    }
}

/// Every transaction that looks like one gets through in hexadecimal behind
/// `0x` or `0X`, with digits in either case, whatever white space is around it.
pub proof fn hex_gets_through(
    tx: Seq<u8>,
    upper_mark: bool,
    upper: bool,
    before: Seq<char>,
    after: Seq<char>,
)
    requires
        tx.len() >= 2,
        tx[0] & 7 == 2,
        blank(before),
        blank(after),
    ensures
        tx_of_text(before + (hex_mark(upper_mark) + byte_text::hex_text(tx, upper)) + after) == Ok::<
            Seq<u8>,
            Seq<char>,
        >(tx),
{
    let digits = byte_text::hex_text(tx, upper);
    let s = hex_mark(upper_mark) + digits;
    flawless_bytes(tx);
    reveal_strlit("0x");
    reveal_strlit("0X");
    byte_text::hex_roundtrip(tx, upper);
    assert(byte_text::hex_digit_value(digits.last()) >= 0);
    lemma_trim_keeps(before, s, after);
    assert(hex_mark(upper_mark) =~= s.subrange(0, 2));
    assert(s.skip(2) =~= digits);
    if upper_mark {
        assert("0x"@[1] != s.subrange(0, 2)[1]);
    }
}

/// A text that cannot be decoded is refused with what the decoder says of it:
/// the hexadecimal one of what follows `0x`, the base64 one of any other text.
pub proof fn undecodable_texts_are_refused(s: Seq<char>, before: Seq<char>, after: Seq<char>)
    requires
        blank(before),
        blank(after),
        s.len() > 0,
        !text::is_white(s[0]),
        !text::is_white(s.last()),
    ensures
        s.len() >= 2 && s[0] == '0' && (s[1] == 'x' || s[1] == 'X') && !byte_text::is_hex(s.skip(2))
            ==> tx_of_text(before + s + after) == Err::<Seq<u8>, Seq<char>>(
            "hex decode error: "@ + byte_text::hex_error(s.skip(2)),
        ),
        !(s.len() >= 2 && s[0] == '0' && (s[1] == 'x' || s[1] == 'X')) && (forall|b: Seq<u8>|
            s != #[trigger] byte_text::base64_text(b)) ==> tx_of_text(before + s + after) == Err::<
            Seq<u8>,
            Seq<char>,
        >("base64 decode error: "@ + byte_text::base64_error(s)),
{
    lemma_trim_keeps(before, s, after);
    reveal_strlit("0x");
    reveal_strlit("0X");
    if s.len() >= 2 {
        assert(s.subrange(0, 2)[0] == s[0] && s.subrange(0, 2)[1] == s[1]);
        if s[0] == '0' && s[1] == 'x' {
            assert(s.subrange(0, 2) =~= "0x"@);
        }
        if s[0] == '0' && s[1] == 'X' {
            assert(s.subrange(0, 2) =~= "0X"@);
        }
    }
}

/// A transaction is handed on with the pool's socket, its digest and the number
/// of its request; the socket is the configured one.
pub proof fn transactions_are_handed_on(
    path: Option<String>,
    tx: Seq<char>,
    id: i64,
    r: Result<ForwardTx, CometErrorResponse>,
)
    requires
        prepared(path_view(path), tx, id, r),
    ensures
        match tx_of_text(tx) {
            Ok(bytes) => match path {
                Some(socket) => r matches Ok(forward) && forward.ipc_path@ == socket@ && forward.tx@
                    == bytes && forward.hash@ == cosmos_types::sha256(bytes) && forward.id == id,
                None => r matches Err(response) && response.error.code == -32603
                    && response.error.message@
                    == "cosmos IPC path not configured; broadcast unavailable"@ && response.id
                    == id && response.jsonrpc@ == "2.0"@,
            },
            Err(message) => r matches Err(response) && response.error.code == -32602
                && response.error.message@ == message && response.id == id && response.jsonrpc@
                == "2.0"@,
        },
{
}

/// A text without anything but white space in it, or with nothing behind its
/// mark, is an empty transaction.
pub proof fn empty_texts_are_refused(upper_mark: bool, before: Seq<char>, after: Seq<char>)
    requires
        blank(before),
        blank(after),
    ensures
        tx_of_text(before) == Err::<Seq<u8>, Seq<char>>("tx must not be empty"@),
        tx_of_text(before + hex_mark(upper_mark) + after) == Err::<Seq<u8>, Seq<char>>(
            "tx must not be empty"@,
        ),
{
    reveal_strlit("0x");
    reveal_strlit("0X");
    let none = Seq::<char>::empty();
    let cut = text::trimming_cuts_white_space(before);
    if cut.0 < cut.1 {
        assert(text::is_white(before[cut.0]));
    }
    assert(text::trim_of(before) =~= none);
    let empty = Seq::<u8>::empty();
    assert(byte_text::base64_text(empty) =~= none);
    let b = choose|b: Seq<u8>| none == #[trigger] byte_text::base64_text(b);
    byte_text::base64_is_injective(b, empty);
    let mark = hex_mark(upper_mark);
    lemma_trim_keeps(before, mark, after);
    assert(mark =~= mark.subrange(0, 2));
    assert(mark.skip(2) =~= none);
    assert(byte_text::hex_bytes(none) =~= empty);
    if upper_mark {
        assert("0x"@[1] != mark.subrange(0, 2)[1]);
    }
}

/// Bytes in base64 are judged as the bytes are, whatever white space is around
/// the text, unless it looks like hexadecimal digits behind their mark.
pub proof fn base64_is_judged_by_its_bytes(tx: Seq<u8>, before: Seq<char>, after: Seq<char>)
    requires
        tx.len() > 0,
        blank(before),
        blank(after),
        !(byte_text::base64_text(tx)[0] == '0' && (byte_text::base64_text(tx)[1] == 'x'
            || byte_text::base64_text(tx)[1] == 'X')),
    ensures
        tx_of_text(before + byte_text::base64_text(tx) + after) == tx_of_bytes(tx),
{
    let s = byte_text::base64_text(tx);
    byte_text::lemma_base64_ends(tx);
    lemma_trim_keeps(before, s, after);
    reveal_strlit("0x");
    reveal_strlit("0X");
    if "0x"@.is_prefix_of(s) || "0X"@.is_prefix_of(s) {
        assert(s[0] == s.subrange(0, 2)[0] && s[1] == s.subrange(0, 2)[1]);
    }
    let b = choose|b: Seq<u8>| s == #[trigger] byte_text::base64_text(b);
    byte_text::base64_is_injective(b, tx);
}

/// Hexadecimal digits behind their mark are judged as the bytes are, whatever
/// white space is around them.
pub proof fn hex_is_judged_by_its_bytes(
    tx: Seq<u8>,
    upper_mark: bool,
    upper: bool,
    before: Seq<char>,
    after: Seq<char>,
)
    requires
        tx.len() > 0,
        blank(before),
        blank(after),
    ensures
        tx_of_text(before + (hex_mark(upper_mark) + byte_text::hex_text(tx, upper)) + after)
            == tx_of_bytes(tx),
{
    let digits = byte_text::hex_text(tx, upper);
    let s = hex_mark(upper_mark) + digits;
    reveal_strlit("0x");
    reveal_strlit("0X");
    byte_text::hex_roundtrip(tx, upper);
    assert(byte_text::hex_digit_value(digits.last()) >= 0);
    lemma_trim_keeps(before, s, after);
    assert(hex_mark(upper_mark) =~= s.subrange(0, 2));
    assert(s.skip(2) =~= digits);
    if upper_mark {
        assert("0x"@[1] != s.subrange(0, 2)[1]);
    }
}

} // verus!
