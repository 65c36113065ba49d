//! The JSON-RPC envelope and its contents.
use vstd::prelude::*;

use crate::abci::messages::CheckTxResponse;
use crate::byte_text;
use crate::json::{Json, JsonNumber, JsonView};
use crate::text;

verus! {

/// The parameters of a request cannot be used.
pub const INVALID_PARAMS: i32 = -32602;

/// A request could not be carried out.
pub const INTERNAL_ERROR: i32 = -32603;

/// No method has this name.
pub const METHOD_NOT_FOUND: i32 = -32601;

/// The identifier of a response to nobody in particular.
pub const NO_ID: i64 = -1;

/// A response with a result.
#[derive(Clone, Debug, PartialEq, Eq)]
pub struct CometResponse<T> {
    pub jsonrpc: &'static str,
    pub id: i64,
    pub result: T,
}

impl<T> CometResponse<T> {
    /// A response that answers no particular request.
    pub fn ok(result: T) -> (r: Self)
        ensures
            r.jsonrpc@ == "2.0"@,
            r.id == -1,
            r.result == result,
    {
        CometResponse { jsonrpc: "2.0", id: NO_ID, result }
    }

    /// A response to the request with this identifier.
    pub fn with_id(id: i64, result: T) -> (r: Self)
        ensures
            r.jsonrpc@ == "2.0"@,
            r.id == id,
            r.result == result,
    {
        CometResponse { jsonrpc: "2.0", id, result }
    }
}

#[derive(Clone, Debug, PartialEq, Eq)]
pub struct CometError {
    pub code: i32,
    pub message: String,
    pub data: Option<String>,
}

/// A response with an error.
#[derive(Clone, Debug, PartialEq, Eq)]
pub struct CometErrorResponse {
    pub jsonrpc: &'static str,
    pub id: i64,
    pub error: CometError,
}

impl CometErrorResponse {
    /// Whether this is the response with this identifier, code and message.
    pub open spec fn says(self, id: i64, code: i32, message: Seq<char>) -> bool {
        &&& self.jsonrpc@ == "2.0"@
        &&& self.id == id
        &&& self.error.code == code
        &&& self.error.message@ == message
        &&& self.error.data is None
    }

    pub fn new(id: i64, code: i32, message: String) -> (r: Self)
        ensures
            r.says(id, code, message@),
    {
        CometErrorResponse { jsonrpc: "2.0", id, error: CometError { code, message, data: None } }
    }

    pub fn internal(id: i64, message: String) -> (r: Self)
        ensures
            r.says(id, INTERNAL_ERROR, message@),
    {
        CometErrorResponse::new(id, INTERNAL_ERROR, message)
    }

    pub fn invalid_params(id: i64, message: String) -> (r: Self)
        ensures
            r.says(id, INVALID_PARAMS, message@),
    {
        CometErrorResponse::new(id, INVALID_PARAMS, message)
    }
}

/// What became of a broadcast transaction.
#[derive(Clone, Debug, PartialEq, Eq)]
pub struct ResultBroadcastTx {
    /// The code of the check; zero where the transaction is good.
    pub code: u32,
    /// Data of the check in hexadecimal.
    pub data: String,
    pub log: String,
    pub codespace: String,
    /// The SHA-256 of the raw transaction in upper case hexadecimal.
    pub hash: String,
}

impl ResultBroadcastTx {
    /// A transaction that was handed on without waiting for its check.
    pub fn accepted(hash: [u8; 32]) -> (r: Self)
        ensures
            r.code == 0,
            r.data@ == Seq::<char>::empty(),
            r.log@ == Seq::<char>::empty(),
            r.codespace@ == Seq::<char>::empty(),
            r.hash@ == byte_text::hex_text(hash@, true),
    {
        proof {
            reveal_strlit("");
        }
        let r = ResultBroadcastTx {
            code: 0,
            data: String::from_str(""),
            log: String::from_str(""),
            codespace: String::from_str(""),
            hash: byte_text::encode_hex_upper(vstd::array::array_as_slice(&hash)),
        };
        assert(""@ =~= Seq::<char>::empty());
        r
    }

    /// A transaction whose check came back.
    pub fn from_check_tx(hash: [u8; 32], response: CheckTxResponse) -> (r: Self)
        ensures
            r.code == response.code,
            r.data@ == byte_text::hex_text(response.data@, false),
            r.log == response.log,
            r.codespace == response.codespace,
            r.hash@ == byte_text::hex_text(hash@, true),
    {
        ResultBroadcastTx {
            code: response.code,
            data: byte_text::encode_hex_lower(response.data.as_slice()),
            log: response.log,
            codespace: response.codespace,
            hash: byte_text::encode_hex_upper(vstd::array::array_as_slice(&hash)),
        }
    }
}

/// A JSON-RPC request.
#[derive(Debug)]
pub struct CometRequest {
    pub jsonrpc: String,
    pub id: Json,
    pub method: String,
    pub params: Json,
}

/// The identifier of a request as a number: whole numbers stand for themselves,
/// so does a text that holds one, and everything else counts as none.
pub open spec fn id_of(id: JsonView) -> i64 {
    match id {
        JsonView::Text(s) => match text::i64_of_text(s) {
            Some(n) => n,
            None => NO_ID,
        },
        _ => match id.as_i64() {
            Some(n) => n,
            None => NO_ID,
        },
    }
}

impl CometRequest {
    /// The identifier as a number, or -1.
    pub fn id_i64(&self) -> (r: i64)
        ensures
            r == id_of(self.id.deep()),
    {
        match &self.id {
            Json::Text(s) => match text::parse_i64(s.as_str()) {
                Some(n) => n,
                None => NO_ID,
            },
            other => match other.as_i64() {
                Some(n) => n,
                None => NO_ID,
            },
        }
    }
}

/// The query of a broadcast over `GET`.
#[derive(Clone, Debug, PartialEq, Eq)]
pub struct BroadcastTxQuery {
    pub tx: String,
}

/// A request is numbered by its identifier: a whole number that fits, or the
/// text of one; anything else counts as minus one.
pub proof fn identifiers_are_numbers(id: JsonView, n: i64, s: Seq<char>)
    ensures
        id_of(JsonView::Text(text::number_text(n as int))) == n,
        id_of(JsonView::Text(s)) == (match text::i64_of_text(s) {
            Some(read) => read as int,
            None => -1,
        }),
        n >= 0 ==> id_of(JsonView::Number(JsonNumber::PosInt(n as u64))) == n,
        id_of(JsonView::Number(JsonNumber::NegInt(n))) == n,
        id matches JsonView::Number(JsonNumber::PosInt(m)) && m >= 0x8000_0000_0000_0000 ==> id_of(
            id,
        ) == -1,
        id matches JsonView::Number(JsonNumber::FloatBits(_)) ==> id_of(id) == -1,
        id !is Number && id !is Text ==> id_of(id) == -1,
{
    text::i64_text_roundtrip(n);
}

/// The numbers of the errors are those of JSON-RPC.
pub proof fn error_codes_are_those_of_json_rpc()
    ensures
        INVALID_PARAMS == -32602,
        INTERNAL_ERROR == -32603,
        METHOD_NOT_FOUND == -32601,
        NO_ID == -1,
{
}

} // verus!
