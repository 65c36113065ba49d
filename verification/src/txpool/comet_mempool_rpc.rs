//! The smaller JSON-RPC front end of the transaction pool itself.
//!
//! It speaks the format of [`crate::node_rpc`]; its pool is always configured,
//! and neither kind of broadcast waits for the check of the transaction.
use vstd::prelude::*;

use crate::json::{Json, JsonNumber, JsonView};
use crate::node_rpc::broadcast_tx;
use crate::node_rpc::broadcast_tx::ForwardTx;
use crate::node_rpc::server;
use crate::node_rpc::server::DispatchStep;
use crate::node_rpc::types::{BroadcastTxQuery, CometErrorResponse, NO_ID};
use crate::text;

verus! {

/// Where the transaction pool listens.
#[derive(Clone, Debug, PartialEq, Eq)]
pub struct CometRpcState {
    pub mempool_ipc_path: String,
}

/// A JSON-RPC request.
#[derive(Debug)]
pub struct CometRequest {
    pub jsonrpc: Option<String>,
    pub id: Option<Json>,
    pub method: String,
    pub params: Json,
}

impl CometRequest {
    /// The identifier as a number: whole numbers stand for themselves, and
    /// everything else counts as none.
    pub open spec fn number(self) -> i64 {
        match self.id {
            Some(id) => match id.deep().as_i64() {
                Some(n) => n,
                None => NO_ID,
            },
            None => NO_ID,
        }
    }

    /// The identifier as a number, or -1.
    pub fn id_i64(&self) -> (r: i64)
        ensures
            r == self.number(),
    {
        match &self.id {
            Some(id) => match id.as_i64() {
                Some(n) => n,
                None => NO_ID,
            },
            None => NO_ID,
        }
    }
}

/// Prepares a broadcast; it goes on with [`ForwardTx::sent`].
pub fn broadcast_tx_async(state: &CometRpcState, tx: &str, id: i64) -> (r: Result<
    ForwardTx,
    CometErrorResponse,
>)
    ensures
        broadcast_tx::prepared(Some(state.mempool_ipc_path@), tx@, id, r),
{
    broadcast_tx::prepare(Some(&state.mempool_ipc_path), tx, id)
}

/// The same as [`broadcast_tx_async`]: the check is not waited for.
pub fn broadcast_tx_sync(state: &CometRpcState, tx: &str, id: i64) -> (r: Result<
    ForwardTx,
    CometErrorResponse,
>)
    ensures
        broadcast_tx::prepared(Some(state.mempool_ipc_path@), tx@, id, r),
{
    broadcast_tx_async(state, tx, id)
}

fn send_step(prepared: Result<ForwardTx, CometErrorResponse>) -> (step: DispatchStep)
    ensures
        match prepared {
            Ok(forward) => step == DispatchStep::Send(forward),
            Err(response) => step == DispatchStep::Reply(response),
        },
{
    match prepared {
        Ok(forward) => DispatchStep::Send(forward),
        Err(response) => DispatchStep::Reply(response),
    }
}

/// Handles a request for a method.
pub fn dispatch(state: &CometRpcState, method: &str, params: &Json, id: i64) -> (step:
    DispatchStep)
    ensures
        server::dispatched(
            Some(state.mempool_ipc_path@),
            false,
            method@,
            params.deep(),
            id,
            step,
        ),
{
    if text::same_text(method, "broadcast_tx_async") {
        match server::extract_tx_param(params, id) {
            Ok(tx) => send_step(broadcast_tx_async(state, tx.as_str(), id)),
            Err(response) => DispatchStep::Reply(response),
        }
    } else if text::same_text(method, "broadcast_tx_sync") {
        match server::extract_tx_param(params, id) {
            Ok(tx) => send_step(broadcast_tx_sync(state, tx.as_str(), id)),
            Err(response) => DispatchStep::Reply(response),
        }
    } else {
        DispatchStep::Reply(server::method_not_found(id, method))
    }
}

/// `POST /`: the method is in the request.
pub fn post_handler(state: &CometRpcState, request: &CometRequest) -> (step: DispatchStep)
    ensures
        server::dispatched(
            Some(state.mempool_ipc_path@),
            false,
            request.method@,
            request.params.deep(),
            request.number(),
            step,
        ),
{
    dispatch(state, request.method.as_str(), &request.params, request.id_i64())
}

/// `POST /broadcast_tx_async`: the method of the request does not count.
pub fn post_broadcast_tx_async(state: &CometRpcState, request: &CometRequest) -> (step:
    DispatchStep)
    ensures
        server::dispatched(
            Some(state.mempool_ipc_path@),
            false,
            "broadcast_tx_async"@,
            request.params.deep(),
            request.number(),
            step,
        ),
{
    dispatch(state, "broadcast_tx_async", &request.params, request.id_i64())
}

/// `POST /broadcast_tx_sync`: the method of the request does not count.
pub fn post_broadcast_tx_sync(state: &CometRpcState, request: &CometRequest) -> (step:
    DispatchStep)
    ensures
        server::dispatched(
            Some(state.mempool_ipc_path@),
            false,
            "broadcast_tx_sync"@,
            request.params.deep(),
            request.number(),
            step,
        ),
{
    dispatch(state, "broadcast_tx_sync", &request.params, request.id_i64())
}

/// `GET /broadcast_tx_async`.
pub fn get_broadcast_tx_async(state: &CometRpcState, query: &BroadcastTxQuery) -> (step:
    DispatchStep)
    ensures
        server::broadcasts(Some(state.mempool_ipc_path@), false, query.tx@, NO_ID, step),
{
    send_step(broadcast_tx_async(state, query.tx.as_str(), NO_ID))
}

/// `GET /broadcast_tx_sync`.
pub fn get_broadcast_tx_sync(state: &CometRpcState, query: &BroadcastTxQuery) -> (step:
    DispatchStep)
    ensures
        server::broadcasts(Some(state.mempool_ipc_path@), false, query.tx@, NO_ID, step),
{
    send_step(broadcast_tx_sync(state, query.tx.as_str(), NO_ID))
}

/// A request is numbered by its identifier where that is a whole number that
/// fits, and minus one otherwise, a number in a text among the rest.
pub proof fn requests_are_numbered(request: CometRequest)
    ensures
        request.number() == match request.id {
            None => -1int,
            Some(id) => match id.deep() {
                JsonView::Number(JsonNumber::PosInt(n)) => if n < 0x8000_0000_0000_0000 {
                    n as int
                } else {
                    -1int
                },
                JsonView::Number(JsonNumber::NegInt(n)) => n as int,
                _ => -1int,
            },
        },
{
}

} // verus!
