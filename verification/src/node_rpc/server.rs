//! The routes of the front end: which request leads to which handler.
use vstd::prelude::*;

use crate::abci::error::labelled;
use crate::cosmos_types;
use crate::json;
use crate::json::{Json, JsonView};
use crate::node_rpc::broadcast_tx;
use crate::node_rpc::broadcast_tx::ForwardTx;
use crate::node_rpc::resources::NodeRpcResources;
use crate::node_rpc::types::{
    BroadcastTxQuery, CometErrorResponse, CometRequest, INVALID_PARAMS, METHOD_NOT_FOUND, NO_ID,
};
use crate::node_rpc::types;
use crate::text;

verus! {

/// What to do about a request.
pub enum DispatchStep {
    /// Send the transaction and answer with [`ForwardTx::sent`].
    Send(ForwardTx),
    /// Send the transaction, wait for its check and answer with
    /// [`ForwardTx::checked`].
    Check(ForwardTx),
    /// Answer with this.
    Reply(CometErrorResponse),
}

/// The transaction among the parameters: under `tx` in an object, the first
/// item of an array, or the parameters themselves.
pub open spec fn tx_param(params: JsonView) -> Option<Seq<char>> {
    match params {
        JsonView::Object(_) => json::text_of(params.get("tx"@)),
        JsonView::Array(_) => json::text_of(params.first()),
        JsonView::Text(s) => Some(s),
        _ => None,
    }
}

/// Takes the transaction from the parameters.
pub fn extract_tx_param(params: &Json, id: i64) -> (r: Result<String, CometErrorResponse>)
    ensures
        match r {
            Ok(tx) => tx_param(params.deep()) == Some(tx@),
            Err(response) => tx_param(params.deep()) is None && response.says(
                id,
                INVALID_PARAMS,
                "missing required parameter 'tx'"@,
            ),
        },
{
    proof {
        params.lemma_deep();
    }
    let tx: Option<&str> = match params {
        Json::Object(_) => match params.get("tx") {
            Some(v) => v.as_str(),
            None => None,
        },
        Json::Array(_) => match params.first() {
            Some(v) => v.as_str(),
            None => None,
        },
        Json::Text(s) => Some(s.as_str()),
        _ => None,
    };
    match tx {
        Some(s) => Ok(String::from_str(s)),
        None => Err(
            CometErrorResponse::invalid_params(
                id,
                String::from_str("missing required parameter 'tx'"),
            ),
        ),
    }
}

/// What a request for a method comes to, for a pool at `path`. `waits` says
/// whether `broadcast_tx_sync` waits for the check.
pub open spec fn dispatched(
    path: Option<Seq<char>>,
    waits: bool,
    method: Seq<char>,
    params: JsonView,
    id: i64,
    step: DispatchStep,
) -> bool {
    if method == "broadcast_tx_async"@ || method == "broadcast_tx_sync"@ {
        match tx_param(params) {
            Some(tx) => broadcasts(path, waits && method == "broadcast_tx_sync"@, tx, id, step),
            None => step matches DispatchStep::Reply(response) && response.says(
                id,
                INVALID_PARAMS,
                "missing required parameter 'tx'"@,
            ),
        }
    } else {
        step matches DispatchStep::Reply(response) && response.says(
            id,
            METHOD_NOT_FOUND,
            "method not found: "@ + method,
        )
    }
}

/// What a broadcast comes to.
pub open spec fn broadcasts(
    path: Option<Seq<char>>,
    waits: bool,
    tx: Seq<char>,
    id: i64,
    step: DispatchStep,
) -> bool {
    match step {
        DispatchStep::Send(forward) => !waits && broadcast_tx::prepared(
            path,
            tx,
            id,
            Ok(forward),
        ),
        DispatchStep::Check(forward) => waits && broadcast_tx::prepared(
            path,
            tx,
            id,
            Ok(forward),
        ),
        DispatchStep::Reply(response) => broadcast_tx::prepared(path, tx, id, Err(response)),
    }
}

/// The response to a method that is not there.
pub fn method_not_found(id: i64, method: &str) -> (r: CometErrorResponse)
    ensures
        r.says(id, METHOD_NOT_FOUND, "method not found: "@ + method@),
{
    CometErrorResponse::new(id, METHOD_NOT_FOUND, labelled("method not found: ", method))
}

/// Handles a request for a method.
pub fn dispatch(resources: &NodeRpcResources, method: &str, params: &Json, id: i64) -> (step:
    DispatchStep)
    ensures
        dispatched(
            broadcast_tx::path_view(resources.cosmos_ipc_path),
            true,
            method@,
            params.deep(),
            id,
            step,
        ),
{
    let waits: bool = text::same_text(method, "broadcast_tx_sync");
    if !waits && !text::same_text(method, "broadcast_tx_async") {
        return DispatchStep::Reply(method_not_found(id, method));
    }
    match extract_tx_param(params, id) {
        Ok(tx) => if waits {
            proof {
                reveal_strlit("broadcast_tx_sync");
                reveal_strlit("broadcast_tx_async");
            }
            sync_step(resources, tx.as_str(), id)
        } else {
            async_step(resources, tx.as_str(), id)
        },
        Err(response) => DispatchStep::Reply(response),
    }
}

fn async_step(resources: &NodeRpcResources, tx: &str, id: i64) -> (step: DispatchStep)
    ensures
        broadcasts(broadcast_tx::path_view(resources.cosmos_ipc_path), false, tx@, id, step),
{
    match broadcast_tx::broadcast_tx_async(resources, tx, id) {
        Ok(forward) => DispatchStep::Send(forward),
        Err(response) => DispatchStep::Reply(response),
    }
}

fn sync_step(resources: &NodeRpcResources, tx: &str, id: i64) -> (step: DispatchStep)
    ensures
        broadcasts(broadcast_tx::path_view(resources.cosmos_ipc_path), true, tx@, id, step),
{
    match broadcast_tx::broadcast_tx_sync(resources, tx, id) {
        Ok(forward) => DispatchStep::Check(forward),
        Err(response) => DispatchStep::Reply(response),
    }
}

/// `POST /`: the method is in the request.
pub fn post_handler(resources: &NodeRpcResources, request: &CometRequest) -> (step: DispatchStep)
    ensures
        dispatched(
            broadcast_tx::path_view(resources.cosmos_ipc_path),
            true,
            request.method@,
            request.params.deep(),
            types::id_of(request.id.deep()),
            step,
        ),
{
    dispatch(resources, request.method.as_str(), &request.params, request.id_i64())
}

/// `POST /broadcast_tx_async`: the method of the request does not count.
pub fn post_broadcast_tx_async(resources: &NodeRpcResources, request: &CometRequest) -> (step:
    DispatchStep)
    ensures
        dispatched(
            broadcast_tx::path_view(resources.cosmos_ipc_path),
            true,
            "broadcast_tx_async"@,
            request.params.deep(),
            types::id_of(request.id.deep()),
            step,
        ),
{
    dispatch(resources, "broadcast_tx_async", &request.params, request.id_i64())
}

/// `POST /broadcast_tx_sync`: the method of the request does not count.
pub fn post_broadcast_tx_sync(resources: &NodeRpcResources, request: &CometRequest) -> (step:
    DispatchStep)
    ensures
        dispatched(
            broadcast_tx::path_view(resources.cosmos_ipc_path),
            true,
            "broadcast_tx_sync"@,
            request.params.deep(),
            types::id_of(request.id.deep()),
            step,
        ),
{
    dispatch(resources, "broadcast_tx_sync", &request.params, request.id_i64())
}

/// `GET /broadcast_tx_async`.
pub fn get_broadcast_tx_async(resources: &NodeRpcResources, query: &BroadcastTxQuery) -> (step:
    DispatchStep)
    ensures
        broadcasts(
            broadcast_tx::path_view(resources.cosmos_ipc_path),
            false,
            query.tx@,
            NO_ID,
            step,
        ),
{
    async_step(resources, query.tx.as_str(), NO_ID)
}

/// `GET /broadcast_tx_sync`.
pub fn get_broadcast_tx_sync(resources: &NodeRpcResources, query: &BroadcastTxQuery) -> (step:
    DispatchStep)
    ensures
        broadcasts(
            broadcast_tx::path_view(resources.cosmos_ipc_path),
            true,
            query.tx@,
            NO_ID,
            step,
        ),
{
    sync_step(resources, query.tx.as_str(), NO_ID)
}

/// The transaction of a request is the member `tx` of an object, the first item
/// of an array, or the parameters themselves where they are a text; it has to
/// be a text.
pub proof fn transactions_are_found_in_parameters(
    params: JsonView,
    tx: Seq<char>,
    items: Seq<JsonView>,
)
    ensures
        json::holds(params, "tx"@, JsonView::Text(tx)) ==> tx_param(params) == Some(tx),
        params is Object && (forall|v: JsonView| #[trigger]
            json::holds(params, "tx"@, v) ==> v !is Text) ==> tx_param(params) is None,
        tx_param(JsonView::Text(tx)) == Some(tx),
        items.len() > 0 && items[0] == JsonView::Text(tx) ==> tx_param(JsonView::Array(items))
            == Some(tx),
        items.len() > 0 && items[0] !is Text ==> tx_param(JsonView::Array(items)) is None,
        items.len() == 0 ==> tx_param(JsonView::Array(items)) is None,
        params is Null || params is Bool || params is Number ==> tx_param(params) is None,
{
    json::held_members_are_found(params, "tx"@, JsonView::Text(tx));
    if let Some(v) = params.get("tx"@) {
        json::held_members_are_found(params, "tx"@, v);
    }
}

/// Whether a step replies with an error.
pub open spec fn replies(step: DispatchStep, id: i64, code: int, message: Seq<char>) -> bool {
    step matches DispatchStep::Reply(response) && {
        &&& response.jsonrpc@ == "2.0"@
        &&& response.id == id
        &&& response.error.code == code
        &&& response.error.message@ == message
        &&& response.error.data is None
    }
}

/// A request for a broadcast goes on if and only if its method is one of the
/// two, it has a transaction, that is a sound one, and the pool's socket is
/// known. It waits for the check if and only if that is wanted and the method
/// is the synchronous one. What is wrong is told otherwise.
pub proof fn requests_are_dispatched(
    path: Option<Seq<char>>,
    waits: bool,
    method: Seq<char>,
    params: JsonView,
    id: i64,
    step: DispatchStep,
)
    requires
        dispatched(path, waits, method, params, id, step),
    ensures
        ({
            let synchronous = method == "broadcast_tx_sync"@;
            let known = synchronous || method == "broadcast_tx_async"@;
            &&& !known ==> replies(step, id, -32601, "method not found: "@ + method)
            &&& known && tx_param(params) is None ==> replies(
                step,
                id,
                -32602,
                "missing required parameter 'tx'"@,
            )
            &&& known && tx_param(params) is Some ==> match broadcast_tx::tx_of_text(
                tx_param(params)->0,
            ) {
                Err(message) => replies(step, id, -32602, message),
                Ok(tx) => match path {
                    None => replies(
                        step,
                        id,
                        -32603,
                        "cosmos IPC path not configured; broadcast unavailable"@,
                    ),
                    Some(socket) => if synchronous && waits {
                        step matches DispatchStep::Check(forward) && forward.ipc_path@ == socket
                            && forward.tx@ == tx && forward.hash@ == cosmos_types::sha256(tx)
                            && forward.id == id
                    } else {
                        step matches DispatchStep::Send(forward) && forward.ipc_path@ == socket
                            && forward.tx@ == tx && forward.hash@ == cosmos_types::sha256(tx)
                            && forward.id == id
                    },
                },
            }
        }),
{
    reveal_strlit("broadcast_tx_sync");
    reveal_strlit("broadcast_tx_async");
    assert("broadcast_tx_sync"@.len() != "broadcast_tx_async"@.len());
}

} // verus!
