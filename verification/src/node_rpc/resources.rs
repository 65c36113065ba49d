//! What the handlers of the front end share.
use vstd::prelude::*;

verus! {

/// Resources of every handler.
#[derive(Clone, Debug, PartialEq, Eq)]
pub struct NodeRpcResources {
    /// The chain identifier that Cosmos tooling knows.
    pub chain_id: String,
    /// The socket on which the transaction pool listens. Without it nothing
    /// can be broadcast.
    pub cosmos_ipc_path: Option<String>,
}

impl NodeRpcResources {
    pub fn new(chain_id: String, cosmos_ipc_path: Option<String>) -> (r: Self)
        ensures
            r.chain_id == chain_id,
            r.cosmos_ipc_path == cosmos_ipc_path,
    {
        NodeRpcResources { chain_id, cosmos_ipc_path }
    }
}

} // verus!
