//! The local socket on which the node takes raw transactions that nobody waits
//! for. Frames and errors are those of [`crate::txpool::ipc`].
use vstd::prelude::*;

use bytes::Bytes;

use crate::txpool::ipc;
use crate::txpool::ipc::{CosmosTxPoolIpcTx, IpcError};
use crate::txpool::raw;

verus! {

/// Reads a frame of a client. An empty transaction is passed over.
pub fn read_frame(frame: &[u8]) -> (r: Result<Option<Bytes>, IpcError>)
    ensures
        match ipc::parse_tx_frame(frame@) {
            Ok(tx) => if tx.len() == 0 {
                r matches Ok(None)
            } else {
                r matches Ok(Some(b)) && raw::raw_bytes(b) == tx
            },
            Err(_) => r matches Err(IpcError::InvalidFrame),
        },
{
    match CosmosTxPoolIpcTx::decode_exact(frame) {
        Ok(ipc_tx) => if ipc_tx.tx.len() == 0 {
            Ok(None)
        } else {
            Ok(Some(raw::from_vec(ipc_tx.tx)))
        },
        Err(_) => Err(IpcError::InvalidFrame),
    }
}

} // verus!
