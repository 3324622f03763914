//! Messages that cross the datapath channels between the application-facing
//! engine and the adapter.
use vstd::prelude::*;

use crate::marshal::MessageMeta;

verus! {

/// An outgoing RPC: where its metadata buffer is, and the backend address of
/// the message.
#[derive(Clone, Copy, Debug, PartialEq, Eq, Structural)]
pub struct RpcMessageTx {
    pub meta_buf_ptr: usize,
    pub addr_backend: usize,
}

/// What the application-facing engine sends down.
#[derive(Debug)]
pub enum EngineTxMessage {
    RpcMessage(RpcMessageTx),
    /// The application is done with the inbound RPCs of these call ids on
    /// this connection.
    ReclaimRecvBuf(u32, Vec<u32>),
}

/// Identifies one RPC: its connection and call id.
#[derive(Clone, Copy, Debug, PartialEq, Eq, Structural)]
pub struct RpcId {
    pub conn_id: u32,
    pub call_id: u32,
}

/// Outcome of a transport operation.
#[derive(Clone, Copy, Debug, PartialEq, Eq, Structural)]
pub enum TransportStatus {
    Success,
    Error(u32),
}

/// An inbound RPC handed up: its metadata, and its address in the
/// application's and in the backend's address space.
#[derive(Clone, Copy, Debug, PartialEq, Eq, Structural)]
pub struct RpcMessageRx {
    pub meta: MessageMeta,
    pub addr_app: usize,
    pub addr_backend: usize,
}

/// What the adapter sends up.
#[derive(Clone, Copy, Debug, PartialEq, Eq, Structural)]
pub enum EngineRxMessage {
    RpcMessage(RpcMessageRx),
    Ack(RpcId, TransportStatus),
    /// A receive on this connection failed; which RPC it belonged to is unknown.
    RecvError(u32, TransportStatus),
}

} // verus!
