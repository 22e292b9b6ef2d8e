//! The plugins that come with the switchboard.
use vstd::prelude::*;
use crate::rpc;
use crate::server::ipc_bridge::ClientId;

pub mod buffer;
pub mod log;
pub mod logger;
pub mod list_files;

verus! {

/// A call on its way to a plugin, and the client that made it.
#[derive(Debug, Clone, PartialEq, Eq)]
pub struct FunctionCallContext {
    pub rpc_call: rpc::Call,
    pub caller: ClientId,
}

} // verus!
