//! The functions that the switchboard implements itself, under the prefix
//! `core.`.
use vstd::prelude::*;
use crate::rpc;
use crate::server::ipc_bridge::ClientId;
use crate::text::{starts_with, str_eq};

verus! {

/// The arguments of `core.new_rpc`: the name of the function that the caller
/// offers and the priority at which it offers it.
#[derive(Debug, Clone, PartialEq, Eq)]
pub struct NewRpcRequest {
    pub priority: u16,
    pub name: String,
}

/// Whether a function name belongs to the switchboard itself.
pub open spec fn is_core_function(function: Seq<char>) -> bool {
    function.len() >= 5 && function.subrange(0, 5) == "core."@
}

/// Whether the switchboard implements the core function with this name.
pub open spec fn is_known_core_function(function: Seq<char>) -> bool {
    function == "core.exit"@ || function == "core.new_rpc"@
}

/// What a core function asks of the switchboard beyond its reply.
#[derive(Debug, Clone, PartialEq, Eq)]
pub enum CoreRequest {
    /// Stop the switchboard.
    Exit,
    /// Register the function that the arguments (JSON text of a
    /// `NewRpcRequest`) describe, for the given caller.
    NewRpc(ClientId, String),
}

/// The core plugin: `core.exit` and `core.new_rpc`.
pub struct CorePlugin;

impl CorePlugin {
    pub fn new() -> (plugin: Self) {
        CorePlugin
    }

    /// Handles a call of a core function: the reply for the caller, and what
    /// the switchboard has to do besides.
    pub fn call(&self, caller: ClientId, rpc_call: &rpc::Call) -> (res: (rpc::Result, CoreRequest))
        requires
            is_known_core_function(rpc_call.function@),
        ensures
            res.0 matches rpc::Result::Success(v) && v@ == rpc::json_null(),
            rpc_call.function@ == "core.exit"@ ==> res.1 == CoreRequest::Exit,
            rpc_call.function@ != "core.exit"@ ==> res.1 == CoreRequest::NewRpc(caller, rpc_call.args),
    {
        if str_eq(rpc_call.function.as_str(), "core.exit") {
            (rpc::Result::success_unit(), CoreRequest::Exit)
        } else {
            (rpc::Result::success_unit(), CoreRequest::NewRpc(caller, rpc_call.args.clone()))
        }
    }
}

/// Whether `function` names a core function.
pub fn is_core(function: &String) -> (res: bool)
    ensures
        res == is_core_function(function@),
{
    proof { reveal_strlit("core."); }
    starts_with(function.as_str(), "core.")
}

/// Whether `function` names a core function that the switchboard implements.
pub fn is_known_core(function: &String) -> (res: bool)
    ensures
        res == is_known_core_function(function@),
{
    str_eq(function.as_str(), "core.exit") || str_eq(function.as_str(), "core.new_rpc")
}

} // verus!
