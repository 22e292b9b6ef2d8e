//! The codes by which the C interface reports its outcomes, and how it maps
//! the library's errors onto them.
use vstd::prelude::*;
use crate::error::Error;
use crate::rpc;

verus! {

/// The outcome of a call of the C interface.
#[allow(non_camel_case_types)]
#[derive(Debug, Clone, Copy, PartialEq, Eq, Structural)]
pub enum CApiResult {
    SUCCESS,
    ERR_DISCONNECTED,
    ERR_IO,
    ERR_JSON_PARSING,
    ERR_RPC_DONE,
    ERR_INVALID_UTF8,
}

/// The kinds of RPC error that a C caller can report.
#[allow(non_camel_case_types)]
#[derive(Debug, Clone, Copy, PartialEq, Eq, Structural)]
pub enum CApiRpcErrorKind {
    RPC_ERR_UNKNOWN,
    RPC_ERR_IO,
    RPC_ERR_INVALID_ARGS,
}

/// The number by which C sees an outcome.
pub open spec fn result_code_spec(result: CApiResult) -> i32 {
    match result {
        CApiResult::SUCCESS => 0,
        CApiResult::ERR_DISCONNECTED => 1,
        CApiResult::ERR_IO => 2,
        CApiResult::ERR_JSON_PARSING => 3,
        CApiResult::ERR_RPC_DONE => 4,
        CApiResult::ERR_INVALID_UTF8 => 5,
    }
}

/// The number by which C names an RPC error kind.
pub open spec fn error_kind_code_spec(kind: CApiRpcErrorKind) -> i32 {
    match kind {
        CApiRpcErrorKind::RPC_ERR_UNKNOWN => 1,
        CApiRpcErrorKind::RPC_ERR_IO => 2,
        CApiRpcErrorKind::RPC_ERR_INVALID_ARGS => 3,
    }
}

impl CApiResult {
    /// The number by which C sees this outcome.
    pub fn code(&self) -> (code: i32)
        ensures
            code == result_code_spec(*self),
    {
        match self {
            CApiResult::SUCCESS => 0,
            CApiResult::ERR_DISCONNECTED => 1,
            CApiResult::ERR_IO => 2,
            CApiResult::ERR_JSON_PARSING => 3,
            CApiResult::ERR_RPC_DONE => 4,
            CApiResult::ERR_INVALID_UTF8 => 5,
        }
    }
}

impl CApiRpcErrorKind {
    /// The number by which C names this kind.
    pub fn code(&self) -> (code: i32)
        ensures
            code == error_kind_code_spec(*self),
    {
        match self {
            CApiRpcErrorKind::RPC_ERR_UNKNOWN => 1,
            CApiRpcErrorKind::RPC_ERR_IO => 2,
            CApiRpcErrorKind::RPC_ERR_INVALID_ARGS => 3,
        }
    }
}

/// The RPC error kind that a C error kind stands for.
pub fn to_rpc_error_kind(kind: CApiRpcErrorKind) -> (res: rpc::ErrorKind)
    ensures
        res == (match kind {
            CApiRpcErrorKind::RPC_ERR_UNKNOWN => rpc::ErrorKind::UnknownRpc,
            CApiRpcErrorKind::RPC_ERR_IO => rpc::ErrorKind::Io,
            CApiRpcErrorKind::RPC_ERR_INVALID_ARGS => rpc::ErrorKind::InvalidArgs,
        }),
{
    match kind {
        CApiRpcErrorKind::RPC_ERR_UNKNOWN => rpc::ErrorKind::UnknownRpc,
        CApiRpcErrorKind::RPC_ERR_IO => rpc::ErrorKind::Io,
        CApiRpcErrorKind::RPC_ERR_INVALID_ARGS => rpc::ErrorKind::InvalidArgs,
    }
}

/// The outcome that reports a failed call of the library.
pub fn result_of_error(error: &Error) -> (res: CApiResult)
    ensures
        res == (match *error {
            Error::Disconnected => CApiResult::ERR_DISCONNECTED,
            Error::Io(_) => CApiResult::ERR_IO,
            Error::JsonParsing(_) => CApiResult::ERR_JSON_PARSING,
            Error::RpcDone => CApiResult::ERR_RPC_DONE,
        }),
{
    match error {
        Error::Disconnected => CApiResult::ERR_DISCONNECTED,
        Error::Io(_) => CApiResult::ERR_IO,
        Error::JsonParsing(_) => CApiResult::ERR_JSON_PARSING,
        Error::RpcDone => CApiResult::ERR_RPC_DONE,
    }
}

} // verus!
