//! The values that travel between the switchboard and its plugins.
use vstd::prelude::*;
use crate::text::str_eq;

verus! {

/// The kind of an RPC error.
#[derive(Debug, Clone, Copy, PartialEq, Eq, Structural)]
pub enum ErrorKind {
    UnknownRpc,
    Io,
    InvalidArgs,
}

/// The name under which an error kind is written.
pub open spec fn error_kind_name(kind: ErrorKind) -> Seq<char> {
    match kind {
        ErrorKind::UnknownRpc => "UnknownRpc"@,
        ErrorKind::Io => "Io"@,
        ErrorKind::InvalidArgs => "InvalidArgs"@,
    }
}

/// Whether `name` is the name of some error kind.
pub open spec fn is_error_kind_name(name: Seq<char>) -> bool {
    exists|k: ErrorKind| error_kind_name(k) == name
}

/// Every error kind is written under a name of its own, so that reading the
/// name that `to_str` writes gives the kind back.
pub proof fn lemma_error_kind_name_roundtrip(a: ErrorKind, b: ErrorKind)
    ensures
        is_error_kind_name(error_kind_name(a)),
        error_kind_name(a) == error_kind_name(b) ==> a == b,
{
    reveal_strlit("UnknownRpc");
    reveal_strlit("Io");
    reveal_strlit("InvalidArgs");
    if error_kind_name(a) == error_kind_name(b) && a != b {
        assert(error_kind_name(a).len() != error_kind_name(b).len() || error_kind_name(a)[0] != error_kind_name(b)[0]);
    }
}

impl ErrorKind {
    /// The error kind with the given name.
    pub fn from_str(description: &str) -> (kind: ErrorKind)
        requires
            is_error_kind_name(description@),
        ensures
            error_kind_name(kind) == description@,
    {
        proof {
            reveal_strlit("UnknownRpc");
            reveal_strlit("Io");
            reveal_strlit("InvalidArgs");
        }
        if str_eq(description, "UnknownRpc") {
            ErrorKind::UnknownRpc
        } else if str_eq(description, "Io") {
            ErrorKind::Io
        } else {
            proof {
                let k = choose|k: ErrorKind| error_kind_name(k) == description@;
                assert(k == ErrorKind::InvalidArgs);
            }
            ErrorKind::InvalidArgs
        }
    }

    /// The name of this error kind.
    pub fn to_str(&self) -> (name: &'static str)
        ensures
            name@ == error_kind_name(*self),
    {
        match *self {
            ErrorKind::UnknownRpc => "UnknownRpc",
            ErrorKind::Io => "Io",
            ErrorKind::InvalidArgs => "InvalidArgs",
        }
    }
}

} // verus!

verus! {

/// An error reported by an RPC. The details, where there are any, are JSON text.
#[derive(Debug, Clone, PartialEq, Eq)]
pub struct Error {
    pub kind: ErrorKind,
    pub details: Option<String>,
}

/// The final result of an RPC. Payloads are JSON text.
///
/// `Success` carries the value of a handled call, `Failure` the error of a
/// handled call, and `NotHandled` says that the handler passed on the call.
#[derive(Debug, Clone, PartialEq, Eq)]
pub enum Result {
    Success(String),
    Failure(Error),
    NotHandled,
}

/// The JSON text of a unit value, which is what a bare success carries.
pub open spec fn json_null() -> Seq<char> {
    "null"@
}

impl Error {
    /// A copy of this error.
    pub fn duplicate(&self) -> (res: Error)
        ensures
            res == *self,
    {
        let details = match &self.details {
            Some(d) => Some(d.clone()),
            None => None,
        };
        Error { kind: self.kind, details }
    }
}

impl Result {
    /// A success that carries no value (JSON `null`).
    pub fn success_unit() -> (res: Result)
        ensures
            res matches Result::Success(v) && v@ == json_null(),
    {
        proof { reveal_strlit("null"); }
        Result::Success(String::from_str("null"))
    }

    /// The error of a failed result.
    pub fn unwrap_err(self) -> (err: Error)
        requires
            self is Failure,
        ensures
            self == Result::Failure(err),
    {
        match self {
            Result::Failure(e) => e,
            _ => unreached(),
        }
    }

    /// Whether this is a success.
    pub fn is_ok(&self) -> (res: bool)
        ensures
            res == (*self is Success),
    {
        if let Result::Success(_) = self {
            true
        } else {
            false
        }
    }

    /// A copy of this result.
    pub fn duplicate(&self) -> (res: Result)
        ensures
            res == *self,
    {
        match self {
            Result::Success(v) => Result::Success(v.clone()),
            Result::Failure(e) => Result::Failure(e.duplicate()),
            Result::NotHandled => Result::NotHandled,
        }
    }
}

/// What a handler sends back for a running call: a partial value of a
/// streaming call, or the final result.
#[derive(Debug, Clone, PartialEq, Eq)]
pub enum ResponseKind {
    Last(Result),
    Partial(String),
}

/// A response that belongs to the call with the given context.
#[derive(Debug, Clone, PartialEq, Eq)]
pub struct Response {
    pub context: String,
    pub kind: ResponseKind,
}

/// One value of a streaming call.
#[derive(Debug, Clone, PartialEq, Eq)]
pub struct StreamingResult {
    pub context: String,
    pub value: String,
}

/// A call of the function with the given name. The context identifies the
/// call, the arguments are JSON text.
#[derive(Debug, Clone, PartialEq, Eq)]
pub struct Call {
    pub function: String,
    pub context: String,
    pub args: String,
}

impl Call {
    /// A copy of this call.
    pub fn duplicate(&self) -> (res: Call)
        ensures
            res == *self,
    {
        Call {
            function: self.function.clone(),
            context: self.context.clone(),
            args: self.args.clone(),
        }
    }
}

/// A request to cancel the call with the given context.
#[derive(Debug, Clone, PartialEq, Eq)]
pub struct Cancel {
    pub context: String,
}

} // verus!
