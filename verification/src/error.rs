//! The errors of the client side of Swiboe.
use vstd::prelude::*;
use crate::plugin::buffer::base::IoErrorKind;

verus! {

/// What can go wrong when talking to the switchboard.
#[derive(Debug, Clone, PartialEq, Eq)]
pub enum Error {
    /// A channel or the socket is gone.
    Disconnected,
    /// Reading or writing failed.
    Io(IoErrorKind),
    /// A value could not be read from JSON; the parser's message.
    JsonParsing(String),
    /// The call is already finished or cancelled.
    RpcDone,
}

} // verus!
