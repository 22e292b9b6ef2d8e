//! What a command loop does after handling a command.
use vstd::prelude::*;

verus! {

/// Whether the loop goes on with the next command or stops.
#[derive(Debug, Clone, Copy, PartialEq, Eq, Structural)]
pub enum Command {
    Continue,
    Quit,
}

} // verus!
