//! `buffer.list`: the indices of all buffers.
use vstd::prelude::*;
use crate::plugin::buffer::base::BuffersManager;

verus! {

/// The arguments of `buffer.list`.
#[derive(Debug, Clone, Copy, PartialEq, Eq, Structural)]
pub struct Request;

/// The answer of `buffer.list`.
#[derive(Debug, Clone, PartialEq, Eq)]
pub struct Response {
    pub buffer_indices: Vec<usize>,
}

/// The indices of all buffers, each once, in ascending order.
pub fn handle(buffers: &BuffersManager, request: Request) -> (response: Response)
    requires
        buffers.wf(),
    ensures
        response.buffer_indices@.to_set() == buffers.buffers().dom(),
        response.buffer_indices@.no_duplicates(),
        forall|a: int, b: int|
            0 <= a < b < response.buffer_indices@.len() ==> #[trigger] response.buffer_indices@[a]
                < #[trigger] response.buffer_indices@[b],
{
    Response { buffer_indices: buffers.indices() }
}

} // verus!
