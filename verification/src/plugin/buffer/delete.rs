//! `buffer.delete`: deletes a buffer.
use vstd::prelude::*;
use crate::plugin::buffer::base::{BufferError, BuffersManager};

verus! {

/// The arguments of `buffer.delete`.
#[derive(Debug, Clone, Copy, PartialEq, Eq, Structural)]
pub struct Request {
    pub buffer_index: usize,
}

/// The answer of `buffer.delete`.
#[derive(Debug, Clone, Copy, PartialEq, Eq, Structural)]
pub struct Response;

/// Deletes the buffer that the request names.
pub fn handle(buffers: &mut BuffersManager, request: Request) -> (res: Result<Response, BufferError>)
    requires
        old(buffers).wf(),
    ensures
        final(buffers).wf(),
        final(buffers).next_index() == old(buffers).next_index(),
        final(buffers).buffers() == old(buffers).buffers().remove(request.buffer_index),
        res is Ok <==> old(buffers).buffers().dom().contains(request.buffer_index),
        res matches Err(e) ==> e == BufferError::UnknownBuffer,
{
    match buffers.delete_buffer(request.buffer_index) {
        Ok(()) => Ok(Response),
        Err(e) => Err(e),
    }
}

} // verus!
