//! `buffer.get_content`: the text of a buffer.
use vstd::prelude::*;
use crate::plugin::buffer::base::{BufferError, BuffersManager};

verus! {

/// The arguments of `buffer.get_content`.
#[derive(Debug, Clone, Copy, PartialEq, Eq, Structural)]
pub struct Request {
    pub buffer_index: usize,
}

/// The answer of `buffer.get_content`.
#[derive(Debug, Clone, PartialEq, Eq)]
pub struct Response {
    pub content: String,
}

/// The text of the buffer that the request names.
pub fn handle(buffers: &BuffersManager, request: Request) -> (res: Result<Response, BufferError>)
    ensures
        res is Ok <==> buffers.buffers().dom().contains(request.buffer_index),
        res matches Ok(r) ==> r.content@ == buffers.buffers()[request.buffer_index],
        res matches Err(e) ==> e == BufferError::UnknownBuffer,
{
    match buffers.get(request.buffer_index) {
        Ok(buffer) => Ok(Response { content: buffer.to_string() }),
        Err(e) => Err(e),
    }
}

} // verus!
