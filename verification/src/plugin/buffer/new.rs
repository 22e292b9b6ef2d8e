//! `buffer.new`: creates a buffer, empty or with the given content.
use vstd::prelude::*;
use crate::plugin::buffer::base::{Buffer, BuffersManager};

verus! {

/// The arguments of `buffer.new`.
#[derive(Debug, Clone, PartialEq, Eq)]
pub struct Request {
    pub content: Option<String>,
}

/// The answer of `buffer.new`: the index of the new buffer.
#[derive(Debug, Clone, Copy, PartialEq, Eq, Structural)]
pub struct Response {
    pub buffer_index: usize,
}

/// The content that a request asks for.
pub open spec fn requested_content(request: Request) -> Seq<char> {
    match request.content {
        Some(c) => c@,
        None => Seq::empty(),
    }
}

/// Creates the buffer that the request asks for.
pub fn handle(buffers: &mut BuffersManager, request: Request) -> (response: Response)
    requires
        old(buffers).wf(),
        old(buffers).next_index() < usize::MAX,
    ensures
        final(buffers).wf(),
        response.buffer_index == old(buffers).next_index(),
        final(buffers).next_index() == old(buffers).next_index() + 1,
        final(buffers).buffers() == old(buffers).buffers().insert(response.buffer_index, requested_content(request)),
{
    let buffer = match request.content {
        Some(content) => Buffer::from_string(content),
        None => Buffer::new(),
    };
    Response { buffer_index: buffers.new_buffer(buffer) }
}

} // verus!
