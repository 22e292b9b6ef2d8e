//! `buffer.open`: opens a `file://` URI into a new buffer; other URIs are left
//! to other implementations.
use vstd::prelude::*;
use vstd::string::*;
use crate::plugin::buffer::base::{Buffer, BuffersManager};
use crate::text::starts_with;

verus! {

/// The arguments of `buffer.open`.
#[derive(Debug, Clone, PartialEq, Eq)]
pub struct Request {
    pub uri: String,
}

/// The answer of `buffer.open`: the index of the new buffer.
#[derive(Debug, Clone, Copy, PartialEq, Eq, Structural)]
pub struct Response {
    pub buffer_index: usize,
}

/// The scheme that this plugin opens.
pub open spec fn file_prefix() -> Seq<char> {
    "file://"@
}

/// The path that a `file://` URI names; `None` for any other URI, which this
/// plugin does not handle.
pub fn file_path(request: &Request) -> (path: Option<String>)
    ensures
        path is Some <==> (file_prefix().len() <= request.uri@.len()
            && request.uri@.subrange(0, file_prefix().len() as int) == file_prefix()),
        path matches Some(p) ==> p@ == request.uri@.skip(file_prefix().len() as int),
{
    proof { reveal_strlit("file://"); }
    if !starts_with(request.uri.as_str(), "file://") {
        return None;
    }
    let uri = request.uri.as_str();
    let rest = uri.substring_char(7, uri.unicode_len());
    Some(String::from_str(rest))
}

/// Puts the content of an opened file into a new buffer.
pub fn handle_content(buffers: &mut BuffersManager, content: String) -> (response: Response)
    requires
        old(buffers).wf(),
        old(buffers).next_index() < usize::MAX,
    ensures
        final(buffers).wf(),
        response.buffer_index == old(buffers).next_index(),
        final(buffers).next_index() == old(buffers).next_index() + 1,
        final(buffers).buffers() == old(buffers).buffers().insert(response.buffer_index, content@),
{
    Response { buffer_index: buffers.new_buffer(Buffer::from_string(content)) }
}

} // verus!
