//! The buffers and their bookkeeping.
use vstd::prelude::*;
use std::collections::HashMap;
use crate::rpc;

verus! {

broadcast use vstd::std_specs::hash::group_hash_axioms;

/// The error of a request that names a buffer that does not exist.
#[derive(Debug, Clone, Copy, PartialEq, Eq, Structural)]
pub enum BufferError {
    UnknownBuffer,
}

/// The JSON text of the string `unknown_buffer`.
pub open spec fn unknown_buffer_details() -> Seq<char> {
    "\"unknown_buffer\""@
}

impl BufferError {
    /// The RPC error that reports this error to the caller.
    pub fn to_rpc_error(self) -> (err: rpc::Error)
        ensures
            err.kind == rpc::ErrorKind::InvalidArgs,
            err.details matches Some(d) && d@ == unknown_buffer_details(),
    {
        proof { reveal_strlit("\"unknown_buffer\""); }
        rpc::Error { kind: rpc::ErrorKind::InvalidArgs, details: Some(String::from_str("\"unknown_buffer\"")) }
    }
}

/// The kinds of I/O failure that the buffer plugin tells apart.
#[derive(Debug, Clone, Copy, PartialEq, Eq, Structural)]
pub enum IoErrorKind {
    NotFound,
    PermissionDenied,
    ConnectionRefused,
    ConnectionReset,
    ConnectionAborted,
    NotConnected,
    AddrInUse,
    AddrNotAvailable,
    BrokenPipe,
    AlreadyExists,
    WouldBlock,
    InvalidInput,
    InvalidData,
    TimedOut,
    WriteZero,
    Interrupted,
    Other,
}

/// The word that reports an I/O failure of the given kind. A denied
/// permission is reported as a missing file.
pub open spec fn io_error_word(kind: IoErrorKind) -> Seq<char> {
    match kind {
        IoErrorKind::NotFound => "not_found"@,
        IoErrorKind::PermissionDenied => "not_found"@,
        IoErrorKind::ConnectionRefused => "connection_refused"@,
        IoErrorKind::ConnectionReset => "connection_reset"@,
        IoErrorKind::ConnectionAborted => "connection_aborted"@,
        IoErrorKind::NotConnected => "not_connected"@,
        IoErrorKind::AddrInUse => "addr_in_use"@,
        IoErrorKind::AddrNotAvailable => "addr_not_available"@,
        IoErrorKind::BrokenPipe => "broken_pipe"@,
        IoErrorKind::AlreadyExists => "already_exists"@,
        IoErrorKind::WouldBlock => "would_block"@,
        IoErrorKind::InvalidInput => "invalid_input"@,
        IoErrorKind::InvalidData => "invalid_data"@,
        IoErrorKind::TimedOut => "timed_out"@,
        IoErrorKind::WriteZero => "write_zero"@,
        IoErrorKind::Interrupted => "interrupted"@,
        IoErrorKind::Other => "unknown"@,
    }
}

fn io_error_word_exec(kind: IoErrorKind) -> (word: &'static str)
    ensures
        word@ == io_error_word(kind),
{
    match kind {
        IoErrorKind::NotFound => "not_found",
        IoErrorKind::PermissionDenied => "not_found",
        IoErrorKind::ConnectionRefused => "connection_refused",
        IoErrorKind::ConnectionReset => "connection_reset",
        IoErrorKind::ConnectionAborted => "connection_aborted",
        IoErrorKind::NotConnected => "not_connected",
        IoErrorKind::AddrInUse => "addr_in_use",
        IoErrorKind::AddrNotAvailable => "addr_not_available",
        IoErrorKind::BrokenPipe => "broken_pipe",
        IoErrorKind::AlreadyExists => "already_exists",
        IoErrorKind::WouldBlock => "would_block",
        IoErrorKind::InvalidInput => "invalid_input",
        IoErrorKind::InvalidData => "invalid_data",
        IoErrorKind::TimedOut => "timed_out",
        IoErrorKind::WriteZero => "write_zero",
        IoErrorKind::Interrupted => "interrupted",
        IoErrorKind::Other => "unknown",
    }
}

/// The RPC error that reports an I/O failure: kind `Io`, with the word for
/// the failure as a JSON string.
pub fn io_error(kind: IoErrorKind) -> (err: rpc::Error)
    ensures
        err.kind == rpc::ErrorKind::Io,
        err.details matches Some(d) && d@ == seq!['"'] + io_error_word(kind) + seq!['"'],
{
    proof { reveal_strlit("\""); }
    let word = io_error_word_exec(kind);
    let mut details = String::from_str("\"");
    details.append(word);
    details.append("\"");
    rpc::Error { kind: rpc::ErrorKind::Io, details: Some(details) }
}

/// Announced under `on.buffer.new` when a buffer was created.
#[derive(Debug, Clone, Copy, PartialEq, Eq, Structural)]
pub struct BufferCreated {
    pub buffer_index: usize,
}

/// Announced under `on.buffer.deleted` when a buffer was deleted.
#[derive(Debug, Clone, Copy, PartialEq, Eq, Structural)]
pub struct BufferDeleted {
    pub buffer_index: usize,
}

/// The name of the function that hears of new buffers.
pub fn buffer_created_rpc() -> (name: &'static str)
    ensures
        name@ == "on.buffer.new"@,
{
    "on.buffer.new"
}

/// The name of the function that hears of deleted buffers.
pub fn buffer_deleted_rpc() -> (name: &'static str)
    ensures
        name@ == "on.buffer.deleted"@,
{
    "on.buffer.deleted"
}

/// A text buffer.
pub struct Buffer {
    content: String,
}

impl Buffer {
    /// The text of the buffer.
    pub closed spec fn content(&self) -> Seq<char> {
        self.content@
    }

    pub fn new() -> (buffer: Self)
        ensures
            buffer.content() == Seq::<char>::empty(),
    {
        proof { reveal_strlit(""); }
        Self::from_string(String::from_str(""))
    }

    pub fn from_string(content: String) -> (buffer: Self)
        ensures
            buffer.content() == content@,
    {
        Buffer { content }
    }

    /// The text of the buffer, as a new string.
    pub fn to_string(&self) -> (s: String)
        ensures
            s@ == self.content(),
    {
        self.content.clone()
    }
}

/// The buffers by index. Indices count up from 0 and are never given out twice.
pub struct BuffersManager {
    next_buffer_index: usize,
    buffers: HashMap<usize, Buffer>,
}

impl BuffersManager {
    pub closed spec fn wf(&self) -> bool {
        forall|i: usize| #[trigger] self.buffers@.dom().contains(i) ==> i < self.next_buffer_index
    }

    /// The text of each buffer, by index.
    pub closed spec fn buffers(&self) -> Map<usize, Seq<char>> {
        self.buffers@.map_values(|b: Buffer| b.content@)
    }

    /// The index that the next buffer gets.
    pub closed spec fn next_index(&self) -> usize {
        self.next_buffer_index
    }

    /// Every buffer's index lies below the index that the next buffer gets.
    pub proof fn lemma_indices_below_next(&self)
        requires
            self.wf(),
        ensures
            forall|i: usize| #[trigger] self.buffers().dom().contains(i) ==> i < self.next_index(),
    {
    }

    pub fn new() -> (manager: Self)
        ensures
            manager.wf(),
            manager.buffers() == Map::<usize, Seq<char>>::empty(),
            manager.next_index() == 0,
    {
        let m = BuffersManager { next_buffer_index: 0, buffers: HashMap::new() };
        assert(m.buffers() =~= Map::<usize, Seq<char>>::empty());
        m
    }

    /// Whether another buffer can get an index.
    pub fn has_free_index(&self) -> (res: bool)
        ensures
            res == (self.next_index() < usize::MAX),
    {
        self.next_buffer_index < usize::MAX
    }

    /// Stores the buffer under the next index and hands out that index.
    pub fn new_buffer(&mut self, buffer: Buffer) -> (index: usize)
        requires
            old(self).wf(),
            old(self).next_index() < usize::MAX,
        ensures
            final(self).wf(),
            index == old(self).next_index(),
            final(self).next_index() == old(self).next_index() + 1,
            !old(self).buffers().dom().contains(index),
            final(self).buffers() == old(self).buffers().insert(index, buffer.content()),
    {
        let current_buffer_index = self.next_buffer_index;
        self.next_buffer_index = self.next_buffer_index + 1;
        let ghost c = buffer.content@;
        self.buffers.insert(current_buffer_index, buffer);
        proof {
            assert(self.buffers() =~= old(self).buffers().insert(current_buffer_index, c));
        }
        current_buffer_index
    }

    /// Deletes the buffer with the given index.
    pub fn delete_buffer(&mut self, buffer_index: usize) -> (res: Result<(), BufferError>)
        requires
            old(self).wf(),
        ensures
            final(self).wf(),
            final(self).next_index() == old(self).next_index(),
            res is Ok <==> old(self).buffers().dom().contains(buffer_index),
            final(self).buffers() == old(self).buffers().remove(buffer_index),
    {
        match self.buffers.remove(&buffer_index) {
            Some(_) => {
                proof { assert(self.buffers() =~= old(self).buffers().remove(buffer_index)); }
                Ok(())
            },
            None => {
                proof { assert(self.buffers() =~= old(self).buffers().remove(buffer_index)); }
                Err(BufferError::UnknownBuffer)
            },
        }
    }

    /// The buffer with the given index.
    pub fn get(&self, index: usize) -> (res: Result<&Buffer, BufferError>)
        ensures
            res is Ok <==> self.buffers().dom().contains(index),
            res matches Ok(b) ==> b.content() == self.buffers()[index],
    {
        match self.buffers.get(&index) {
            Some(b) => Ok(b),
            None => Err(BufferError::UnknownBuffer),
        }
    }

    /// The indices of all buffers, each once, in ascending order.
    pub fn indices(&self) -> (res: Vec<usize>)
        requires
            self.wf(),
        ensures
            res@.to_set() == self.buffers().dom(),
            res@.no_duplicates(),
            forall|a: int, b: int| 0 <= a < b < res@.len() ==> #[trigger] res@[a] < #[trigger] res@[b],
    {
        let mut res: Vec<usize> = Vec::new();
        let mut i: usize = 0;
        while i < self.next_buffer_index
            invariant
                self.wf(),
                i <= self.next_buffer_index,
                forall|a: int, b: int| 0 <= a < b < res@.len() ==> #[trigger] res@[a] < #[trigger] res@[b],
                forall|a: int| 0 <= a < res@.len() ==> #[trigger] res@[a] < i,
                forall|x: usize| #[trigger] res@.contains(x) <==> (x < i && self.buffers@.dom().contains(x)),
            decreases self.next_buffer_index - i,
        {
            if self.buffers.contains_key(&i) {
                let ghost prev = res@;
                res.push(i);
                proof {
                    assert forall|x: usize| #[trigger] res@.contains(x) <==> (x < i + 1 && self.buffers@.dom().contains(x)) by {
                        if res@.contains(x) {
                            let a = choose|a: int| 0 <= a < res@.len() && res@[a] == x;
                            if a < prev.len() {
                                assert(prev[a] == x);
                                assert(prev.contains(x));
                            }
                        }
                        if x < i + 1 && self.buffers@.dom().contains(x) {
                            if x == i {
                                assert(res@[prev.len() as int] == x);
                            } else {
                                assert(prev.contains(x));
                                let a = choose|a: int| 0 <= a < prev.len() && prev[a] == x;
                                assert(res@[a] == x);
                            }
                        }
                    }
                }
            }
            i = i + 1;
        }
        proof {
            assert(res@.to_set() =~= self.buffers().dom());
        }
        res
    }
}

} // verus!
