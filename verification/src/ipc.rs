//! The framing of messages on the wire: every message is its encoded bytes
//! behind a four byte little-endian length.
use vstd::prelude::*;
use crate::rpc;

verus! {

/// What a plugin and the switchboard send each other.
#[derive(Debug, Clone, PartialEq, Eq)]
pub enum Message {
    RpcCall(rpc::Call),
    RpcResponse(rpc::Response),
    RpcCancel(rpc::Cancel),
}

/// The number that four little-endian bytes stand for.
pub open spec fn decode_length(bytes: Seq<u8>) -> nat
    recommends
        bytes.len() >= 4,
{
    (bytes[0] + 256 * bytes[1] + 65536 * bytes[2] + 16777216 * bytes[3]) as nat
}

/// The four little-endian bytes of `len` modulo 2^32.
pub open spec fn encode_length(len: nat) -> Seq<u8> {
    seq![
        (len % 256) as u8,
        ((len / 256) % 256) as u8,
        ((len / 65536) % 256) as u8,
        ((len / 16777216) % 256) as u8,
    ]
}

/// The bytes that stand on the wire for a message whose encoding is `payload`.
pub open spec fn frame(payload: Seq<u8>) -> Seq<u8> {
    encode_length(payload.len()) + payload
}

/// The length that the first four bytes of `buf` give.
pub fn parse_length(buf: &[u8]) -> (len: usize)
    requires
        buf@.len() >= 4,
    ensures
        len == decode_length(buf@),
{
    let b0 = buf[0];
    let b1 = buf[1];
    let b2 = buf[2];
    let b3 = buf[3];
    assert(((b3 as u32) << 24u32) | ((b2 as u32) << 16u32) | ((b1 as u32) << 8u32) | ((b0 as u32) << 0u32)
        == b0 + 256 * b1 + 65536 * b2 + 16777216 * b3) by (bit_vector);
    let len: u32 = ((b3 as u32) << 24u32) | ((b2 as u32) << 16u32) | ((b1 as u32) << 8u32) | ((b0 as u32) << 0u32);
    len as usize
}

/// The four bytes that announce a message of `len` bytes.
pub fn length_prefix(len: usize) -> (prefix: Vec<u8>)
    ensures
        prefix@ == encode_length(len as nat),
{
    let l = len as u64;
    assert((l >> 0u64) as u8 == (l % 256) as u8) by (bit_vector);
    assert((l >> 8u64) as u8 == ((l / 256) % 256) as u8) by (bit_vector);
    assert((l >> 16u64) as u8 == ((l / 65536) % 256) as u8) by (bit_vector);
    assert((l >> 24u64) as u8 == ((l / 16777216) % 256) as u8) by (bit_vector);
    let prefix = vec![(l >> 0u64) as u8, (l >> 8u64) as u8, (l >> 16u64) as u8, (l >> 24u64) as u8];
    assert(prefix@ =~= encode_length(len as nat));
    prefix
}

/// Decoding a prefix gives back the length modulo 2^32.
pub proof fn lemma_length_roundtrip(len: nat)
    ensures
        decode_length(encode_length(len)) == len % 4294967296,
{
    let b0 = len % 256;
    let b1 = (len / 256) % 256;
    let b2 = (len / 65536) % 256;
    let b3 = (len / 16777216) % 256;
    assert(b0 + 256 * b1 + 65536 * b2 + 16777216 * b3 == len % 4294967296) by (nonlinear_arith)
        requires
            b0 == len % 256,
            b1 == (len / 256) % 256,
            b2 == (len / 65536) % 256,
            b3 == (len / 16777216) % 256,
    {
        vstd::arithmetic::div_mod::lemma_fundamental_div_mod(len as int, 256);
        vstd::arithmetic::div_mod::lemma_div_denominator(len as int, 256, 256);
        vstd::arithmetic::div_mod::lemma_div_denominator(len as int, 65536, 256);
        vstd::arithmetic::div_mod::lemma_fundamental_div_mod((len / 256) as int, 256);
        vstd::arithmetic::div_mod::lemma_fundamental_div_mod((len / 65536) as int, 256);
        vstd::arithmetic::div_mod::lemma_fundamental_div_mod((len / 16777216) as int, 256);
        vstd::arithmetic::div_mod::lemma_fundamental_div_mod(len as int, 4294967296);
        vstd::arithmetic::div_mod::lemma_div_denominator(len as int, 16777216, 256);
    }
}

/// Reads length-prefixed messages out of the bytes that arrive on a socket.
pub struct Reader<T> {
    pub socket: T,
    buffer: Vec<u8>,
}

/// Whether `bytes` begins with a complete frame.
pub open spec fn has_frame(bytes: Seq<u8>) -> bool {
    bytes.len() >= 4 && bytes.len() >= 4 + decode_length(bytes)
}

/// The payload of the frame that `bytes` begins with.
pub open spec fn first_payload(bytes: Seq<u8>) -> Seq<u8> {
    bytes.subrange(4, 4 + decode_length(bytes) as int)
}

/// What stays of `bytes` once its first frame is taken off.
pub open spec fn after_first_frame(bytes: Seq<u8>) -> Seq<u8> {
    bytes.subrange(4 + decode_length(bytes) as int, bytes.len() as int)
}

impl<T> Reader<T> {
    /// The bytes received and not yet taken off as a frame.
    pub closed spec fn pending(&self) -> Seq<u8> {
        self.buffer@
    }

    /// The socket that the reader reads from.
    pub closed spec fn held_socket(&self) -> T {
        self.socket
    }

    pub fn new(socket: T) -> (reader: Self)
        ensures
            reader.held_socket() == socket,
            reader.pending() == Seq::<u8>::empty(),
    {
        Reader { socket, buffer: Vec::with_capacity(1024) }
    }

    /// Appends bytes that arrived on the socket.
    pub fn push_data(&mut self, data: &[u8])
        ensures
            final(self).pending() == old(self).pending() + data@,
            final(self).held_socket() == old(self).held_socket(),
    {
        let mut i: usize = 0;
        while i < data.len()
            invariant
                i <= data@.len(),
                self.buffer@ == old(self).buffer@ + data@.subrange(0, i as int),
                self.socket == old(self).socket,
            decreases data@.len() - i,
        {
            self.buffer.push(data[i]);
            i = i + 1;
            assert(self.buffer@ =~= old(self).buffer@ + data@.subrange(0, i as int));
        }
        assert(data@.subrange(0, data@.len() as int) =~= data@);
    }

    /// Takes the next complete frame off the received bytes and hands out its
    /// payload; `None` while no complete frame has arrived.
    pub fn next_frame(&mut self) -> (payload: Option<Vec<u8>>)
        ensures
            final(self).held_socket() == old(self).held_socket(),
            has_frame(old(self).pending()) ==> {
                &&& payload matches Some(p) && p@ == first_payload(old(self).pending())
                &&& final(self).pending() == after_first_frame(old(self).pending())
            },
            !has_frame(old(self).pending()) ==> {
                &&& payload is None
                &&& final(self).pending() == old(self).pending()
            },
    {
        if self.buffer.len() < 4 {
            return None;
        }
        let msg_len = parse_length(self.buffer.as_slice());
        if self.buffer.len() - 4 < msg_len {
            return None;
        }
        let end = 4 + msg_len;
        let rest = self.buffer.split_off(end);
        let payload = self.buffer.split_off(4);
        self.buffer = rest;
        Some(payload)
    }
}

/// Whether the writer may go on writing or has nothing left.
#[derive(Debug, Clone, Copy, PartialEq, Eq, Structural)]
pub enum WriterState {
    MoreToWrite,
    AllWritten,
}

/// Queues length-prefixed messages and hands their bytes out to a socket in
/// order, however few of them the socket takes at a time.
pub struct Writer<T> {
    // The number of bytes of to_write[0] already written.
    num_written: usize,
    to_write: Vec<Vec<u8>>,
    pub socket: T,
}

/// The bytes that a queue of chunks stands for.
pub open spec fn chunks_bytes(chunks: Seq<Vec<u8>>) -> Seq<u8> {
    chunks.map_values(|c: Vec<u8>| c@).flatten()
}

impl<T> Writer<T> {
    pub closed spec fn wf(&self) -> bool {
        &&& (self.to_write@.len() == 0 ==> self.num_written == 0)
        &&& (self.to_write@.len() > 0 ==> self.num_written < self.to_write@[0]@.len())
        &&& forall|i: int| 0 <= i < self.to_write@.len() ==> #[trigger] self.to_write@[i]@.len() > 0
    }

    /// The bytes queued and not yet written, in the order they go out.
    pub closed spec fn pending(&self) -> Seq<u8> {
        chunks_bytes(self.to_write@).skip(self.num_written as int)
    }

    /// How many bytes of the front chunk are still to be written.
    pub closed spec fn front_remaining(&self) -> int {
        if self.to_write@.len() > 0 { self.to_write@[0]@.len() - self.num_written } else { 0 }
    }

    /// The socket that the writer writes to.
    pub closed spec fn held_socket(&self) -> T {
        self.socket
    }

    pub fn new(socket: T) -> (writer: Self)
        ensures
            writer.wf(),
            writer.held_socket() == socket,
            writer.pending() == Seq::<u8>::empty(),
    {
        let w = Writer { socket, num_written: 0, to_write: Vec::new() };
        assert(w.to_write@.map_values(|c: Vec<u8>| c@) =~= Seq::<Seq<u8>>::empty());
        w
    }

    proof fn lemma_push_chunk(chunks: Seq<Vec<u8>>, c: Vec<u8>)
        ensures
            chunks_bytes(chunks.push(c)) == chunks_bytes(chunks) + c@,
    {
        assert(chunks.push(c).map_values(|c: Vec<u8>| c@) =~= chunks.map_values(|c: Vec<u8>| c@).push(c@));
        chunks.map_values(|c: Vec<u8>| c@).lemma_flatten_push(c@);
    }

    proof fn lemma_pop_chunk(chunks: Seq<Vec<u8>>)
        requires
            chunks.len() > 0,
        ensures
            chunks_bytes(chunks) == chunks[0]@ + chunks_bytes(chunks.drop_first()),
    {
        let m = chunks.map_values(|c: Vec<u8>| c@);
        assert(m.drop_first() =~= chunks.drop_first().map_values(|c: Vec<u8>| c@));
    }

    fn push_chunk(&mut self, chunk: Vec<u8>)
        requires
            old(self).wf(),
            chunk@.len() > 0,
        ensures
            final(self).wf(),
            final(self).held_socket() == old(self).held_socket(),
            final(self).pending() == old(self).pending() + chunk@,
    {
        proof { Self::lemma_push_chunk(self.to_write@, chunk); }
        let ghost c = chunk@;
        self.to_write.push(chunk);
        proof {
            let old_bytes = chunks_bytes(old(self).to_write@);
            assert(self.num_written <= old_bytes.len()) by {
                if old(self).to_write@.len() > 0 {
                    Self::lemma_pop_chunk(old(self).to_write@);
                }
            }
            assert((old_bytes + c).skip(self.num_written as int)
                =~= old_bytes.skip(self.num_written as int) + c);
        }
    }

    /// Queues a message, given as its encoded bytes, behind a length prefix.
    pub fn queue_message(&mut self, encoded: Vec<u8>)
        requires
            old(self).wf(),
        ensures
            final(self).wf(),
            final(self).held_socket() == old(self).held_socket(),
            final(self).pending() == old(self).pending() + frame(encoded@),
    {
        let ghost e = encoded@;
        let len = length_prefix(encoded.len());
        self.push_chunk(len);
        if encoded.len() > 0 {
            self.push_chunk(encoded);
        }
        assert(old(self).pending() + frame(e) =~= old(self).pending() + encode_length(e.len()) + e);
    }

    /// Whether every queued byte has been written.
    pub fn is_empty(&self) -> (res: bool)
        requires
            self.wf(),
        ensures
            res == (self.pending().len() == 0),
    {
        proof {
            if self.to_write@.len() > 0 {
                Self::lemma_pop_chunk(self.to_write@);
            }
        }
        self.to_write.len() == 0
    }

    /// The chunk that goes out next and how many of its bytes are already
    /// written; `None` once everything is written.
    pub fn unwritten_front(&self) -> (front: Option<(&Vec<u8>, usize)>)
        requires
            self.wf(),
        ensures
            front is None <==> self.pending().len() == 0,
            front matches Some((chunk, offset)) ==> {
                &&& offset < chunk@.len()
                &&& chunk@.len() - offset == self.front_remaining()
                &&& chunk@.skip(offset as int) == self.pending().take(chunk@.len() - offset)
            },
    {
        proof {
            if self.to_write@.len() > 0 {
                Self::lemma_pop_chunk(self.to_write@);
                let c = self.to_write@[0]@;
                let rest = chunks_bytes(self.to_write@.drop_first());
                assert((c + rest).skip(self.num_written as int).take(c.len() - self.num_written)
                    =~= c.skip(self.num_written as int));
            }
        }
        if self.to_write.len() == 0 {
            None
        } else {
            Some((&self.to_write[0], self.num_written))
        }
    }

    /// Records that the socket took `n` more bytes of the front chunk; true
    /// when that finished the chunk.
    pub fn advance(&mut self, n: usize) -> (chunk_done: bool)
        requires
            old(self).wf(),
            old(self).pending().len() > 0,
            n <= old(self).front_remaining(),
        ensures
            final(self).wf(),
            final(self).held_socket() == old(self).held_socket(),
            final(self).pending() == old(self).pending().skip(n as int),
            chunk_done == (n == old(self).front_remaining()),
    {
        proof { Self::lemma_pop_chunk(self.to_write@); }
        let ghost old_pending = self.pending();
        let front_len = self.to_write[0].len();
        if self.num_written + n == front_len {
            self.to_write.remove(0);
            self.num_written = 0;
            proof {
                let c = old(self).to_write@[0]@;
                let rest = chunks_bytes(old(self).to_write@.drop_first());
                assert(self.to_write@ =~= old(self).to_write@.drop_first());
                assert((c + rest).skip(old(self).num_written as int).skip(n as int) =~= rest);
                assert(forall|i: int| 0 <= i < self.to_write@.len() ==> self.to_write@[i] == old(self).to_write@[i + 1]);
            }
            true
        } else {
            self.num_written = self.num_written + n;
            proof {
                let c = old(self).to_write@[0]@;
                let rest = chunks_bytes(old(self).to_write@.drop_first());
                assert((c + rest).skip(old(self).num_written as int).skip(n as int)
                    =~= (c + rest).skip(self.num_written as int));
            }
            false
        }
    }
}

/// A frame read back gives the payload that was framed, and leaves the bytes
/// behind it untouched, for every payload shorter than 2^32 bytes.
pub proof fn lemma_frame_roundtrip(payload: Seq<u8>, rest: Seq<u8>)
    requires
        payload.len() < 4294967296,
    ensures
        has_frame(frame(payload) + rest),
        first_payload(frame(payload) + rest) == payload,
        after_first_frame(frame(payload) + rest) == rest,
{
    lemma_length_roundtrip(payload.len());
    let bytes = frame(payload) + rest;
    assert(bytes.subrange(0, 4) =~= encode_length(payload.len()));
    assert(decode_length(bytes) == decode_length(encode_length(payload.len())));
    assert(first_payload(bytes) =~= payload);
    assert(after_first_frame(bytes) =~= rest);
}

/// A frame that has only partly arrived is not read: whatever part of it
/// has come, no message is handed out before its last byte is there.
pub proof fn lemma_partial_frame_waits(payload: Seq<u8>, n: int)
    requires
        payload.len() < 4294967296,
        0 <= n < frame(payload).len(),
    ensures
        !has_frame(frame(payload).take(n)),
{
    let bytes = frame(payload).take(n);
    if n >= 4 {
        lemma_length_roundtrip(payload.len());
        assert(bytes[0] == frame(payload)[0] && bytes[1] == frame(payload)[1]);
        assert(bytes[2] == frame(payload)[2] && bytes[3] == frame(payload)[3]);
        assert(decode_length(bytes) == decode_length(encode_length(payload.len())));
    }
}

/// A frame that arrives in pieces is read once it is complete, as the
/// payload that was framed; what is left is what came behind it, so the
/// frame is not read a second time.
pub proof fn lemma_split_frame_read_once(payload: Seq<u8>, pieces: Seq<Seq<u8>>, rest: Seq<u8>)
    requires
        payload.len() < 4294967296,
        pieces.flatten() == frame(payload) + rest,
    ensures
        has_frame(pieces.flatten()),
        first_payload(pieces.flatten()) == payload,
        after_first_frame(pieces.flatten()) == rest,
{
    lemma_frame_roundtrip(payload, rest);
}

/// The bytes that a run of writes hands to the socket when the `i`-th write
/// takes `sizes[i]` bytes from the front of what is queued.
pub open spec fn written(pending: Seq<u8>, sizes: Seq<nat>) -> Seq<u8>
    decreases sizes.len(),
{
    if sizes.len() == 0 {
        Seq::empty()
    } else {
        pending.take(sizes[0] as int) + written(pending.skip(sizes[0] as int), sizes.drop_first())
    }
}

/// What is left queued after such a run of writes.
pub open spec fn left_after(pending: Seq<u8>, sizes: Seq<nat>) -> Seq<u8>
    decreases sizes.len(),
{
    if sizes.len() == 0 {
        pending
    } else {
        left_after(pending.skip(sizes[0] as int), sizes.drop_first())
    }
}

/// How many bytes a run of writes took.
pub open spec fn total(sizes: Seq<nat>) -> nat
    decreases sizes.len(),
{
    if sizes.len() == 0 { 0 } else { sizes[0] + total(sizes.drop_first()) }
}

/// However the socket splits its writes, it gets exactly the queued bytes,
/// in order, none twice and none left out, and what stays queued, also
/// when a write fails part way, is exactly the bytes it has not taken.
pub proof fn lemma_writes_deliver_queue(pending: Seq<u8>, sizes: Seq<nat>)
    requires
        total(sizes) <= pending.len(),
    ensures
        written(pending, sizes) == pending.take(total(sizes) as int),
        left_after(pending, sizes) == pending.skip(total(sizes) as int),
        written(pending, sizes) + left_after(pending, sizes) == pending,
    decreases sizes.len(),
{
    if sizes.len() > 0 {
        let n = sizes[0] as int;
        lemma_writes_deliver_queue(pending.skip(n), sizes.drop_first());
        let t = total(sizes.drop_first()) as int;
        assert(pending.take(n) + pending.skip(n).take(t) =~= pending.take(n + t));
        assert(pending.skip(n).skip(t) =~= pending.skip(n + t));
    }
    assert(pending.take(total(sizes) as int) + pending.skip(total(sizes) as int) =~= pending);
}

} // verus!
