//! The host side of a stage's Wasm guest: checks on the pointers and lengths
//! the guest hands over, and what each inbound event turns into.
use vstd::prelude::*;
use crate::message::Message;

verus! {

/// Size of the buffer a guest sets aside for inbound payloads (1 MiB); the
/// host never delivers more.
pub const BUFFER_LEN: usize = 1048576;

/// An offset into a guest's linear memory.
#[derive(Clone, Copy, Debug, PartialEq, Eq, Structural)]
pub struct U8WasmPtr {
    pub offset: u32,
}

/// Why the host refuses what the guest asked for or what it was to deliver.
#[derive(Clone, Copy, Debug, PartialEq, Eq, Structural)]
pub enum HostError {
    /// An inbound payload does not fit in the guest's buffer.
    Oversize(usize),
    /// A range reaches past the end of the guest's linear memory.
    OutOfBounds,
    /// The guest named an output topic that the stage does not have: the
    /// index it gave, and the number of topics the stage has.
    TopicIndex(u32, usize),
}

/// `[offset, offset + len)` lies within a memory of `memory_size` bytes.
pub open spec fn in_bounds(offset: u32, len: int, memory_size: int) -> bool {
    offset + len <= memory_size
}

impl U8WasmPtr {
    /// The range `[offset, offset + len)` when it lies within a memory of
    /// `memory_size` bytes.
    pub fn get_range(self, memory_size: usize, len: u32) -> (r: Option<(usize, usize)>)
        ensures
            r is Some <==> in_bounds(self.offset, len as int, memory_size as int),
            r matches Some((s, e)) ==> s == self.offset && e == self.offset + len,
    {
        let off = self.offset as u64;
        let end = off + len as u64;
        if end > memory_size as u64 {
            None
        } else {
            Some((self.offset as usize, end as usize))
        }
    }

    /// A copy of `len` bytes of `memory` from this offset; nothing is read
    /// when the range reaches past the end of `memory`.
    pub fn to_vec(self, memory: &[u8], len: u32) -> (r: Option<Vec<u8>>)
        ensures
            r is Some <==> in_bounds(self.offset, len as int, memory@.len() as int),
            r matches Some(v) ==> v@ == memory@.subrange(
                self.offset as int,
                self.offset + len,
            ),
    {
        match self.get_range(memory.len(), len) {
            None => None,
            Some((s, e)) => {
                let mut out: Vec<u8> = Vec::with_capacity(e - s);
                let mut i: usize = s;
                while i < e
                    invariant
                        s <= i <= e,
                        e <= memory@.len(),
                        out@ == memory@.subrange(s as int, i as int),
                    decreases e - i,
                {
                    out.push(memory[i]);
                    i += 1;
                    assert(out@ =~= memory@.subrange(s as int, i as int));
                }
                Some(out)
            },
        }
    }
}

/// Where an inbound payload of `msg_len` bytes goes in the guest's memory:
/// at the buffer the guest reported, refused when it exceeds the buffer or
/// reaches past the end of memory.
pub fn plan_delivery(buffer: U8WasmPtr, msg_len: usize, memory_size: usize) -> (r: Result<
    (usize, usize),
    HostError,
>)
    ensures
        msg_len > BUFFER_LEN ==> r == Err::<(usize, usize), HostError>(HostError::Oversize(msg_len)),
        msg_len <= BUFFER_LEN && !in_bounds(buffer.offset, msg_len as int, memory_size as int) ==> r
            == Err::<(usize, usize), HostError>(HostError::OutOfBounds),
        r.is_ok() <==> msg_len <= BUFFER_LEN && in_bounds(
            buffer.offset,
            msg_len as int,
            memory_size as int,
        ),
        r matches Ok((s, e)) ==> s == buffer.offset && e == buffer.offset + msg_len && e
            <= memory_size && e - s <= BUFFER_LEN,
{
    if msg_len > BUFFER_LEN {
        return Err(HostError::Oversize(msg_len));
    }
    match buffer.get_range(memory_size, msg_len as u32) {
        None => Err(HostError::OutOfBounds),
        Some(range) => Ok(range),
    }
}

/// What the guest's `send_message_to_topic_idx(topic_idx, ptr, len)` turns
/// into: a message on the stage's `topic_idx`-th output topic holding the
/// guest's bytes.
pub fn topic_message(topics: &Vec<String>, topic_idx: u32, memory: &[u8], ptr: U8WasmPtr, len: u32) -> (r:
    Result<Message, HostError>)
    ensures
        topic_idx >= topics@.len() ==> r == Err::<Message, HostError>(HostError::TopicIndex(topic_idx, topics@.len() as usize)),
        topic_idx < topics@.len() && !in_bounds(ptr.offset, len as int, memory@.len() as int) ==> r
            == Err::<Message, HostError>(HostError::OutOfBounds),
        r.is_ok() <==> topic_idx < topics@.len() && in_bounds(
            ptr.offset,
            len as int,
            memory@.len() as int,
        ),
        r matches Ok(m) ==> m.topic@ == topics@[topic_idx as int]@ && m.data@ == memory@.subrange(
            ptr.offset as int,
            ptr.offset + len,
        ),
{
    if topic_idx as usize >= topics.len() {
        return Err(HostError::TopicIndex(topic_idx, topics.len()));
    }
    match ptr.to_vec(memory, len) {
        None => Err(HostError::OutOfBounds),
        Some(data) => Ok(Message { topic: topics[topic_idx as usize].clone(), data }),
    }
}

/// A frame from the outside stream an input stage reads.
pub enum StreamFrame {
    Text(String),
    Binary(Vec<u8>),
    Ping(Vec<u8>),
    Pong(Vec<u8>),
    Close,
}

/// What an input stage does with a stream frame.
pub enum StreamAction {
    /// Hand these bytes to the guest's `on_message`.
    Deliver(Vec<u8>),
    /// Answer the stream with a pong carrying these bytes.
    Pong(Vec<u8>),
    /// Nothing to do.
    Ignore,
    /// The stream closed; the stage stops.
    Closed,
}

/// Text and binary frames go to the guest (text as its UTF-8 bytes), a ping
/// is answered with a pong of the same bytes, a pong is ignored, and a close
/// ends the stage.
pub fn on_stream_frame(frame: StreamFrame) -> (r: StreamAction)
    ensures
        frame matches StreamFrame::Text(t) ==> r matches StreamAction::Deliver(d) && d@
            == vstd::utf8::encode_utf8(t@),
        frame matches StreamFrame::Binary(b) ==> r matches StreamAction::Deliver(d) && d@ == b@,
        frame matches StreamFrame::Ping(p) ==> r matches StreamAction::Pong(d) && d@ == p@,
        frame matches StreamFrame::Pong(_) ==> r matches StreamAction::Ignore,
        frame matches StreamFrame::Close ==> r matches StreamAction::Closed,
{
    match frame {
        StreamFrame::Text(t) => {
            let b = t.as_str().as_bytes();
            let mut v: Vec<u8> = Vec::with_capacity(b.len());
            let mut k: usize = 0;
            while k < b.len()
                invariant
                    k <= b@.len(),
                    v@ == b@.subrange(0, k as int),
                decreases b.len() - k,
            {
                v.push(b[k]);
                k += 1;
                assert(v@ =~= b@.subrange(0, k as int));
            }
            assert(b@.subrange(0, b@.len() as int) =~= b@);
            StreamAction::Deliver(v)
        },
        StreamFrame::Binary(b) => StreamAction::Deliver(b),
        StreamFrame::Ping(p) => StreamAction::Pong(p),
        StreamFrame::Pong(_) => StreamAction::Ignore,
        StreamFrame::Close => StreamAction::Closed,
    }
}

} // verus!
