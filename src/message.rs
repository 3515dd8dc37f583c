//! Messages and their byte frames.
//!
//! A message travels between processes as one frame:
//! one byte with the topic's length, the topic's UTF-8 bytes, four bytes with
//! the payload's length (big-endian), then the payload.
use vstd::prelude::*;
use vstd::utf8::{decode_utf8, encode_utf8, encode_utf8_decode_utf8, encode_utf8_valid_utf8, valid_utf8};
use vstd::string::StringSliceAdditionalSpecFns;

verus! {

/// Largest topic name, in bytes.
pub const MAX_TOPIC_LEN: usize = 255;

/// Default cap on a message payload, in bytes (1 MiB); a guest's inbound
/// buffer has this size.
pub const MAX_DATA_LEN: usize = 1048576;

/// Largest payload a frame can carry: its length must fit in four bytes.
pub const MAX_FRAME_DATA_LEN: usize = 4294967295;

/// A payload tagged with the name of the topic it is published on.
#[derive(Clone, Debug)]
pub struct Message {
    pub topic: String,
    pub data: Vec<u8>,
}

/// Why a message cannot be framed.
#[derive(Clone, Copy, Debug, PartialEq, Eq, Structural)]
pub enum EncodeError {
    /// The topic is empty.
    EmptyTopic,
    /// The topic is longer than `MAX_TOPIC_LEN` bytes.
    TopicTooLong,
    /// The payload is longer than the cap that was asked for.
    Oversize,
}

/// Why bytes are not a frame of a message.
#[derive(Clone, Copy, Debug, PartialEq, Eq, Structural)]
pub enum DecodeError {
    /// The lengths in the frame do not add up to the frame's size, or the
    /// topic is empty.
    Malformed,
    /// The topic bytes are not UTF-8.
    TopicNotUtf8,
    /// The payload is longer than the cap that was asked for.
    Oversize,
}

/// The UTF-8 bytes of a topic name.
pub open spec fn topic_bytes(topic: Seq<char>) -> Seq<u8> {
    encode_utf8(topic)
}

/// A topic name may be framed: it has between 1 and `MAX_TOPIC_LEN` bytes.
pub open spec fn valid_topic(topic: Seq<char>) -> bool {
    0 < topic_bytes(topic).len() <= MAX_TOPIC_LEN
}

/// The four big-endian bytes of `n`.
pub open spec fn be32(n: u32) -> Seq<u8> {
    seq![
        ((n >> 24u32) & 0xffu32) as u8,
        ((n >> 16u32) & 0xffu32) as u8,
        ((n >> 8u32) & 0xffu32) as u8,
        (n & 0xffu32) as u8,
    ]
}

/// The number that four big-endian bytes stand for.
pub open spec fn be32_value(b0: u8, b1: u8, b2: u8, b3: u8) -> u32 {
    ((b0 as u32) << 24u32) | ((b1 as u32) << 16u32) | ((b2 as u32) << 8u32) | (b3 as u32)
}

/// The frame of a topic (as bytes) and a payload.
pub open spec fn frame_of(topic: Seq<u8>, data: Seq<u8>) -> Seq<u8> {
    seq![topic.len() as u8] + topic + be32(data.len() as u32) + data
}

/// The topic bytes and payload that a frame holds, when it is one.
pub open spec fn parse_frame(b: Seq<u8>) -> Option<(Seq<u8>, Seq<u8>)> {
    if b.len() < 1 {
        None
    } else {
        let t = b[0] as int;
        if t == 0 || b.len() < 5 + t {
            None
        } else {
            let n = be32_value(b[1 + t], b[2 + t], b[3 + t], b[4 + t]) as int;
            if b.len() != 5 + t + n {
                None
            } else {
                Some((b.subrange(1, 1 + t), b.subrange(5 + t, b.len() as int)))
            }
        }
    }
}

/// The result of `encode` on a topic, a payload and a payload cap.
pub open spec fn encode_result(topic: Seq<char>, data: Seq<u8>, max_data: usize) -> Result<
    Seq<u8>,
    EncodeError,
> {
    if topic_bytes(topic).len() == 0 {
        Err(EncodeError::EmptyTopic)
    } else if topic_bytes(topic).len() > MAX_TOPIC_LEN {
        Err(EncodeError::TopicTooLong)
    } else if data.len() > max_data {
        Err(EncodeError::Oversize)
    } else {
        Ok(frame_of(topic_bytes(topic), data))
    }
}

/// The result of `decode` on bytes and a payload cap, with the topic as
/// characters.
pub open spec fn decode_result(b: Seq<u8>, max_data: usize) -> Result<
    (Seq<char>, Seq<u8>),
    DecodeError,
> {
    match parse_frame(b) {
        None => Err(DecodeError::Malformed),
        Some((t, d)) => if !valid_utf8(t) {
            Err(DecodeError::TopicNotUtf8)
        } else if d.len() > max_data {
            Err(DecodeError::Oversize)
        } else {
            Ok((decode_utf8(t), d))
        },
    }
}

proof fn lemma_be32_round_trip(n: u32)
    ensures
        be32_value(be32(n)[0], be32(n)[1], be32(n)[2], be32(n)[3]) == n,
{
    assert(((((((n >> 24u32) & 0xffu32) as u8) as u32) << 24u32) | (((((n >> 16u32) & 0xffu32)
        as u8) as u32) << 16u32) | (((((n >> 8u32) & 0xffu32) as u8) as u32) << 8u32) | (((n
        & 0xffu32) as u8) as u32)) == n) by (bit_vector);
}

/// Decoding the frame of a message gives back its topic and its payload,
/// for every topic of 1 to `MAX_TOPIC_LEN` bytes and every payload within a
/// cap of at most `MAX_FRAME_DATA_LEN` bytes.
pub proof fn lemma_frame_round_trip(topic: Seq<char>, data: Seq<u8>, max_data: usize)
    requires
        valid_topic(topic),
        max_data <= MAX_FRAME_DATA_LEN,
        data.len() <= max_data,
    ensures
        encode_result(topic, data, max_data) is Ok,
        decode_result(encode_result(topic, data, max_data)->Ok_0, max_data) == Ok::<
            (Seq<char>, Seq<u8>),
            DecodeError,
        >((topic, data)),
{
    let t = topic_bytes(topic);
    lemma_frame_parses(t, data);
    encode_utf8_decode_utf8(topic);
    encode_utf8_valid_utf8(topic);
}

proof fn lemma_frame_parses(t: Seq<u8>, data: Seq<u8>)
    requires
        0 < t.len() <= MAX_TOPIC_LEN,
        data.len() <= u32::MAX,
    ensures
        parse_frame(frame_of(t, data)) == Some((t, data)),
{
    let f = frame_of(t, data);
    let n = data.len() as u32;
    let k = t.len() as int;
    assert(f[0] == t.len() as u8);
    assert(f[0] as int == k);
    assert(f.len() == 5 + k + data.len());
    assert(f[1 + k] == be32(n)[0]);
    assert(f[2 + k] == be32(n)[1]);
    assert(f[3 + k] == be32(n)[2]);
    assert(f[4 + k] == be32(n)[3]);
    lemma_be32_round_trip(n);
    assert(f.subrange(1, 1 + k) =~= t);
    assert(f.subrange(5 + k, f.len() as int) =~= data);
}

/// Appends the four big-endian bytes of `n`.
fn push_be32(out: &mut Vec<u8>, n: u32)
    ensures
        final(out)@ == old(out)@ + be32(n),
{
    out.push(((n >> 24u32) & 0xffu32) as u8);
    out.push(((n >> 16u32) & 0xffu32) as u8);
    out.push(((n >> 8u32) & 0xffu32) as u8);
    out.push((n & 0xffu32) as u8);
    assert(final(out)@ =~= old(out)@ + be32(n));
}

/// Appends all of `src`.
fn push_all(out: &mut Vec<u8>, src: &[u8])
    ensures
        final(out)@ == old(out)@ + src@,
{
    let ghost start = out@;
    let mut i: usize = 0;
    while i < src.len()
        invariant
            i <= src.len(),
            out@ == start + src@.subrange(0, i as int),
        decreases src.len() - i,
    {
        out.push(src[i]);
        i += 1;
        assert(out@ =~= start + src@.subrange(0, i as int));
    }
    assert(src@.subrange(0, src.len() as int) =~= src@);
}

/// Frames `msg`, refusing an empty or over-long topic and a payload longer
/// than `max_data` bytes.
pub fn encode(msg: &Message, max_data: usize) -> (r: Result<Vec<u8>, EncodeError>)
    requires
        max_data <= MAX_FRAME_DATA_LEN,
    ensures
        r.is_ok() ==> r->Ok_0@ == encode_result(msg.topic@, msg.data@, max_data)->Ok_0,
        r.is_ok() <==> encode_result(msg.topic@, msg.data@, max_data).is_ok(),
        r.is_err() ==> r->Err_0 == encode_result(msg.topic@, msg.data@, max_data)->Err_0,
{
    let topic = msg.topic.as_str().as_bytes();
    let tlen = topic.len();
    if tlen == 0 {
        return Err(EncodeError::EmptyTopic);
    }
    if tlen > MAX_TOPIC_LEN {
        return Err(EncodeError::TopicTooLong);
    }
    let dlen = msg.data.len();
    if dlen > max_data {
        return Err(EncodeError::Oversize);
    }
    let mut out: Vec<u8> = Vec::new();
    out.push(tlen as u8);
    push_all(&mut out, topic);
    push_be32(&mut out, dlen as u32);
    push_all(&mut out, msg.data.as_slice());
    Ok(out)
}

/// Copies `src[start..end]`.
fn copy_range(src: &[u8], start: usize, end: usize) -> (r: Vec<u8>)
    requires
        start <= end <= src.len(),
    ensures
        r@ == src@.subrange(start as int, end as int),
{
    let mut out: Vec<u8> = Vec::with_capacity(end - start);
    let mut i: usize = start;
    while i < end
        invariant
            start <= i <= end,
            end <= src.len(),
            out@ == src@.subrange(start as int, i as int),
        decreases end - i,
    {
        out.push(src[i]);
        i += 1;
        assert(out@ =~= src@.subrange(start as int, i as int));
    }
    out
}

/// The topic bytes and the payload of a frame, or `None` where the lengths it
/// holds do not match its size.
pub fn split_frame(b: &[u8]) -> (r: Option<(Vec<u8>, Vec<u8>)>)
    ensures
        r is None <==> parse_frame(b@) is None,
        r matches Some((t, d)) ==> parse_frame(b@) == Some((t@, d@)),
{
    if b.len() < 1 {
        return None;
    }
    let t = b[0] as usize;
    if t == 0 || b.len() < 5 + t {
        return None;
    }
    let n = ((b[1 + t] as u32) << 24u32) | ((b[2 + t] as u32) << 16u32) | ((b[3 + t] as u32)
        << 8u32) | (b[4 + t] as u32);
    assert(n == be32_value(b@[1 + t], b@[2 + t], b@[3 + t], b@[4 + t]));
    if (b.len() - 5 - t) as u64 != n as u64 {
        return None;
    }
    let topic = copy_range(b, 1, 1 + t);
    let data = copy_range(b, 5 + t, b.len());
    Some((topic, data))
}

/// Relies on `std::str::from_utf8`: it succeeds exactly on UTF-8 bytes, and
/// the string it then returns is made of those bytes.
#[verifier::external_body]
fn str_from_utf8(b: &[u8]) -> (r: Option<&str>)
    ensures
        r is Some <==> valid_utf8(b@),
        r matches Some(s) ==> s.spec_bytes() == b@,
{
    std::str::from_utf8(b).ok()
}

/// Reads a message from its frame, refusing a payload longer than
/// `max_data` bytes.
pub fn decode(b: &[u8], max_data: usize) -> (r: Result<Message, DecodeError>)
    ensures
        r.is_ok() <==> decode_result(b@, max_data).is_ok(),
        r.is_ok() ==> decode_result(b@, max_data)->Ok_0 == (r->Ok_0.topic@, r->Ok_0.data@),
        r.is_err() ==> r->Err_0 == decode_result(b@, max_data)->Err_0,
{
    match split_frame(b) {
        None => Err(DecodeError::Malformed),
        Some((t, d)) => {
            match str_from_utf8(t.as_slice()) {
                None => Err(DecodeError::TopicNotUtf8),
                Some(s) => {
                    let topic = s.to_owned();
                    proof {
                        encode_utf8_decode_utf8(s@);
                    }
                    if d.len() > max_data {
                        Err(DecodeError::Oversize)
                    } else {
                        Ok(Message { topic, data: d })
                    }
                },
            }
        },
    }
}

} // verus!
