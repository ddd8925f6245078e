//! Message codec and length-prefixed frames: a frame is the payload length as
//! four big-endian bytes followed by the payload, the bytes of one message.
//! A decode buffer collects bytes as they arrive and hands out whole frames,
//! keeping a partial frame until the rest comes.

use vstd::prelude::*;
use vstd::bytes::{spec_u32_to_le_bytes, spec_u32_from_le_bytes, lemma_auto_spec_u32_to_from_le_bytes, u32_to_le_bytes, u32_from_le_bytes};
use crate::binary::{append_bytes, copy_range};
use crate::message::{NetworkMessage, NetworkMessageV, message_check, validation_text};
use crate::p2p_error::{P2pError, P2pErrorV};
use crate::text::{dec_u64, dec_nat};
use crate::wire::{encode_message, decode_message, msg_bytes, parse_msg, msg_fits, lemma_parse_encoded};

verus! {

/// Largest payload a frame may carry by default.
pub const DEFAULT_MAX_FRAME_LEN: usize = 1_048_576;

/// Four big-endian bytes.
pub open spec fn be_u32(x: u32) -> Seq<u8> {
    let l = spec_u32_to_le_bytes(x);
    seq![l[3], l[2], l[1], l[0]]
}

/// The number in four big-endian bytes.
pub open spec fn from_be_u32(s: Seq<u8>) -> u32 {
    spec_u32_from_le_bytes(seq![s[3], s[2], s[1], s[0]])
}

/// The text of a failed read.
pub open spec fn deserialize_text() -> Seq<char> {
    "bytes do not form a message"@
}

/// The text for a frame over the limit.
pub open spec fn oversized_text(len: nat, max: nat) -> Seq<char> {
    "消息帧过大: len="@ + dec_nat(len) + ", max="@ + dec_nat(max)
}

/// What encoding a message gives: its bytes, unless it fails its check.
pub open spec fn encode_spec(m: NetworkMessageV) -> Result<Seq<u8>, P2pErrorV> {
    match message_check(m) {
        Err(e) => Err(P2pErrorV::InvalidMessage(validation_text(e))),
        Ok(_) => Ok(msg_bytes(m)),
    }
}

/// What decoding bytes gives: the message at their start, if it passes its check.
pub open spec fn decode_spec(d: Seq<u8>) -> Result<NetworkMessageV, P2pErrorV> {
    match parse_msg(d) {
        None => Err(P2pErrorV::Deserialize(deserialize_text())),
        Some((m, _)) => match message_check(m) {
            Err(e) => Err(P2pErrorV::InvalidMessage(validation_text(e))),
            Ok(_) => Ok(m),
        },
    }
}

/// What framing a message gives.
pub open spec fn encode_frame_spec(m: NetworkMessageV, max: usize) -> Result<Seq<u8>, P2pErrorV> {
    match encode_spec(m) {
        Err(e) => Err(e),
        Ok(p) => if p.len() > max {
            Err(P2pErrorV::InvalidArgument(oversized_text(p.len(), max as nat)))
        } else {
            Ok(be_u32(p.len() as u32) + p)
        },
    }
}

/// What reading a frame at the start of `d` gives: `None` while the frame is incomplete.
pub open spec fn decode_frame_spec(d: Seq<u8>, max: usize) -> Result<Option<(NetworkMessageV, nat)>, P2pErrorV> {
    if d.len() < 4 {
        Ok(None)
    } else {
        let n = from_be_u32(d.subrange(0, 4)) as nat;
        if n > max {
            Err(P2pErrorV::InvalidArgument(oversized_text(n, max as nat)))
        } else if d.len() < 4 + n {
            Ok(None)
        } else {
            match decode_spec(d.subrange(4, (4 + n) as int)) {
                Err(e) => Err(e),
                Ok(m) => Ok(Some((m, 4 + n))),
            }
        }
    }
}

/// What draining a buffer gives: the remaining bytes and the messages taken,
/// or the error that stopped it (the frames before it are dropped from the buffer).
pub open spec fn drain_spec(d: Seq<u8>, max: usize) -> (Seq<u8>, Result<Seq<NetworkMessageV>, P2pErrorV>)
    decreases d.len(),
{
    match decode_frame_spec(d, max) {
        Err(e) => (d, Err(e)),
        Ok(None) => (d, Ok(Seq::empty())),
        Ok(Some((m, k))) => if 4 <= k <= d.len() {
            let (rest, r) = drain_spec(d.subrange(k as int, d.len() as int), max);
            match r {
                Err(e) => (rest, Err(e)),
                Ok(ms) => (rest, Ok(seq![m] + ms)),
            }
        } else {
            (d, Ok(Seq::empty()))
        },
    }
}

/// Messages, viewed.
pub open spec fn messages_view(v: Seq<NetworkMessage>) -> Seq<NetworkMessageV> {
    v.map_values(|m: NetworkMessage| m@)
}

/// An error, viewed.
pub open spec fn err_view<T>(r: Result<T, P2pError>) -> P2pErrorV {
    r->Err_0@
}

/// Encodes and checks messages.
pub struct MessageCodec;

impl MessageCodec {
    /// The bytes of a message that passes its structural check.
    pub fn encode(message: &NetworkMessage) -> (r: Result<Vec<u8>, P2pError>)
        ensures
            match r {
                Ok(b) => encode_spec(message@) == Ok::<Seq<u8>, P2pErrorV>(b@),
                Err(e) => encode_spec(message@) == Err::<Seq<u8>, P2pErrorV>(e@),
            },
            r is Ok ==> msg_fits(message@),
    {
        match message.validate_basic() {
            Err(e) => Err(P2pError::InvalidMessage(e.message())),
            Ok(()) => Ok(encode_message(message)),
        }
    }

    /// The message at the start of `data`, if it passes its structural check.
    pub fn decode(data: &[u8]) -> (r: Result<NetworkMessage, P2pError>)
        ensures
            match r {
                Ok(m) => decode_spec(data@) == Ok::<NetworkMessageV, P2pErrorV>(m@),
                Err(e) => decode_spec(data@) == Err::<NetworkMessageV, P2pErrorV>(e@),
            },
    {
        match decode_message(data) {
            None => Err(P2pError::Deserialize(String::from_str("bytes do not form a message"))),
            Some((m, _)) => match m.validate_basic() {
                Err(e) => Err(P2pError::InvalidMessage(e.message())),
                Ok(()) => Ok(m),
            },
        }
    }
}

/// Decoding what encoding gave returns the message.
pub proof fn lemma_codec_roundtrip(m: NetworkMessageV, bytes: Seq<u8>)
    requires
        msg_fits(m),
        encode_spec(m) == Ok::<Seq<u8>, P2pErrorV>(bytes),
    ensures
        decode_spec(bytes) == Ok::<NetworkMessageV, P2pErrorV>(m),
{
    lemma_parse_encoded(m, Seq::empty());
    assert(msg_bytes(m) + Seq::<u8>::empty() =~= msg_bytes(m));
}

/// A frame read from a buffer.
#[derive(Debug, Clone, PartialEq, Eq)]
pub struct DecodedFrame {
    /// The message.
    pub message: NetworkMessage,
    /// Bytes taken from the buffer.
    pub consumed: usize,
}

/// Length-prefixed frames.
pub struct FramedMessageCodec;

/// The text for a frame over the limit.
fn oversized(len: usize, max: usize) -> (r: String)
    ensures
        r@ == oversized_text(len as nat, max as nat),
{
    let mut s = String::from_str("消息帧过大: len=");
    let a = dec_u64(len as u64);
    s.append(a.as_str());
    s.append(", max=");
    let b = dec_u64(max as u64);
    s.append(b.as_str());
    s
}

impl FramedMessageCodec {
    /// A frame for the message, with the default limit.
    pub fn encode_frame(message: &NetworkMessage) -> (r: Result<Vec<u8>, P2pError>)
        ensures
            match r {
                Ok(b) => encode_frame_spec(message@, DEFAULT_MAX_FRAME_LEN) == Ok::<Seq<u8>, P2pErrorV>(b@),
                Err(e) => encode_frame_spec(message@, DEFAULT_MAX_FRAME_LEN) == Err::<Seq<u8>, P2pErrorV>(e@),
            },
            r is Ok ==> msg_fits(message@),
    {
        Self::encode_frame_with_max_len(message, DEFAULT_MAX_FRAME_LEN)
    }

    /// A frame for the message, refused when the payload exceeds `max_frame_len`.
    pub fn encode_frame_with_max_len(message: &NetworkMessage, max_frame_len: usize) -> (r: Result<Vec<u8>, P2pError>)
        ensures
            match r {
                Ok(b) => encode_frame_spec(message@, max_frame_len) == Ok::<Seq<u8>, P2pErrorV>(b@),
                Err(e) => encode_frame_spec(message@, max_frame_len) == Err::<Seq<u8>, P2pErrorV>(e@),
            },
            r is Ok ==> msg_fits(message@),
    {
        let payload = match MessageCodec::encode(message) {
            Ok(p) => p,
            Err(e) => { return Err(e); },
        };
        if payload.len() > max_frame_len {
            return Err(P2pError::InvalidArgument(oversized(payload.len(), max_frame_len)));
        }
        let le = u32_to_le_bytes(payload.len() as u32);
        let mut frame: Vec<u8> = Vec::new();
        frame.push(le[3]);
        frame.push(le[2]);
        frame.push(le[1]);
        frame.push(le[0]);
        append_bytes(&mut frame, payload.as_slice());
        proof {
            assert(frame@ =~= be_u32(payload@.len() as u32) + payload@);
        }
        Ok(frame)
    }

    /// Reads a frame at the start of `data`, with the default limit.
    pub fn decode_frame(data: &[u8]) -> (r: Result<Option<DecodedFrame>, P2pError>)
        ensures
            frame_result(r) == decode_frame_spec(data@, DEFAULT_MAX_FRAME_LEN),
    {
        Self::decode_frame_with_max_len(data, DEFAULT_MAX_FRAME_LEN)
    }

    /// Reads a frame at the start of `data`: `None` while it is incomplete,
    /// an error when its announced length exceeds `max_frame_len` or its
    /// payload is not a valid message.
    pub fn decode_frame_with_max_len(data: &[u8], max_frame_len: usize) -> (r: Result<Option<DecodedFrame>, P2pError>)
        ensures
            frame_result(r) == decode_frame_spec(data@, max_frame_len),
    {
        if data.len() < 4 {
            return Ok(None);
        }
        let mut head: Vec<u8> = Vec::new();
        head.push(data[3]);
        head.push(data[2]);
        head.push(data[1]);
        head.push(data[0]);
        let payload_len = u32_from_le_bytes(head.as_slice()) as usize;
        proof {
            assert(head@ =~= seq![data@.subrange(0, 4)[3], data@.subrange(0, 4)[2], data@.subrange(0, 4)[1], data@.subrange(0, 4)[0]]);
        }
        if payload_len > max_frame_len {
            return Err(P2pError::InvalidArgument(oversized(payload_len, max_frame_len)));
        }
        if data.len() - 4 < payload_len {
            return Ok(None);
        }
        let frame_len = 4 + payload_len;
        let payload = copy_range(data, 4, frame_len);
        match MessageCodec::decode(payload.as_slice()) {
            Err(e) => Err(e),
            Ok(message) => Ok(Some(DecodedFrame { message, consumed: frame_len })),
        }
    }
}

/// A frame result, viewed.
pub open spec fn frame_result(r: Result<Option<DecodedFrame>, P2pError>) -> Result<Option<(NetworkMessageV, nat)>, P2pErrorV> {
    match r {
        Ok(None) => Ok(None),
        Ok(Some(f)) => Ok(Some((f.message@, f.consumed as nat))),
        Err(e) => Err(e@),
    }
}

/// Reading the frame of a message gives the message and the whole frame's length.
pub proof fn law_frame_roundtrip(m: NetworkMessageV, max: usize, frame: Seq<u8>, rest: Seq<u8>)
    requires
        msg_fits(m),
        encode_frame_spec(m, max) == Ok::<Seq<u8>, P2pErrorV>(frame),
        max <= u32::MAX,
    ensures
        decode_frame_spec(frame + rest, max) == Ok::<Option<(NetworkMessageV, nat)>, P2pErrorV>(Some((m, frame.len()))),
{
    lemma_auto_spec_u32_to_from_le_bytes();
    let p = msg_bytes(m);
    let d = frame + rest;
    let l = spec_u32_to_le_bytes(p.len() as u32);
    assert(d.subrange(0, 4) =~= be_u32(p.len() as u32));
    assert(seq![be_u32(p.len() as u32)[3], be_u32(p.len() as u32)[2], be_u32(p.len() as u32)[1], be_u32(p.len() as u32)[0]] =~= l);
    assert(from_be_u32(d.subrange(0, 4)) == p.len() as u32);
    assert(d.subrange(4, 4 + p.len() as int) =~= p);
    lemma_codec_roundtrip(m, p);
}

/// A buffer that reassembles frames from bytes as they arrive.
pub struct FrameDecodeBuffer {
    buffer: Vec<u8>,
    max_frame_len: usize,
}

impl FrameDecodeBuffer {
    /// The bytes waiting in the buffer.
    pub closed spec fn bytes(&self) -> Seq<u8> {
        self.buffer@
    }

    /// The payload limit of the buffer.
    pub closed spec fn limit(&self) -> usize {
        self.max_frame_len
    }

    /// An empty buffer with the default limit.
    pub fn new() -> (r: Self)
        ensures
            r.bytes() == Seq::<u8>::empty(),
            r.limit() == DEFAULT_MAX_FRAME_LEN,
    {
        Self::with_max_frame_len(DEFAULT_MAX_FRAME_LEN)
    }

    /// An empty buffer with the given limit.
    pub fn with_max_frame_len(max_frame_len: usize) -> (r: Self)
        ensures
            r.bytes() == Seq::<u8>::empty(),
            r.limit() == max_frame_len,
    {
        FrameDecodeBuffer { buffer: Vec::new(), max_frame_len }
    }

    /// Appends bytes read from the network.
    pub fn push(&mut self, data: &[u8])
        ensures
            final(self).bytes() == old(self).bytes() + data@,
            final(self).limit() == old(self).limit(),
    {
        if data.len() != 0 {
            append_bytes(&mut self.buffer, data);
        } else {
            proof { assert(old(self).bytes() + data@ =~= old(self).bytes()); }
        }
    }

    /// Takes one whole message from the front of the buffer, if there is one.
    pub fn next_message(&mut self) -> (r: Result<Option<NetworkMessage>, P2pError>)
        ensures
            final(self).limit() == old(self).limit(),
            match decode_frame_spec(old(self).bytes(), old(self).limit()) {
                Err(e) => r is Err && err_view(r) == e && final(self).bytes() == old(self).bytes(),
                Ok(None) => r == Ok::<Option<NetworkMessage>, P2pError>(None) && final(self).bytes() == old(self).bytes(),
                Ok(Some((m, k))) => r is Ok && r->Ok_0 is Some && r->Ok_0->Some_0@ == m
                    && final(self).bytes() == old(self).bytes().subrange(k as int, old(self).bytes().len() as int),
            },
    {
        match FramedMessageCodec::decode_frame_with_max_len(self.buffer.as_slice(), self.max_frame_len) {
            Err(e) => Err(e),
            Ok(None) => Ok(None),
            Ok(Some(decoded)) => {
                let n = self.buffer.len();
                let rest = copy_range(self.buffer.as_slice(), decoded.consumed, n);
                self.buffer = rest;
                Ok(Some(decoded.message))
            },
        }
    }

    /// Takes every whole message from the buffer; a partial frame stays.
    pub fn drain_messages(&mut self) -> (r: Result<Vec<NetworkMessage>, P2pError>)
        ensures
            final(self).limit() == old(self).limit(),
            final(self).bytes() == drain_spec(old(self).bytes(), old(self).limit()).0,
            match drain_spec(old(self).bytes(), old(self).limit()).1 {
                Ok(ms) => r is Ok && messages_view(r->Ok_0@) == ms,
                Err(e) => r is Err && err_view(r) == e,
            },
    {
        let mut messages: Vec<NetworkMessage> = Vec::new();
        proof {
            assert(messages_view(messages@) =~= Seq::<NetworkMessageV>::empty());
            match drain_spec(self.bytes(), self.limit()).1 {
                Err(_) => {},
                Ok(ms) => { assert(Seq::<NetworkMessageV>::empty() + ms =~= ms); },
            }
        }
        loop
            invariant
                self.limit() == old(self).limit(),
                drain_spec(old(self).bytes(), old(self).limit()) == match drain_spec(self.bytes(), self.limit()) {
                    (rest, Err(e)) => (rest, Err::<Seq<NetworkMessageV>, P2pErrorV>(e)),
                    (rest, Ok(ms)) => (rest, Ok::<Seq<NetworkMessageV>, P2pErrorV>(messages_view(messages@) + ms)),
                },
            decreases self.bytes().len(),
        {
            let ghost before = self.bytes();
            let ghost mv = messages_view(messages@);
            match self.next_message() {
                Err(e) => { return Err(e); },
                Ok(None) => {
                    proof { assert(mv + Seq::<NetworkMessageV>::empty() =~= mv); }
                    return Ok(messages);
                },
                Ok(Some(m)) => {
                    let ghost mm = m@;
                    messages.push(m);
                    proof {
                        assert(messages_view(messages@) =~= mv.push(mm));
                        match drain_spec(self.bytes(), self.limit()).1 {
                            Err(_) => {},
                            Ok(ms) => { assert(mv + (seq![mm] + ms) =~= mv.push(mm) + ms); },
                        }
                    }
                },
            }
        }
    }

    /// Number of bytes waiting.
    pub fn buffered_len(&self) -> (r: usize)
        ensures
            r == self.bytes().len(),
    {
        self.buffer.len()
    }

    /// Whether no byte is waiting.
    pub fn is_empty(&self) -> (r: bool)
        ensures
            r == (self.bytes().len() == 0),
    {
        self.buffer.len() == 0
    }
}

impl Default for FrameDecodeBuffer {
    fn default() -> (r: Self)
        ensures
            r.bytes() == Seq::<u8>::empty(),
            r.limit() == DEFAULT_MAX_FRAME_LEN,
    {
        Self::new()
    }
}

} // verus!
