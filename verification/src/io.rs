//! The frame decoder: a state machine that is fed a growing buffer and
//! hands out whole frames. It never waits: a call either takes a frame
//! off the buffer, or says that more bytes are needed and takes nothing,
//! or fails.

use vstd::prelude::*;
use bytes::BytesMut;
use crate::buffer::{buf_as_slice, buf_bytes, buf_len, buf_reserve, buf_split_to, BUF_MAX};
use crate::errors::Error;
use crate::codec::bigendian::{be_u32, read_be_u32};
use crate::framing::{
    decode_frame, frame_encodable, frame_round_trips, law_frame_round_trip,
    lemma_encoded_frame_header, spec_decode_frame, spec_encode_frame, try_encode_frame, Frame,
    FrameView, HEADER_LEN, MIN_DOFF,
};
use crate::protocol::{
    decode_protocol_header, spec_decode_protocol_header, ProtocolId, PROTOCOL_HEADER_LEN,
};

verus! {

/// What the decoder is waiting for.
#[derive(Debug, Clone, Copy, PartialEq, Eq)]
pub enum DecodeState {
    /// The protocol header, which comes once, at the start.
    ProtocolHeader,
    /// The header of the next frame.
    FrameHeader,
    /// The rest of a frame whose header said that it has so many bytes.
    Frame(usize),
}

/// The model of a `Codec`: what it waits for, and the protocol that the
/// peer announced, once it did.
pub struct CodecView {
    pub state: DecodeState,
    pub protocol_id: Option<ProtocolId>,
}

/// The frame decoder.
pub struct Codec {
    state: DecodeState,
    protocol_id: Option<ProtocolId>,
}

impl View for Codec {
    type V = CodecView;

    closed spec fn view(&self) -> CodecView {
        CodecView { state: self.state, protocol_id: self.protocol_id }
    }
}

/// What one call of `decode` does: the decoder and the buffer behind it,
/// and what the call hands back.
pub struct Step {
    pub codec: CodecView,
    pub left: Seq<u8>,
    pub result: Result<Option<FrameView>, Error>,
}

/// One call of `decode` on a decoder that waits for the protocol header.
/// With fewer than eight bytes it waits on; else it takes the header off
/// the buffer, and goes on to the first frame where the header is right.
pub open spec fn spec_at_protocol_header(codec: CodecView, src: Seq<u8>) -> Step {
    if src.len() < PROTOCOL_HEADER_LEN {
        Step { codec, left: src, result: Ok(None) }
    } else {
        let left = src.subrange(PROTOCOL_HEADER_LEN as int, src.len() as int);
        match spec_decode_protocol_header(src.subrange(0, PROTOCOL_HEADER_LEN as int)) {
            Ok(id) => spec_at_frame_header(
                CodecView { state: DecodeState::FrameHeader, protocol_id: Some(id) },
                left,
            ),
            Err(e) => Step { codec, left, result: Err(e) },
        }
    }
}

/// The size that the header of a frame declares: that of the whole frame,
/// header included.
pub open spec fn spec_frame_size(src: Seq<u8>) -> usize {
    be_u32(src.subrange(0, 4)) as usize
}

/// One call of `decode` on a decoder that waits for the header of a
/// frame. With fewer than eight bytes it waits on. A header that declares
/// a size below eight or a data offset below two is refused, however many
/// bytes follow it. Else the decoder goes on to the frame, of which it now
/// knows the size. Nothing is taken off the buffer.
pub open spec fn spec_at_frame_header(codec: CodecView, src: Seq<u8>) -> Step {
    if src.len() < HEADER_LEN {
        Step { codec, left: src, result: Ok(None) }
    } else if spec_frame_size(src) < HEADER_LEN || src[4] < MIN_DOFF {
        Step { codec, left: src, result: Err(Error::InvalidFrame) }
    } else {
        spec_at_frame(
            CodecView { state: DecodeState::Frame(spec_frame_size(src)), ..codec },
            src,
            spec_frame_size(src),
        )
    }
}

/// One call of `decode` on a decoder that waits for a frame of `size`
/// bytes. With fewer bytes it waits on. Else it takes the frame off the
/// buffer, decodes it, and waits for the header of the next frame.
pub open spec fn spec_at_frame(codec: CodecView, src: Seq<u8>, size: usize) -> Step {
    if src.len() < size {
        Step { codec, left: src, result: Ok(None) }
    } else {
        Step {
            codec: CodecView { state: DecodeState::FrameHeader, ..codec },
            left: src.subrange(size as int, src.len() as int),
            result: match spec_decode_frame(src.subrange(0, size as int)) {
                Ok(frame) => Ok(Some(frame)),
                Err(e) => Err(e),
            },
        }
    }
}

/// One call of `decode`.
pub open spec fn spec_decode(codec: CodecView, src: Seq<u8>) -> Step {
    match codec.state {
        DecodeState::ProtocolHeader => spec_at_protocol_header(codec, src),
        DecodeState::FrameHeader => spec_at_frame_header(codec, src),
        DecodeState::Frame(size) => spec_at_frame(codec, src, size),
    }
}

/// An executable result stands for the result of a step of the model.
pub open spec fn step_result_as(
    r: Result<Option<Frame>, Error>,
    d: Result<Option<FrameView>, Error>,
) -> bool {
    match (r, d) {
        (Ok(Some(frame)), Ok(Some(dframe))) => frame.deep_view() == dframe,
        (Ok(None), Ok(None)) => true,
        (Err(e), Err(de)) => e == de,
        _ => false,
    }
}

impl Codec {
    /// A decoder at the start of a connection.
    pub fn new() -> (codec: Codec)
        ensures
            codec@ == (CodecView { state: DecodeState::ProtocolHeader, protocol_id: None }),
    {
        Codec { state: DecodeState::ProtocolHeader, protocol_id: None }
    }

    /// What the decoder waits for.
    pub fn state(&self) -> (state: DecodeState)
        ensures
            state == self@.state,
    {
        self.state
    }

    /// The protocol that the peer announced, once it did.
    pub fn protocol_id(&self) -> (id: Option<ProtocolId>)
        ensures
            id == self@.protocol_id,
    {
        self.protocol_id
    }

    /// Takes the protocol header off the buffer, once the buffer holds all
    /// of it.
    pub fn decode_protocol_header(&self, src: &mut BytesMut) -> (r: Result<
        Option<ProtocolId>,
        Error,
    >)
        ensures
            buf_bytes(*old(src)).len() < PROTOCOL_HEADER_LEN ==> r == Ok::<
                Option<ProtocolId>,
                Error,
            >(None) && buf_bytes(*final(src)) == buf_bytes(*old(src)),
            buf_bytes(*old(src)).len() >= PROTOCOL_HEADER_LEN ==> buf_bytes(*final(src))
                == buf_bytes(*old(src)).subrange(
                PROTOCOL_HEADER_LEN as int,
                buf_bytes(*old(src)).len() as int,
            ) && match spec_decode_protocol_header(
                buf_bytes(*old(src)).subrange(0, PROTOCOL_HEADER_LEN as int),
            ) {
                Ok(id) => r == Ok::<Option<ProtocolId>, Error>(Some(id)),
                Err(e) => r == Err::<Option<ProtocolId>, Error>(e),
            },
    {
        let len = buf_len(src);
        if len < PROTOCOL_HEADER_LEN {
            if len <= BUF_MAX - PROTOCOL_HEADER_LEN {
                buf_reserve(src, PROTOCOL_HEADER_LEN);
            }
            return Ok(None);
        }
        let header = buf_split_to(src, PROTOCOL_HEADER_LEN);
        let protocol_id = decode_protocol_header(buf_as_slice(&header))?;
        Ok(Some(protocol_id))
    }

    /// Appends a frame to `dst`, where the frame has an encoding and the
    /// buffer can hold it. The decoder has no part in it.
    pub fn encode(&mut self, item: &Frame, dst: &mut BytesMut) -> (r: Result<(), Error>)
        ensures
            final(self)@ == old(self)@,
            r is Ok <==> frame_encodable(item.deep_view()) && buf_bytes(*old(dst)).len()
                + spec_encode_frame(item.deep_view()).len() <= BUF_MAX,
            r is Ok ==> buf_bytes(*final(dst)) == buf_bytes(*old(dst)) + spec_encode_frame(
                item.deep_view(),
            ),
            r is Err ==> r == Err::<(), Error>(Error::Unencodable) && buf_bytes(*final(dst))
                == buf_bytes(*old(dst)),
    {
        try_encode_frame(item, dst)
    }

    /// Takes the next frame off the buffer, once the buffer holds all of
    /// it. `Ok(None)` says that more bytes are needed; nothing was taken
    /// then but, at the start, the protocol header. An error is final for
    /// the frame at hand, also where it says that bytes are missing: the
    /// frame was there as a whole, and what is missing is missing in it.
    pub fn decode(&mut self, src: &mut BytesMut) -> (r: Result<Option<Frame>, Error>)
        ensures
            final(self)@ == spec_decode(old(self)@, buf_bytes(*old(src))).codec,
            buf_bytes(*final(src)) == spec_decode(old(self)@, buf_bytes(*old(src))).left,
            step_result_as(r, spec_decode(old(self)@, buf_bytes(*old(src))).result),
    {
        if let DecodeState::ProtocolHeader = self.state {
            match self.decode_protocol_header(src)? {
                Some(protocol_id) => {
                    self.protocol_id = Some(protocol_id);
                    self.state = DecodeState::FrameHeader;
                },
                None => {
                    return Ok(None);
                },
            }
        }
        if let DecodeState::FrameHeader = self.state {
            let len = buf_len(src);
            if len < HEADER_LEN {
                return Ok(None);
            }
            let header = buf_as_slice(src);
            let size: usize = read_be_u32(vstd::slice::slice_subrange(header, 0, 4)) as usize;
            let doff: u8 = header[4];
            if size < HEADER_LEN || doff < MIN_DOFF {
                return Err(Error::InvalidFrame);
            }
            self.state = DecodeState::Frame(size);
            if len < size {
                if size <= BUF_MAX && len <= BUF_MAX - size {
                    buf_reserve(src, size);
                }
                return Ok(None);
            }
        }
        match self.state {
            DecodeState::Frame(size) => {
                let len = buf_len(src);
                if len < size {
                    return Ok(None);
                }
                let frame_buf = buf_split_to(src, size);
                self.state = DecodeState::FrameHeader;
                let frame = decode_frame(buf_as_slice(&frame_buf))?;
                if len - size <= BUF_MAX - HEADER_LEN {
                    buf_reserve(src, HEADER_LEN);
                }
                Ok(Some(frame))
            },
            _ => Ok(None),
        }
    }
}


/// With fewer bytes than a frame header has, a decoder that waits for one
/// waits on: it reports no error and takes nothing, whatever the bytes
/// are.
pub proof fn law_short_header_waits(codec: CodecView, src: Seq<u8>)
    requires
        codec.state == DecodeState::FrameHeader,
        src.len() < HEADER_LEN,
    ensures
        spec_decode(codec, src) == (Step { codec, left: src, result: Ok(None) }),
{
}

/// A frame header that declares a size below eight or a data offset below
/// two is refused as an invalid frame, however many bytes follow it, and
/// nothing is taken off the buffer.
pub proof fn law_invalid_frame_header(codec: CodecView, src: Seq<u8>)
    requires
        codec.state == DecodeState::FrameHeader,
        src.len() >= HEADER_LEN,
        spec_frame_size(src) < HEADER_LEN || src[4] < MIN_DOFF,
    ensures
        spec_decode(codec, src) == (Step { codec, left: src, result: Err(Error::InvalidFrame) }),
{
}

/// The decoder after a frame was fed to it byte by byte, up to the first
/// `k` bytes: each call saw one byte more than the call before.
pub open spec fn spec_fed(codec: CodecView, frame: Seq<u8>, k: nat) -> CodecView
    decreases k,
{
    if k == 0 {
        codec
    } else {
        spec_decode(spec_fed(codec, frame, (k - 1) as nat), frame.take(k as int)).codec
    }
}

/// A frame is well formed for the decoder: its header declares the size
/// that the frame has and a data offset of at least two, and the frame
/// can be decoded.
pub open spec fn valid_frame(frame: Seq<u8>) -> bool {
    &&& frame.len() >= HEADER_LEN
    &&& spec_frame_size(frame) == frame.len()
    &&& frame[4] >= MIN_DOFF
    &&& spec_decode_frame(frame) is Ok
}

/// Every frame that was encoded is well formed for the decoder, so it can
/// be fed to it in pieces of any size.
pub proof fn law_encoded_frame_is_valid(frame: FrameView)
    requires
        frame_round_trips(frame),
    ensures
        valid_frame(spec_encode_frame(frame)),
        spec_decode_frame(spec_encode_frame(frame)) == Ok::<FrameView, Error>(frame),
{
    law_frame_round_trip(frame);
    lemma_encoded_frame_header(frame);
}

/// While a valid frame is fed byte by byte, the decoder waits for the
/// header up to the eighth byte and for the frame from then on.
pub proof fn lemma_fed_state(codec: CodecView, frame: Seq<u8>, k: nat)
    requires
        codec.state == DecodeState::FrameHeader,
        valid_frame(frame),
        k < frame.len(),
    ensures
        spec_fed(codec, frame, k) == if k < HEADER_LEN {
            codec
        } else {
            CodecView { state: DecodeState::Frame(frame.len() as usize), ..codec }
        },
    decreases k,
{
    if k > 0 {
        lemma_fed_state(codec, frame, (k - 1) as nat);
        let seen = frame.take(k as int);
        if k >= HEADER_LEN {
            assert(seen.subrange(0, 4) =~= frame.subrange(0, 4));
        }
    }
}

/// A valid frame that is fed to the decoder byte by byte gives no error,
/// and it gives the frame when the last byte has come and not before:
/// every call before that one asks for more bytes and takes nothing.
pub proof fn law_incremental_decode(codec: CodecView, frame: Seq<u8>, k: nat)
    requires
        codec.state == DecodeState::FrameHeader,
        valid_frame(frame),
        1 <= k <= frame.len(),
    ensures
        ({
            let step = spec_decode(spec_fed(codec, frame, (k - 1) as nat), frame.take(k as int));
            if k < frame.len() {
                step.result == Ok::<Option<FrameView>, Error>(None) && step.left == frame.take(
                    k as int,
                )
            } else {
                step.result == Ok::<Option<FrameView>, Error>(
                    Some(spec_decode_frame(frame)->Ok_0),
                ) && step.left == Seq::<u8>::empty() && step.codec == codec
            }
        }),
{
    lemma_fed_state(codec, frame, (k - 1) as nat);
    let seen = frame.take(k as int);
    if k >= HEADER_LEN {
        assert(seen.subrange(0, 4) =~= frame.subrange(0, 4));
    }
    if k == frame.len() {
        assert(seen =~= frame);
        assert(frame.subrange(0, frame.len() as int) =~= frame);
        assert(frame.subrange(frame.len() as int, frame.len() as int) =~= Seq::<u8>::empty());
    }
}

} // verus!
