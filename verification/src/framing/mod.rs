//! Frames: the units in which a connection carries performatives.

use vstd::prelude::*;
use crate::errors::Error;
use crate::codec::bigendian::{be_u16, read_be_u16};
use crate::codec::decode::{map_decoded, spec_take, take};
use crate::buffer::{buf_bytes, buf_extend, buf_len, buf_reserve, BUF_MAX};
use crate::codec::bigendian::{lemma_be_u16_of_bytes, u16_be, u32_be};
use crate::codec::described::{
    decode_descriptor, decode_list_of, is_descriptor_of, lemma_described_leaves_suffix,
    lemma_described_round_trip, names, spec_decode_descriptor, spec_decode_list_of,
};
use crate::codec::encode::{put_u16, put_u32, put_u8_u8};
use crate::codec::{
    decoded_as, is_suffix, spec_decode_format_code, Decode, DecodeFormatted, Decoded, Encode,
    RoundTrip,
};
use crate::protocol::sasl::{
    SaslChallengeView, SaslInitView, SaslMechanismsView, SaslOutcomeView, SaslResponseView,
};
use crate::protocol::close::{CloseView, DetachView, EndView};
use crate::protocol::flow::FlowView;
use crate::protocol::{
    Begin, BeginView, Close, Detach, End, Flow, Open, OpenView, SaslChallenge, SaslInit,
    SaslMechanisms, SaslOutcome, SaslResponse,
};
use crate::types::Binary;
use bytes::BytesMut;

verus! {

/// The length of the fixed header of a frame.
pub const HEADER_LEN: usize = 8;

/// The least data offset: the fixed header, in words of four bytes.
pub const MIN_DOFF: u8 = 2;

/// The type byte of an AMQP frame.
pub const FRAME_TYPE_AMQP: u8 = 0x00;

/// The type byte of a SASL frame.
pub const FRAME_TYPE_SASL: u8 = 0x01;

/// What a frame is there to carry.
#[derive(Debug, PartialEq, Eq)]
pub enum Performative {
    Open(Open),
    Begin(Begin),
    Flow(Flow),
    Detach(Detach),
    End(End),
    Close(Close),
}

/// The model of a `Performative`.
pub enum PerformativeView {
    Open(OpenView),
    Begin(BeginView),
    Flow(FlowView),
    Detach(DetachView),
    End(EndView),
    Close(CloseView),
}

impl DeepView for Performative {
    type V = PerformativeView;

    open spec fn deep_view(&self) -> PerformativeView {
        match self {
            Performative::Open(open) => PerformativeView::Open(open.deep_view()),
            Performative::Begin(begin) => PerformativeView::Begin(begin.deep_view()),
            Performative::Flow(flow) => PerformativeView::Flow(flow.deep_view()),
            Performative::Detach(detach) => PerformativeView::Detach(detach.deep_view()),
            Performative::End(end) => PerformativeView::End(end.deep_view()),
            Performative::Close(close) => PerformativeView::Close(close.deep_view()),
        }
    }
}

impl DecodeFormatted for Performative {
    /// A described value whose descriptor names one of the performatives;
    /// any other descriptor is refused.
    open spec fn spec_decode_with_format(input: Seq<u8>, fmt: u8) -> Decoded<PerformativeView> {
        match spec_decode_descriptor(input, fmt) {
            Ok((rest, d)) => if names::<Open>(d) {
                map_decoded(
                    spec_decode_list_of::<Open>(rest),
                    |open: OpenView| PerformativeView::Open(open),
                )
            } else if names::<Begin>(d) {
                map_decoded(
                    spec_decode_list_of::<Begin>(rest),
                    |begin: BeginView| PerformativeView::Begin(begin),
                )
            } else if names::<Flow>(d) {
                map_decoded(
                    spec_decode_list_of::<Flow>(rest),
                    |flow: FlowView| PerformativeView::Flow(flow),
                )
            } else if names::<Detach>(d) {
                map_decoded(
                    spec_decode_list_of::<Detach>(rest),
                    |detach: DetachView| PerformativeView::Detach(detach),
                )
            } else if names::<End>(d) {
                map_decoded(
                    spec_decode_list_of::<End>(rest),
                    |end: EndView| PerformativeView::End(end),
                )
            } else if names::<Close>(d) {
                map_decoded(
                    spec_decode_list_of::<Close>(rest),
                    |close: CloseView| PerformativeView::Close(close),
                )
            } else {
                Err(Error::InvalidDescriptor)
            },
            Err(e) => Err(e),
        }
    }

    proof fn decoding_leaves_suffix(input: Seq<u8>, fmt: u8) {
        lemma_described_leaves_suffix::<Open>(input, fmt);
        lemma_described_leaves_suffix::<Begin>(input, fmt);
        lemma_described_leaves_suffix::<Flow>(input, fmt);
        lemma_described_leaves_suffix::<Detach>(input, fmt);
        lemma_described_leaves_suffix::<End>(input, fmt);
        lemma_described_leaves_suffix::<Close>(input, fmt);
    }

    fn decode_with_format<'a>(input: &'a [u8], fmt: u8) -> (r: Result<(&'a [u8], Self), Error>) {
        let (rest, d) = decode_descriptor(input, fmt)?;
        if is_descriptor_of::<Open>(&d) {
            let (rest, open) = decode_list_of::<Open>(rest)?;
            Ok((rest, Performative::Open(open)))
        } else if is_descriptor_of::<Begin>(&d) {
            let (rest, begin) = decode_list_of::<Begin>(rest)?;
            Ok((rest, Performative::Begin(begin)))
        } else if is_descriptor_of::<Flow>(&d) {
            let (rest, flow) = decode_list_of::<Flow>(rest)?;
            Ok((rest, Performative::Flow(flow)))
        } else if is_descriptor_of::<Detach>(&d) {
            let (rest, detach) = decode_list_of::<Detach>(rest)?;
            Ok((rest, Performative::Detach(detach)))
        } else if is_descriptor_of::<End>(&d) {
            let (rest, end) = decode_list_of::<End>(rest)?;
            Ok((rest, Performative::End(end)))
        } else if is_descriptor_of::<Close>(&d) {
            let (rest, close) = decode_list_of::<Close>(rest)?;
            Ok((rest, Performative::Close(close)))
        } else {
            Err(Error::InvalidDescriptor)
        }
    }
}

/// A frame of the AMQP type: a performative on a channel, and the payload
/// that goes with it.
#[derive(Debug, PartialEq, Eq)]
pub struct AmqpFrame {
    channel_id: u16,
    performative: Performative,
    body: Binary,
}

/// The model of an `AmqpFrame`.
pub struct AmqpFrameView {
    pub channel_id: u16,
    pub performative: PerformativeView,
    pub body: Seq<u8>,
}

impl DeepView for AmqpFrame {
    type V = AmqpFrameView;

    closed spec fn deep_view(&self) -> AmqpFrameView {
        AmqpFrameView {
            channel_id: self.channel_id,
            performative: self.performative.deep_view(),
            body: self.body.deep_view(),
        }
    }
}

impl AmqpFrame {
    pub fn new(channel_id: u16, performative: Performative, body: Binary) -> (frame: AmqpFrame)
        ensures
            frame.deep_view() == (AmqpFrameView {
                channel_id,
                performative: performative.deep_view(),
                body: body.deep_view(),
            }),
    {
        AmqpFrame { channel_id, performative, body }
    }

    pub fn channel_id(&self) -> (id: u16)
        ensures
            id == self.deep_view().channel_id,
    {
        self.channel_id
    }

    pub fn performative(&self) -> (p: &Performative)
        ensures
            p.deep_view() == self.deep_view().performative,
    {
        &self.performative
    }

    pub fn body(&self) -> (body: &Binary)
        ensures
            body.deep_view() == self.deep_view().body,
    {
        &self.body
    }
}

/// What a frame of the SASL type carries.
#[derive(Debug, PartialEq, Eq)]
pub enum SaslFrameBody {
    SaslMechanisms(SaslMechanisms),
    SaslInit(SaslInit),
    SaslChallenge(SaslChallenge),
    SaslResponse(SaslResponse),
    SaslOutcome(SaslOutcome),
}

/// The model of a `SaslFrameBody`.
pub enum SaslFrameBodyView {
    SaslMechanisms(SaslMechanismsView),
    SaslInit(SaslInitView),
    SaslChallenge(SaslChallengeView),
    SaslResponse(SaslResponseView),
    SaslOutcome(SaslOutcomeView),
}

impl DeepView for SaslFrameBody {
    type V = SaslFrameBodyView;

    open spec fn deep_view(&self) -> SaslFrameBodyView {
        match self {
            SaslFrameBody::SaslMechanisms(body) => SaslFrameBodyView::SaslMechanisms(
                body.deep_view(),
            ),
            SaslFrameBody::SaslInit(body) => SaslFrameBodyView::SaslInit(body.deep_view()),
            SaslFrameBody::SaslChallenge(body) => SaslFrameBodyView::SaslChallenge(
                body.deep_view(),
            ),
            SaslFrameBody::SaslResponse(body) => SaslFrameBodyView::SaslResponse(body.deep_view()),
            SaslFrameBody::SaslOutcome(body) => SaslFrameBodyView::SaslOutcome(body.deep_view()),
        }
    }
}

impl DecodeFormatted for SaslFrameBody {
    /// A described value whose descriptor names one of the performatives
    /// of the SASL layer; any other descriptor is refused.
    open spec fn spec_decode_with_format(input: Seq<u8>, fmt: u8) -> Decoded<SaslFrameBodyView> {
        match spec_decode_descriptor(input, fmt) {
            Ok((rest, d)) => if names::<SaslMechanisms>(d) {
                map_decoded(
                    spec_decode_list_of::<SaslMechanisms>(rest),
                    |body: SaslMechanismsView| SaslFrameBodyView::SaslMechanisms(body),
                )
            } else if names::<SaslInit>(d) {
                map_decoded(
                    spec_decode_list_of::<SaslInit>(rest),
                    |body: SaslInitView| SaslFrameBodyView::SaslInit(body),
                )
            } else if names::<SaslChallenge>(d) {
                map_decoded(
                    spec_decode_list_of::<SaslChallenge>(rest),
                    |body: SaslChallengeView| SaslFrameBodyView::SaslChallenge(body),
                )
            } else if names::<SaslResponse>(d) {
                map_decoded(
                    spec_decode_list_of::<SaslResponse>(rest),
                    |body: SaslResponseView| SaslFrameBodyView::SaslResponse(body),
                )
            } else if names::<SaslOutcome>(d) {
                map_decoded(
                    spec_decode_list_of::<SaslOutcome>(rest),
                    |body: SaslOutcomeView| SaslFrameBodyView::SaslOutcome(body),
                )
            } else {
                Err(Error::InvalidDescriptor)
            },
            Err(e) => Err(e),
        }
    }

    proof fn decoding_leaves_suffix(input: Seq<u8>, fmt: u8) {
        lemma_described_leaves_suffix::<SaslMechanisms>(input, fmt);
        lemma_described_leaves_suffix::<SaslInit>(input, fmt);
        lemma_described_leaves_suffix::<SaslChallenge>(input, fmt);
        lemma_described_leaves_suffix::<SaslResponse>(input, fmt);
        lemma_described_leaves_suffix::<SaslOutcome>(input, fmt);
    }

    fn decode_with_format<'a>(input: &'a [u8], fmt: u8) -> (r: Result<(&'a [u8], Self), Error>) {
        let (rest, d) = decode_descriptor(input, fmt)?;
        if is_descriptor_of::<SaslMechanisms>(&d) {
            let (rest, body) = decode_list_of::<SaslMechanisms>(rest)?;
            Ok((rest, SaslFrameBody::SaslMechanisms(body)))
        } else if is_descriptor_of::<SaslInit>(&d) {
            let (rest, body) = decode_list_of::<SaslInit>(rest)?;
            Ok((rest, SaslFrameBody::SaslInit(body)))
        } else if is_descriptor_of::<SaslChallenge>(&d) {
            let (rest, body) = decode_list_of::<SaslChallenge>(rest)?;
            Ok((rest, SaslFrameBody::SaslChallenge(body)))
        } else if is_descriptor_of::<SaslResponse>(&d) {
            let (rest, body) = decode_list_of::<SaslResponse>(rest)?;
            Ok((rest, SaslFrameBody::SaslResponse(body)))
        } else if is_descriptor_of::<SaslOutcome>(&d) {
            let (rest, body) = decode_list_of::<SaslOutcome>(rest)?;
            Ok((rest, SaslFrameBody::SaslOutcome(body)))
        } else {
            Err(Error::InvalidDescriptor)
        }
    }
}

/// A frame of the SASL type.
#[derive(Debug, PartialEq, Eq)]
pub struct SaslFrame {
    pub body: SaslFrameBody,
}

impl DeepView for SaslFrame {
    type V = SaslFrameBodyView;

    open spec fn deep_view(&self) -> SaslFrameBodyView {
        self.body.deep_view()
    }
}

impl SaslFrame {
    pub fn new(body: SaslFrameBody) -> (frame: SaslFrame)
        ensures
            frame.deep_view() == body.deep_view(),
    {
        SaslFrame { body }
    }
}

/// A frame.
#[derive(Debug, PartialEq, Eq)]
pub enum Frame {
    Amqp(AmqpFrame),
    Sasl(SaslFrame),
}

/// The model of a `Frame`.
pub enum FrameView {
    Amqp(AmqpFrameView),
    Sasl(SaslFrameBodyView),
}

impl DeepView for Frame {
    type V = FrameView;

    open spec fn deep_view(&self) -> FrameView {
        match self {
            Frame::Amqp(frame) => FrameView::Amqp(frame.deep_view()),
            Frame::Sasl(frame) => FrameView::Sasl(frame.deep_view()),
        }
    }
}

/// The header of a frame behind its size field: the data offset, the type
/// and the channel, and behind them the extended header, which is skipped.
/// Handed back are the channel and what follows the headers. The data
/// offset counts words of four bytes from the start of the frame, so it
/// is at least two; the type has to be the one that is asked for.
pub open spec fn spec_decode_frame_header(input: Seq<u8>, expected_frame_type: u8) -> Decoded<u16> {
    if input.len() < 4 {
        Err(Error::Incomplete(Some(4)))
    } else if input[0] < MIN_DOFF {
        Err(Error::InvalidFrame)
    } else if input[1] != expected_frame_type {
        Err(Error::UnexpectedFrameType(input[1]))
    } else {
        match spec_take(input, (input[0] * 4 - 4) as nat) {
            Ok((rest, _)) => Ok((rest, be_u16(input.subrange(2, 4)))),
            Err(e) => Err(e),
        }
    }
}

pub fn decode_frame_header<'a>(input: &'a [u8], expected_frame_type: u8) -> (r: Result<
    (&'a [u8], u16),
    Error,
>)
    ensures
        decoded_as(r, spec_decode_frame_header(input@, expected_frame_type)),
{
    if input.len() < 4 {
        return Err(Error::Incomplete(Some(4)));
    }
    let doff: u8 = input[0];
    let frame_type: u8 = input[1];
    if doff < MIN_DOFF {
        return Err(Error::InvalidFrame);
    }
    if frame_type != expected_frame_type {
        return Err(Error::UnexpectedFrameType(frame_type));
    }
    let channel_id: u16 = read_be_u16(vstd::slice::slice_subrange(input, 2, 4));
    let ext_header_len: usize = doff as usize * 4 - HEADER_LEN;
    let (rest, _) = take(input, ext_header_len + 4)?;
    Ok((rest, channel_id))
}

impl Decode for AmqpFrame {
    /// An AMQP frame behind its size field: the header, the performative,
    /// and the body, which is all that follows the performative.
    open spec fn spec_decode(input: Seq<u8>) -> Decoded<AmqpFrameView> {
        match spec_decode_frame_header(input, FRAME_TYPE_AMQP) {
            Ok((rest, channel_id)) => match <Performative as Decode>::spec_decode(rest) {
                Ok((body, performative)) => Ok(
                    (Seq::empty(), AmqpFrameView { channel_id, performative, body }),
                ),
                Err(e) => Err(e),
            },
            Err(e) => Err(e),
        }
    }

    fn decode<'a>(input: &'a [u8]) -> (r: Result<(&'a [u8], Self), Error>) {
        let (input, channel_id) = decode_frame_header(input, FRAME_TYPE_AMQP)?;
        let (input, performative) = <Performative as Decode>::decode(input)?;
        let body = Binary::from_slice(input);
        let (rest, _) = take(input, input.len())?;
        assert(rest@ =~= Seq::<u8>::empty());
        Ok((rest, AmqpFrame::new(channel_id, performative, body)))
    }
}

impl Decode for SaslFrame {
    /// A SASL frame behind its size field: the header and the
    /// performative. What follows the performative is handed back.
    open spec fn spec_decode(input: Seq<u8>) -> Decoded<SaslFrameBodyView> {
        match spec_decode_frame_header(input, FRAME_TYPE_SASL) {
            Ok((rest, _)) => <SaslFrameBody as Decode>::spec_decode(rest),
            Err(e) => Err(e),
        }
    }

    fn decode<'a>(input: &'a [u8]) -> (r: Result<(&'a [u8], Self), Error>) {
        let (input, _) = decode_frame_header(input, FRAME_TYPE_SASL)?;
        let (input, body) = <SaslFrameBody as Decode>::decode(input)?;
        Ok((input, SaslFrame { body }))
    }
}

/// A whole frame, from its size field to its last byte. The size field
/// was read to cut the frame out and is not looked at again; the type
/// says which kind of frame it is. A SASL frame has to end with its
/// performative.
pub open spec fn spec_decode_frame(frame: Seq<u8>) -> Result<FrameView, Error> {
    if frame.len() < HEADER_LEN {
        Err(Error::InvalidFrame)
    } else if frame[5] == FRAME_TYPE_AMQP {
        match <AmqpFrame as Decode>::spec_decode(frame.subrange(4, frame.len() as int)) {
            Ok((_, amqp)) => Ok(FrameView::Amqp(amqp)),
            Err(e) => Err(e),
        }
    } else if frame[5] == FRAME_TYPE_SASL {
        match <SaslFrame as Decode>::spec_decode(frame.subrange(4, frame.len() as int)) {
            Ok((rest, sasl)) => if rest.len() > 0 {
                Err(Error::TrailingBytes)
            } else {
                Ok(FrameView::Sasl(sasl))
            },
            Err(e) => Err(e),
        }
    } else {
        Err(Error::UnexpectedFrameType(frame[5]))
    }
}

/// An executable result stands for a frame of the model.
pub open spec fn frame_as(r: Result<Frame, Error>, d: Result<FrameView, Error>) -> bool {
    match (r, d) {
        (Ok(frame), Ok(dframe)) => frame.deep_view() == dframe,
        (Err(e), Err(de)) => e == de,
        _ => false,
    }
}

/// Decodes a whole frame.
pub fn decode_frame(frame: &[u8]) -> (r: Result<Frame, Error>)
    ensures
        frame_as(r, spec_decode_frame(frame@)),
{
    if frame.len() < HEADER_LEN {
        return Err(Error::InvalidFrame);
    }
    let frame_type: u8 = frame[5];
    if frame_type == FRAME_TYPE_AMQP {
        let (_, amqp) = <AmqpFrame as Decode>::decode(
            vstd::slice::slice_subrange(frame, 4, frame.len()),
        )?;
        Ok(Frame::Amqp(amqp))
    } else if frame_type == FRAME_TYPE_SASL {
        let (rest, sasl) = <SaslFrame as Decode>::decode(
            vstd::slice::slice_subrange(frame, 4, frame.len()),
        )?;
        if rest.len() > 0 {
            return Err(Error::TrailingBytes);
        }
        Ok(Frame::Sasl(sasl))
    } else {
        Err(Error::UnexpectedFrameType(frame_type))
    }
}


impl Encode for Performative {
    open spec fn encodable(v: PerformativeView) -> bool {
        match v {
            PerformativeView::Open(open) => <Open as Encode>::encodable(open),
            PerformativeView::Begin(begin) => <Begin as Encode>::encodable(begin),
            PerformativeView::Flow(flow) => <Flow as Encode>::encodable(flow),
            PerformativeView::Detach(detach) => <Detach as Encode>::encodable(detach),
            PerformativeView::End(end) => <End as Encode>::encodable(end),
            PerformativeView::Close(close) => <Close as Encode>::encodable(close),
        }
    }

    open spec fn spec_encode(v: PerformativeView) -> Seq<u8> {
        match v {
            PerformativeView::Open(open) => <Open as Encode>::spec_encode(open),
            PerformativeView::Begin(begin) => <Begin as Encode>::spec_encode(begin),
            PerformativeView::Flow(flow) => <Flow as Encode>::spec_encode(flow),
            PerformativeView::Detach(detach) => <Detach as Encode>::spec_encode(detach),
            PerformativeView::End(end) => <End as Encode>::spec_encode(end),
            PerformativeView::Close(close) => <Close as Encode>::spec_encode(close),
        }
    }

    fn encoded_size(&self) -> (n: usize) {
        match self {
            Performative::Open(open) => open.encoded_size(),
            Performative::Begin(begin) => begin.encoded_size(),
            Performative::Flow(flow) => flow.encoded_size(),
            Performative::Detach(detach) => detach.encoded_size(),
            Performative::End(end) => end.encoded_size(),
            Performative::Close(close) => close.encoded_size(),
        }
    }

    fn size_within(&self, limit: usize) -> (size: Option<usize>) {
        match self {
            Performative::Open(open) => open.size_within(limit),
            Performative::Begin(begin) => begin.size_within(limit),
            Performative::Flow(flow) => flow.size_within(limit),
            Performative::Detach(detach) => detach.size_within(limit),
            Performative::End(end) => end.size_within(limit),
            Performative::Close(close) => close.size_within(limit),
        }
    }

    fn encode(&self, buf: &mut BytesMut) {
        match self {
            Performative::Open(open) => open.encode(buf),
            Performative::Begin(begin) => begin.encode(buf),
            Performative::Flow(flow) => flow.encode(buf),
            Performative::Detach(detach) => detach.encode(buf),
            Performative::End(end) => end.encode(buf),
            Performative::Close(close) => close.encode(buf),
        }
    }
}

impl RoundTrip for Performative {
    open spec fn round_trips(v: PerformativeView) -> bool {
        match v {
            PerformativeView::Open(open) => <Open as RoundTrip>::round_trips(open),
            PerformativeView::Begin(begin) => <Begin as RoundTrip>::round_trips(begin),
            PerformativeView::Flow(flow) => <Flow as RoundTrip>::round_trips(flow),
            PerformativeView::Detach(detach) => <Detach as RoundTrip>::round_trips(detach),
            PerformativeView::End(end) => <End as RoundTrip>::round_trips(end),
            PerformativeView::Close(close) => <Close as RoundTrip>::round_trips(close),
        }
    }

    proof fn law_round_trip(v: PerformativeView, tail: Seq<u8>) {
        match v {
            PerformativeView::Open(open) => {
                lemma_described_round_trip::<Open>(open, tail);
            },
            PerformativeView::Begin(begin) => {
                lemma_described_round_trip::<Begin>(begin, tail);
            },
            PerformativeView::Flow(flow) => {
                lemma_described_round_trip::<Flow>(flow, tail);
            },
            PerformativeView::Detach(detach) => {
                lemma_described_round_trip::<Detach>(detach, tail);
            },
            PerformativeView::End(end) => {
                lemma_described_round_trip::<End>(end, tail);
            },
            PerformativeView::Close(close) => {
                lemma_described_round_trip::<Close>(close, tail);
            },
        }
    }
}

impl Encode for SaslFrameBody {
    open spec fn encodable(v: SaslFrameBodyView) -> bool {
        match v {
            SaslFrameBodyView::SaslMechanisms(body) => <SaslMechanisms as Encode>::encodable(body),
            SaslFrameBodyView::SaslInit(body) => <SaslInit as Encode>::encodable(body),
            SaslFrameBodyView::SaslChallenge(body) => <SaslChallenge as Encode>::encodable(body),
            SaslFrameBodyView::SaslResponse(body) => <SaslResponse as Encode>::encodable(body),
            SaslFrameBodyView::SaslOutcome(body) => <SaslOutcome as Encode>::encodable(body),
        }
    }

    open spec fn spec_encode(v: SaslFrameBodyView) -> Seq<u8> {
        match v {
            SaslFrameBodyView::SaslMechanisms(body) => <SaslMechanisms as Encode>::spec_encode(
                body,
            ),
            SaslFrameBodyView::SaslInit(body) => <SaslInit as Encode>::spec_encode(body),
            SaslFrameBodyView::SaslChallenge(body) => <SaslChallenge as Encode>::spec_encode(body),
            SaslFrameBodyView::SaslResponse(body) => <SaslResponse as Encode>::spec_encode(body),
            SaslFrameBodyView::SaslOutcome(body) => <SaslOutcome as Encode>::spec_encode(body),
        }
    }

    fn encoded_size(&self) -> (n: usize) {
        match self {
            SaslFrameBody::SaslMechanisms(body) => body.encoded_size(),
            SaslFrameBody::SaslInit(body) => body.encoded_size(),
            SaslFrameBody::SaslChallenge(body) => body.encoded_size(),
            SaslFrameBody::SaslResponse(body) => body.encoded_size(),
            SaslFrameBody::SaslOutcome(body) => body.encoded_size(),
        }
    }

    fn size_within(&self, limit: usize) -> (size: Option<usize>) {
        match self {
            SaslFrameBody::SaslMechanisms(body) => body.size_within(limit),
            SaslFrameBody::SaslInit(body) => body.size_within(limit),
            SaslFrameBody::SaslChallenge(body) => body.size_within(limit),
            SaslFrameBody::SaslResponse(body) => body.size_within(limit),
            SaslFrameBody::SaslOutcome(body) => body.size_within(limit),
        }
    }

    fn encode(&self, buf: &mut BytesMut) {
        match self {
            SaslFrameBody::SaslMechanisms(body) => body.encode(buf),
            SaslFrameBody::SaslInit(body) => body.encode(buf),
            SaslFrameBody::SaslChallenge(body) => body.encode(buf),
            SaslFrameBody::SaslResponse(body) => body.encode(buf),
            SaslFrameBody::SaslOutcome(body) => body.encode(buf),
        }
    }
}

impl RoundTrip for SaslFrameBody {
    open spec fn round_trips(v: SaslFrameBodyView) -> bool {
        match v {
            SaslFrameBodyView::SaslMechanisms(body) => <SaslMechanisms as RoundTrip>::round_trips(
                body,
            ),
            SaslFrameBodyView::SaslInit(body) => <SaslInit as RoundTrip>::round_trips(body),
            SaslFrameBodyView::SaslChallenge(body) => <SaslChallenge as RoundTrip>::round_trips(
                body,
            ),
            SaslFrameBodyView::SaslResponse(body) => <SaslResponse as RoundTrip>::round_trips(body),
            SaslFrameBodyView::SaslOutcome(body) => <SaslOutcome as RoundTrip>::round_trips(body),
        }
    }

    proof fn law_round_trip(v: SaslFrameBodyView, tail: Seq<u8>) {
        match v {
            SaslFrameBodyView::SaslMechanisms(body) => {
                lemma_described_round_trip::<SaslMechanisms>(body, tail);
            },
            SaslFrameBodyView::SaslInit(body) => {
                lemma_described_round_trip::<SaslInit>(body, tail);
            },
            SaslFrameBodyView::SaslChallenge(body) => {
                lemma_described_round_trip::<SaslChallenge>(body, tail);
            },
            SaslFrameBodyView::SaslResponse(body) => {
                lemma_described_round_trip::<SaslResponse>(body, tail);
            },
            SaslFrameBodyView::SaslOutcome(body) => {
                lemma_described_round_trip::<SaslOutcome>(body, tail);
            },
        }
    }
}

/// The fixed header of a frame without an extended header: the size of
/// the whole frame, the data offset of two words, the type and the
/// channel.
pub open spec fn spec_frame_header(size: u32, frame_type: u8, channel: u16) -> Seq<u8> {
    u32_be(size) + seq![MIN_DOFF, frame_type] + u16_be(channel)
}

/// What a frame carries behind its header: the performative, and for an
/// AMQP frame the body.
pub open spec fn spec_frame_payload(frame: FrameView) -> Seq<u8> {
    match frame {
        FrameView::Amqp(amqp) => <Performative as Encode>::spec_encode(amqp.performative)
            + amqp.body,
        FrameView::Sasl(body) => <SaslFrameBody as Encode>::spec_encode(body),
    }
}

/// The frames that have an encoding: the performative has one, and the
/// frame is not longer than its size field can say.
pub open spec fn frame_encodable(frame: FrameView) -> bool {
    &&& match frame {
        FrameView::Amqp(amqp) => <Performative as Encode>::encodable(amqp.performative),
        FrameView::Sasl(body) => <SaslFrameBody as Encode>::encodable(body),
    }
    &&& HEADER_LEN + spec_frame_payload(frame).len() <= u32::MAX
}

/// The frames that decoding gives back as they went in.
pub open spec fn frame_round_trips(frame: FrameView) -> bool {
    &&& match frame {
        FrameView::Amqp(amqp) => <Performative as RoundTrip>::round_trips(amqp.performative),
        FrameView::Sasl(body) => <SaslFrameBody as RoundTrip>::round_trips(body),
    }
    &&& HEADER_LEN + spec_frame_payload(frame).len() <= u32::MAX
}

/// The bytes of a frame: the header and the payload. A SASL frame goes on
/// channel zero.
pub open spec fn spec_encode_frame(frame: FrameView) -> Seq<u8> {
    spec_frame_header(
        (HEADER_LEN + spec_frame_payload(frame).len()) as u32,
        match frame {
            FrameView::Amqp(_) => FRAME_TYPE_AMQP,
            FrameView::Sasl(_) => FRAME_TYPE_SASL,
        },
        match frame {
            FrameView::Amqp(amqp) => amqp.channel_id,
            FrameView::Sasl(_) => 0,
        },
    ) + spec_frame_payload(frame)
}

/// Appends the fixed header of a frame.
pub fn put_frame_header(buf: &mut BytesMut, size: u32, frame_type: u8, channel: u16)
    requires
        buf_bytes(*old(buf)).len() + HEADER_LEN <= BUF_MAX,
    ensures
        buf_bytes(*final(buf)) == buf_bytes(*old(buf)) + spec_frame_header(
            size,
            frame_type,
            channel,
        ),
{
    put_u32(buf, size);
    put_u8_u8(buf, MIN_DOFF, frame_type);
    put_u16(buf, channel);
    assert(buf_bytes(*buf) =~= buf_bytes(*old(buf)) + spec_frame_header(
        size,
        frame_type,
        channel,
    ));
}

/// Appends a frame.
pub fn encode_frame(frame: &Frame, buf: &mut BytesMut)
    requires
        frame_encodable(frame.deep_view()),
        buf_bytes(*old(buf)).len() + spec_encode_frame(frame.deep_view()).len() <= BUF_MAX,
    ensures
        buf_bytes(*final(buf)) == buf_bytes(*old(buf)) + spec_encode_frame(frame.deep_view()),
{
    match frame {
        Frame::Amqp(amqp) => {
            let payload_len = amqp.performative.encoded_size() + amqp.body.len();
            put_frame_header(
                buf,
                (HEADER_LEN + payload_len) as u32,
                FRAME_TYPE_AMQP,
                amqp.channel_id,
            );
            amqp.performative.encode(buf);
            buf_extend(buf, amqp.body.as_bytes());
        },
        Frame::Sasl(sasl) => {
            let payload_len = sasl.body.encoded_size();
            put_frame_header(buf, (HEADER_LEN + payload_len) as u32, FRAME_TYPE_SASL, 0);
            sasl.body.encode(buf);
        },
    }
    assert(buf_bytes(*buf) =~= buf_bytes(*old(buf)) + spec_encode_frame(frame.deep_view()));
}

/// What the header of an encoded frame says: the size that the frame has,
/// a data offset of two, the type and the channel; behind it stands the
/// payload.
pub proof fn lemma_encoded_frame_header(frame: FrameView)
    requires
        frame_encodable(frame),
    ensures
        ({
            let bytes = spec_encode_frame(frame);
            &&& bytes.len() == HEADER_LEN + spec_frame_payload(frame).len()
            &&& crate::codec::bigendian::be_u32(bytes.subrange(0, 4)) == bytes.len()
            &&& bytes[4] == MIN_DOFF
            &&& bytes[5] == match frame {
                FrameView::Amqp(_) => FRAME_TYPE_AMQP,
                FrameView::Sasl(_) => FRAME_TYPE_SASL,
            }
            &&& spec_decode_frame_header(bytes.subrange(4, bytes.len() as int), bytes[5])
                == Ok::<(Seq<u8>, u16), Error>(
                (
                    spec_frame_payload(frame),
                    match frame {
                        FrameView::Amqp(amqp) => amqp.channel_id,
                        FrameView::Sasl(_) => 0,
                    },
                ),
            )
        }),
{
    let bytes = spec_encode_frame(frame);
    let payload = spec_frame_payload(frame);
    let size = (HEADER_LEN + payload.len()) as u32;
    let frame_type = bytes[5];
    let channel: u16 = match frame {
        FrameView::Amqp(amqp) => amqp.channel_id,
        FrameView::Sasl(_) => 0,
    };
    assert(bytes.subrange(0, 4) =~= u32_be(size));
    crate::codec::bigendian::lemma_be_u32_of_bytes(size, Seq::empty());
    assert(u32_be(size) + Seq::<u8>::empty() =~= u32_be(size));
    let behind = bytes.subrange(4, bytes.len() as int);
    assert(behind =~= seq![MIN_DOFF, frame_type] + u16_be(channel) + payload);
    assert(behind.subrange(2, 4) =~= u16_be(channel));
    lemma_be_u16_of_bytes(channel, Seq::empty());
    assert(u16_be(channel) + Seq::<u8>::empty() =~= u16_be(channel));
    assert(behind.subrange(4, behind.len() as int) =~= payload);
}

/// A frame comes back from its encoding.
pub proof fn law_frame_round_trip(frame: FrameView)
    requires
        frame_round_trips(frame),
    ensures
        frame_encodable(frame),
        spec_decode_frame(spec_encode_frame(frame)) == Ok::<FrameView, Error>(frame),
{
    let payload = spec_frame_payload(frame);
    match frame {
        FrameView::Amqp(amqp) => {
            <Performative as RoundTrip>::law_round_trip(amqp.performative, amqp.body);
        },
        FrameView::Sasl(body) => {
            <SaslFrameBody as RoundTrip>::law_round_trip(body, Seq::empty());
            assert(payload + Seq::<u8>::empty() =~= payload);
        },
    }
    lemma_encoded_frame_header(frame);
}


/// Appends a frame to `buf` where the frame has an encoding and the buffer
/// can hold it; else reports that and leaves the buffer as it is. Room for
/// the frame is reserved before it is written.
pub fn try_encode_frame(frame: &Frame, buf: &mut BytesMut) -> (r: Result<(), Error>)
    ensures
        r is Ok <==> frame_encodable(frame.deep_view()) && buf_bytes(*old(buf)).len()
            + spec_encode_frame(frame.deep_view()).len() <= BUF_MAX,
        r is Ok ==> buf_bytes(*final(buf)) == buf_bytes(*old(buf)) + spec_encode_frame(
            frame.deep_view(),
        ),
        r is Err ==> r == Err::<(), Error>(Error::Unencodable) && buf_bytes(*final(buf))
            == buf_bytes(*old(buf)),
{
    let len: usize = buf_len(buf);
    if len > BUF_MAX || BUF_MAX - len < HEADER_LEN {
        return Err(Error::Unencodable);
    }
    let room: usize = BUF_MAX - len;
    let most: usize = if room - HEADER_LEN < 0xffff_fff7 {
        room - HEADER_LEN
    } else {
        0xffff_fff7
    };
    let payload_len: usize = match frame {
        Frame::Amqp(amqp) => {
            match amqp.performative.size_within(most) {
                Some(n) => {
                    if amqp.body.len() > most - n {
                        return Err(Error::Unencodable);
                    }
                    n + amqp.body.len()
                },
                None => {
                    return Err(Error::Unencodable);
                },
            }
        },
        Frame::Sasl(sasl) => {
            match sasl.body.size_within(most) {
                Some(n) => n,
                None => {
                    return Err(Error::Unencodable);
                },
            }
        },
    };
    buf_reserve(buf, HEADER_LEN + payload_len);
    encode_frame(frame, buf);
    Ok(())
}

} // verus!
