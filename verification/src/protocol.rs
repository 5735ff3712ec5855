//! The parts of the protocol that the codec knows by name: the protocol
//! header, the headers of compound values, and the described types.

use vstd::prelude::*;
use bytes::BytesMut;
use crate::buffer::{buf_bytes, buf_extend, BUF_MAX};
use crate::errors::Error;
use crate::codec::decode::map_decoded;
use crate::codec::{
    DecodeFormatted, Decoded, Encode, RoundTrip, FORMATCODE_BINARY32, FORMATCODE_BINARY8,
    FORMATCODE_SMALLULONG, FORMATCODE_STRING32, FORMATCODE_STRING8, FORMATCODE_ULONG,
    FORMATCODE_ULONG_0, FORMATCODE_UUID,
};
use crate::types::{Binary, ByteStr, Symbol, Uuid};

pub mod begin;
pub mod choices;
pub mod close;
pub mod flow;
pub mod open;
pub mod sasl;

pub use self::choices::{
    AmqpError, ConnectionError, DistributionMode, ErrorCondition, LinkError, SaslCode,
    SessionError,
};
pub use self::sasl::{SaslChallenge, SaslInit, SaslMechanisms, SaslOutcome, SaslResponse};
pub use self::begin::{Begin, BeginView};
pub use self::close::{Close, Detach, End, ErrorInfo};
pub use self::flow::Flow;
pub use self::open::{Open, OpenView};

verus! {

/// The header of a list, a map or an array.
#[derive(Debug, Clone, Copy, PartialEq, Eq)]
pub struct CompoundHeader {
    /// The number of bytes that the elements take.
    pub size: u32,
    /// The number of elements.
    pub count: u32,
}

impl DeepView for CompoundHeader {
    type V = CompoundHeader;

    open spec fn deep_view(&self) -> CompoundHeader {
        *self
    }
}

impl CompoundHeader {
    /// The header of a compound without elements.
    pub fn empty() -> (h: CompoundHeader)
        ensures
            h == (CompoundHeader { size: 0, count: 0 }),
    {
        CompoundHeader { size: 0, count: 0 }
    }
}

/// The length of the protocol header.
pub const PROTOCOL_HEADER_LEN: usize = 8;

/// The protocol that a connection speaks after its header.
#[derive(Debug, Clone, Copy, PartialEq, Eq)]
pub enum ProtocolId {
    Amqp,
    AmqpTls,
    AmqpSasl,
}

impl ProtocolId {
    /// The byte that stands for the protocol in the header.
    pub open spec fn spec_code(self) -> u8 {
        match self {
            ProtocolId::Amqp => 0,
            ProtocolId::AmqpTls => 1,
            ProtocolId::AmqpSasl => 2,
        }
    }

    pub fn code(self) -> (c: u8)
        ensures
            c == self.spec_code(),
    {
        match self {
            ProtocolId::Amqp => 0,
            ProtocolId::AmqpTls => 1,
            ProtocolId::AmqpSasl => 2,
        }
    }
}

/// The header that opens a connection for the given protocol: `AMQP`, the
/// protocol's byte, and the version 1.0.0.
pub open spec fn spec_protocol_header(id: ProtocolId) -> Seq<u8> {
    seq![0x41u8, 0x4d, 0x51, 0x50, id.spec_code(), 1, 0, 0]
}

/// What the first eight bytes of `src` say as a protocol header. The name
/// is looked at first, then the version, then the protocol.
pub open spec fn spec_decode_protocol_header(src: Seq<u8>) -> Result<ProtocolId, Error> {
    if src.len() < PROTOCOL_HEADER_LEN {
        Err(Error::Incomplete(Some(PROTOCOL_HEADER_LEN)))
    } else if !(src[0] == 0x41 && src[1] == 0x4d && src[2] == 0x51 && src[3] == 0x50) {
        Err(Error::InvalidProtocolHeader)
    } else if !(src[5] == 1 && src[6] == 0 && src[7] == 0) {
        Err(Error::IncompatibleVersion)
    } else if src[4] == 0 {
        Ok(ProtocolId::Amqp)
    } else if src[4] == 1 {
        Ok(ProtocolId::AmqpTls)
    } else if src[4] == 2 {
        Ok(ProtocolId::AmqpSasl)
    } else {
        Err(Error::UnknownProtocolId(src[4]))
    }
}

pub fn decode_protocol_header(src: &[u8]) -> (r: Result<ProtocolId, Error>)
    ensures
        r == spec_decode_protocol_header(src@),
{
    if src.len() < PROTOCOL_HEADER_LEN {
        return Err(Error::Incomplete(Some(PROTOCOL_HEADER_LEN)));
    }
    if !(src[0] == 0x41 && src[1] == 0x4d && src[2] == 0x51 && src[3] == 0x50) {
        return Err(Error::InvalidProtocolHeader);
    }
    let protocol_id: u8 = src[4];
    if !(src[5] == 1 && src[6] == 0 && src[7] == 0) {
        return Err(Error::IncompatibleVersion);
    }
    match protocol_id {
        0 => Ok(ProtocolId::Amqp),
        1 => Ok(ProtocolId::AmqpTls),
        2 => Ok(ProtocolId::AmqpSasl),
        _ => Err(Error::UnknownProtocolId(protocol_id)),
    }
}

/// Appends the protocol header for `id`.
pub fn encode_protocol_header(id: ProtocolId, buf: &mut BytesMut)
    requires
        buf_bytes(*old(buf)).len() + PROTOCOL_HEADER_LEN <= BUF_MAX,
    ensures
        buf_bytes(*final(buf)) == buf_bytes(*old(buf)) + spec_protocol_header(id),
{
    let header: [u8; 8] = [0x41, 0x4d, 0x51, 0x50, id.code(), 1, 0, 0];
    assert(header@ =~= spec_protocol_header(id));
    buf_extend(buf, header.as_slice());
}

/// A protocol header that was written is read back as the protocol it was
/// written for, whatever follows it.
pub proof fn law_protocol_header_round_trip(id: ProtocolId, tail: Seq<u8>)
    ensures
        spec_decode_protocol_header(spec_protocol_header(id) + tail) == Ok::<ProtocolId, Error>(id),
{
}


/// A type that the wire names by a descriptor.
pub trait Described {
    /// The symbolic name of the type.
    spec fn spec_descriptor_name() -> Seq<char>;

    /// The domain of the numeric descriptor.
    spec fn spec_descriptor_domain() -> u32;

    /// The code of the type within its domain.
    spec fn spec_descriptor_code() -> u32;

    fn descriptor_name(&self) -> (name: &'static str)
        ensures
            name@ == Self::spec_descriptor_name(),
    ;

    fn descriptor_domain(&self) -> (domain: u32)
        ensures
            domain == Self::spec_descriptor_domain(),
    ;

    fn descriptor_code(&self) -> (code: u32)
        ensures
            code == Self::spec_descriptor_code(),
    ;
}


/// The key of an annotation: a number or a symbol.
#[derive(Debug, Hash, Eq, PartialEq, Clone)]
pub enum AnnotationKey {
    Ulong(u64),
    Symbol(Symbol),
}

/// The model of an `AnnotationKey`.
pub enum AnnotationKeyView {
    Ulong(u64),
    Symbol(Seq<char>),
}

impl DeepView for AnnotationKey {
    type V = AnnotationKeyView;

    open spec fn deep_view(&self) -> AnnotationKeyView {
        match self {
            AnnotationKey::Ulong(key) => AnnotationKeyView::Ulong(*key),
            AnnotationKey::Symbol(key) => AnnotationKeyView::Symbol(key.deep_view()),
        }
    }
}

/// What identifies a message: a number, a UUID, binary data or text.
#[derive(Debug, Eq, PartialEq, Clone)]
pub enum MessageId {
    Ulong(u64),
    Uuid(Uuid),
    Binary(Binary),
    String(ByteStr),
}

/// The model of a `MessageId`.
pub enum MessageIdView {
    Ulong(u64),
    Uuid(Seq<u8>),
    Binary(Seq<u8>),
    String(Seq<char>),
}

impl DeepView for MessageId {
    type V = MessageIdView;

    open spec fn deep_view(&self) -> MessageIdView {
        match self {
            MessageId::Ulong(id) => MessageIdView::Ulong(*id),
            MessageId::Uuid(id) => MessageIdView::Uuid(id.deep_view()),
            MessageId::Binary(id) => MessageIdView::Binary(id.deep_view()),
            MessageId::String(id) => MessageIdView::String(id.deep_view()),
        }
    }
}

impl DecodeFormatted for MessageId {
    /// The format code says which of the four kinds the identifier is of.
    open spec fn spec_decode_with_format(input: Seq<u8>, fmt: u8) -> Decoded<MessageIdView> {
        if fmt == FORMATCODE_SMALLULONG || fmt == FORMATCODE_ULONG || fmt == FORMATCODE_ULONG_0 {
            map_decoded(u64::spec_decode_with_format(input, fmt), |id: u64| MessageIdView::Ulong(id))
        } else if fmt == FORMATCODE_UUID {
            map_decoded(
                Uuid::spec_decode_with_format(input, fmt),
                |id: Seq<u8>| MessageIdView::Uuid(id),
            )
        } else if fmt == FORMATCODE_BINARY8 || fmt == FORMATCODE_BINARY32 {
            map_decoded(
                Binary::spec_decode_with_format(input, fmt),
                |id: Seq<u8>| MessageIdView::Binary(id),
            )
        } else if fmt == FORMATCODE_STRING8 || fmt == FORMATCODE_STRING32 {
            map_decoded(
                ByteStr::spec_decode_with_format(input, fmt),
                |id: Seq<char>| MessageIdView::String(id),
            )
        } else {
            Err(Error::InvalidFormatCode(fmt))
        }
    }

    proof fn decoding_leaves_suffix(input: Seq<u8>, fmt: u8) {
    }

    fn decode_with_format<'a>(input: &'a [u8], fmt: u8) -> (r: Result<(&'a [u8], Self), Error>) {
        match fmt {
            FORMATCODE_SMALLULONG | FORMATCODE_ULONG | FORMATCODE_ULONG_0 => {
                let (rest, id) = u64::decode_with_format(input, fmt)?;
                Ok((rest, MessageId::Ulong(id)))
            },
            FORMATCODE_UUID => {
                let (rest, id) = Uuid::decode_with_format(input, fmt)?;
                Ok((rest, MessageId::Uuid(id)))
            },
            FORMATCODE_BINARY8 | FORMATCODE_BINARY32 => {
                let (rest, id) = Binary::decode_with_format(input, fmt)?;
                Ok((rest, MessageId::Binary(id)))
            },
            FORMATCODE_STRING8 | FORMATCODE_STRING32 => {
                let (rest, id) = ByteStr::decode_with_format(input, fmt)?;
                Ok((rest, MessageId::String(id)))
            },
            _ => Err(Error::InvalidFormatCode(fmt)),
        }
    }
}

impl Encode for MessageId {
    open spec fn encodable(v: MessageIdView) -> bool {
        match v {
            MessageIdView::Ulong(id) => u64::encodable(id),
            MessageIdView::Uuid(id) => Uuid::encodable(id),
            MessageIdView::Binary(id) => Binary::encodable(id),
            MessageIdView::String(id) => ByteStr::encodable(id),
        }
    }

    open spec fn spec_encode(v: MessageIdView) -> Seq<u8> {
        match v {
            MessageIdView::Ulong(id) => u64::spec_encode(id),
            MessageIdView::Uuid(id) => Uuid::spec_encode(id),
            MessageIdView::Binary(id) => Binary::spec_encode(id),
            MessageIdView::String(id) => ByteStr::spec_encode(id),
        }
    }

    fn encoded_size(&self) -> (n: usize) {
        match self {
            MessageId::Ulong(id) => id.encoded_size(),
            MessageId::Uuid(id) => id.encoded_size(),
            MessageId::Binary(id) => id.encoded_size(),
            MessageId::String(id) => id.encoded_size(),
        }
    }

    fn size_within(&self, limit: usize) -> (size: Option<usize>) {
        match self {
            MessageId::Ulong(id) => id.size_within(limit),
            MessageId::Uuid(id) => id.size_within(limit),
            MessageId::Binary(id) => id.size_within(limit),
            MessageId::String(id) => id.size_within(limit),
        }
    }

    fn encode(&self, buf: &mut BytesMut) {
        match self {
            MessageId::Ulong(id) => id.encode(buf),
            MessageId::Uuid(id) => id.encode(buf),
            MessageId::Binary(id) => id.encode(buf),
            MessageId::String(id) => id.encode(buf),
        }
    }
}

impl RoundTrip for MessageId {
    open spec fn round_trips(v: MessageIdView) -> bool {
        Self::encodable(v)
    }

    proof fn law_round_trip(v: MessageIdView, tail: Seq<u8>) {
        match v {
            MessageIdView::Ulong(id) => u64::law_round_trip(id, tail),
            MessageIdView::Uuid(id) => Uuid::law_round_trip(id, tail),
            MessageIdView::Binary(id) => {
                Binary::law_round_trip(id, tail);
                crate::codec::laws::lemma_variable_round_trip(
                    id,
                    FORMATCODE_BINARY8,
                    FORMATCODE_BINARY32,
                    tail,
                );
            },
            MessageIdView::String(id) => {
                ByteStr::law_round_trip(id, tail);
                crate::codec::laws::lemma_variable_round_trip(
                    vstd::utf8::encode_utf8(id),
                    FORMATCODE_STRING8,
                    FORMATCODE_STRING32,
                    tail,
                );
            },
        }
    }
}

} // verus!
