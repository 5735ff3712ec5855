use vstd::prelude::*;
use crate::errors::Error;
use crate::buffer::{buf_bytes, BUF_MAX};
use bytes::BytesMut;

pub mod bigendian;
pub mod decode;
pub mod encode;
pub mod laws;
pub mod variant;
pub mod array;
pub mod described;

verus! {

pub const FORMATCODE_DESCRIBED: u8 = 0x00;
pub const FORMATCODE_NULL: u8 = 0x40;
pub const FORMATCODE_BOOLEAN: u8 = 0x56;
pub const FORMATCODE_BOOLEAN_TRUE: u8 = 0x41;
pub const FORMATCODE_BOOLEAN_FALSE: u8 = 0x42;
pub const FORMATCODE_UINT_0: u8 = 0x43;
pub const FORMATCODE_ULONG_0: u8 = 0x44;
pub const FORMATCODE_UBYTE: u8 = 0x50;
pub const FORMATCODE_USHORT: u8 = 0x60;
pub const FORMATCODE_UINT: u8 = 0x70;
pub const FORMATCODE_ULONG: u8 = 0x80;
pub const FORMATCODE_BYTE: u8 = 0x51;
pub const FORMATCODE_SHORT: u8 = 0x61;
pub const FORMATCODE_INT: u8 = 0x71;
pub const FORMATCODE_LONG: u8 = 0x81;
pub const FORMATCODE_SMALLUINT: u8 = 0x52;
pub const FORMATCODE_SMALLULONG: u8 = 0x53;
pub const FORMATCODE_SMALLINT: u8 = 0x54;
pub const FORMATCODE_SMALLLONG: u8 = 0x55;
pub const FORMATCODE_FLOAT: u8 = 0x72;
pub const FORMATCODE_DOUBLE: u8 = 0x82;
pub const FORMATCODE_DECIMAL32: u8 = 0x74;
pub const FORMATCODE_DECIMAL64: u8 = 0x84;
pub const FORMATCODE_DECIMAL128: u8 = 0x94;
pub const FORMATCODE_CHAR: u8 = 0x73;
pub const FORMATCODE_TIMESTAMP: u8 = 0x83;
pub const FORMATCODE_UUID: u8 = 0x98;
pub const FORMATCODE_BINARY8: u8 = 0xa0;
pub const FORMATCODE_BINARY32: u8 = 0xb0;
pub const FORMATCODE_STRING8: u8 = 0xa1;
pub const FORMATCODE_STRING32: u8 = 0xb1;
pub const FORMATCODE_SYMBOL8: u8 = 0xa3;
pub const FORMATCODE_SYMBOL32: u8 = 0xb3;
pub const FORMATCODE_LIST0: u8 = 0x45;
pub const FORMATCODE_LIST8: u8 = 0xc0;
pub const FORMATCODE_LIST32: u8 = 0xd0;
pub const FORMATCODE_MAP8: u8 = 0xc1;
pub const FORMATCODE_MAP32: u8 = 0xd1;
pub const FORMATCODE_ARRAY8: u8 = 0xe0;
pub const FORMATCODE_ARRAY32: u8 = 0xf0;

/// What a decoder hands back, in the model: the input that is left and the
/// view of the value, or the error.
pub type Decoded<V> = Result<(Seq<u8>, V), Error>;

/// An executable result stands for a result of the model: the same error,
/// or the same bytes left over and a value with the same view.
pub open spec fn decoded_as<T: DeepView>(r: Result<(&[u8], T), Error>, d: Decoded<T::V>) -> bool {
    match (r, d) {
        (Ok((rest, v)), Ok((drest, dv))) => rest@ == drest && v.deep_view() == dv,
        (Err(e), Err(de)) => e == de,
        _ => false,
    }
}

/// A type that is decoded from the bytes that follow a format code.
pub trait DecodeFormatted: Sized + DeepView {
    /// The value that `input` holds under the format code `fmt`.
    spec fn spec_decode_with_format(input: Seq<u8>, fmt: u8) -> Decoded<<Self as DeepView>::V>;

    /// Decoding takes bytes from the front of the input and nowhere else.
    proof fn decoding_leaves_suffix(input: Seq<u8>, fmt: u8)
        ensures
            Self::spec_decode_with_format(input, fmt) matches Ok((rest, _)) ==> is_suffix(
                rest,
                input,
            ),
    ;

    /// Decodes the value that `input` holds under the format code `fmt`,
    /// and hands it back with the input that follows it.
    fn decode_with_format<'a>(input: &'a [u8], fmt: u8) -> (r: Result<(&'a [u8], Self), Error>)
        ensures
            decoded_as(r, Self::spec_decode_with_format(input@, fmt)),
    ;
}

/// A type that is encoded as bytes that start with its format code.
pub trait Encode: DeepView {
    /// The values that have an encoding: those whose lengths fit the wire's
    /// 32-bit length fields.
    spec fn encodable(v: <Self as DeepView>::V) -> bool;

    /// The bytes that stand for the value, the format code first. They are
    /// chosen by the value alone; for numbers and for values of variable
    /// width they are the fewest that AMQP has for the value.
    spec fn spec_encode(v: <Self as DeepView>::V) -> Seq<u8>;

    /// The number of bytes that `encode` appends.
    fn encoded_size(&self) -> (n: usize)
        requires
            Self::encodable(self.deep_view()),
            Self::spec_encode(self.deep_view()).len() <= usize::MAX,
        ensures
            n == Self::spec_encode(self.deep_view()).len(),
    ;

    /// The number of bytes that `encode` appends, where the value has an
    /// encoding and it takes at most `limit` bytes; nothing where the
    /// value has none or it takes more.
    fn size_within(&self, limit: usize) -> (size: Option<usize>)
        ensures
            size matches Some(n) ==> Self::encodable(self.deep_view()) && n == Self::spec_encode(
                self.deep_view(),
            ).len() && n <= limit,
            size is None ==> !(Self::encodable(self.deep_view()) && Self::spec_encode(
                self.deep_view(),
            ).len() <= limit),
    ;

    /// Appends the encoding of the value to `buf`.
    fn encode(&self, buf: &mut BytesMut)
        requires
            Self::encodable(self.deep_view()),
            buf_bytes(*old(buf)).len() + Self::spec_encode(self.deep_view()).len() <= BUF_MAX,
        ensures
            buf_bytes(*final(buf)) == buf_bytes(*old(buf)) + Self::spec_encode(self.deep_view()),
    ;
}

/// A type whose values can stand in an array. The elements of an array
/// share one format code, which stands once in front of them, so each
/// element is encoded in the same way: the widest.
pub trait ArrayEncode: DeepView {
    /// The format code of every element of an array of this type.
    const ARRAY_FORMAT_CODE: u8;

    /// The values that can stand in an array.
    spec fn array_encodable(v: <Self as DeepView>::V) -> bool;

    /// The bytes that stand for the value in an array: its encoding under
    /// `ARRAY_FORMAT_CODE`, without that code.
    spec fn spec_array_encode(v: <Self as DeepView>::V) -> Seq<u8>;

    /// The number of bytes that `array_encode` appends.
    fn array_encoded_size(&self) -> (n: usize)
        requires
            Self::array_encodable(self.deep_view()),
            Self::spec_array_encode(self.deep_view()).len() <= usize::MAX,
        ensures
            n == Self::spec_array_encode(self.deep_view()).len(),
    ;

    /// The number of bytes that `array_encode` appends, where the value
    /// can stand in an array and takes at most `limit` bytes there;
    /// nothing where it cannot or it takes more.
    fn array_size_within(&self, limit: usize) -> (size: Option<usize>)
        ensures
            size matches Some(n) ==> Self::array_encodable(self.deep_view()) && n
                == Self::spec_array_encode(self.deep_view()).len() && n <= limit,
            size is None ==> !(Self::array_encodable(self.deep_view())
                && Self::spec_array_encode(self.deep_view()).len() <= limit),
    ;

    /// Appends the value as an element of an array.
    fn array_encode(&self, buf: &mut BytesMut)
        requires
            Self::array_encodable(self.deep_view()),
            buf_bytes(*old(buf)).len() + Self::spec_array_encode(self.deep_view()).len()
                <= BUF_MAX,
        ensures
            buf_bytes(*final(buf)) == buf_bytes(*old(buf)) + Self::spec_array_encode(
                self.deep_view(),
            ),
    ;
}

/// A type whose values can be read back from an array.
pub trait ArrayRoundTrip: ArrayEncode + DecodeFormatted {
    /// An element comes back from its bytes in an array, and what follows
    /// them is left as it was.
    proof fn law_array_round_trip(v: <Self as DeepView>::V, tail: Seq<u8>)
        requires
            Self::array_encodable(v),
        ensures
            Self::spec_decode_with_format(
                Self::spec_array_encode(v) + tail,
                Self::ARRAY_FORMAT_CODE,
            ) == Ok::<(Seq<u8>, <Self as DeepView>::V), Error>((tail, v)),
    ;
}

/// A type whose encoding can be read back.
pub trait RoundTrip: Encode + DecodeFormatted {
    /// The values that decoding gives back as they went in. For most types
    /// these are all that can be encoded.
    spec fn round_trips(v: <Self as DeepView>::V) -> bool;

    /// Decoding what was encoded gives the value back and leaves what
    /// follows the encoding untouched.
    proof fn law_round_trip(v: <Self as DeepView>::V, tail: Seq<u8>)
        requires
            Self::round_trips(v),
        ensures
            Self::encodable(v),
            Self::spec_encode(v).len() >= 1,
            <Self as Decode>::spec_decode(Self::spec_encode(v) + tail) == Ok::<
                (Seq<u8>, <Self as DeepView>::V),
                Error,
            >((tail, v)),
    ;
}

/// `rest` is what is left of `input` when some bytes are taken from its
/// front.
pub open spec fn is_suffix(rest: Seq<u8>, input: Seq<u8>) -> bool {
    rest.len() <= input.len() && rest =~= input.subrange(
        input.len() - rest.len(),
        input.len() as int,
    )
}

/// A type that is decoded from bytes that start with its format code.
pub trait Decode: Sized + DeepView {
    /// The value with which `input` starts.
    spec fn spec_decode(input: Seq<u8>) -> Decoded<<Self as DeepView>::V>;

    /// Decodes the value with which `input` starts, and hands it back with
    /// the input that follows it.
    fn decode<'a>(input: &'a [u8]) -> (r: Result<(&'a [u8], Self), Error>)
        ensures
            decoded_as(r, Self::spec_decode(input@)),
    ;
}

/// The format code at the front of `input`, and the bytes behind it.
pub open spec fn spec_decode_format_code(input: Seq<u8>) -> Result<(Seq<u8>, u8), Error> {
    if input.len() < 1 {
        Err(Error::Incomplete(Some(1)))
    } else {
        Ok((input.subrange(1, input.len() as int), input[0]))
    }
}

/// Reads the format code at the front of `input`.
pub fn decode_format_code<'a>(input: &'a [u8]) -> (r: Result<(&'a [u8], u8), Error>)
    ensures
        decoded_as(r, spec_decode_format_code(input@)),
{
    if input.len() < 1 {
        return Err(Error::Incomplete(Some(1)));
    }
    Ok((vstd::slice::slice_subrange(input, 1, input.len()), input[0]))
}

impl<T: DecodeFormatted> Decode for T {
    open spec fn spec_decode(input: Seq<u8>) -> Decoded<<Self as DeepView>::V> {
        match spec_decode_format_code(input) {
            Ok((rest, fmt)) => T::spec_decode_with_format(rest, fmt),
            Err(e) => Err(e),
        }
    }

    fn decode<'a>(input: &'a [u8]) -> (r: Result<(&'a [u8], Self), Error>) {
        let (input, fmt) = decode_format_code(input)?;
        T::decode_with_format(input, fmt)
    }
}

} // verus!
