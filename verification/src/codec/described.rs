//! What all described types share: the descriptor in front of the value
//! and the list behind it, whose fields stand in a fixed order and may be
//! left out from the end.

use vstd::prelude::*;
use bytes::BytesMut;
use crate::buffer::{buf_bytes, BUF_MAX};
use crate::errors::Error;
use crate::codec::encode::put_u8;
use crate::codec::laws::lemma_coded;
use crate::codec::is_suffix;
use crate::codec::{
    spec_decode_format_code, Decode, DecodeFormatted, Decoded, Encode, RoundTrip,
    FORMATCODE_DESCRIBED, FORMATCODE_NULL,
};
use crate::codec::decode::map_decoded;
use crate::codec::{decode_format_code, decoded_as};
use crate::protocol::Described;
use crate::types::{Descriptor, DescriptorView, Symbol};
use vstd::string::StringSliceAdditionalSpecFns;
use vstd::utf8::{encode_utf8, encode_utf8_decode_utf8};

verus! {

/// The fields of a list while they are decoded: the input that is left,
/// the number of fields that the list still holds, and the field that was
/// decoded last.
pub type Field<V> = Result<(Seq<u8>, nat, V), Error>;

/// An executable result stands for a field of the model.
pub open spec fn field_as<T: DeepView>(r: Result<(&[u8], u32, T), Error>, d: Field<T::V>) -> bool {
    match (r, d) {
        (Ok((rest, count, v)), Ok((drest, dcount, dv))) => rest@ == drest && count == dcount
            && v.deep_view() == dv,
        (Err(e), Err(de)) => e == de,
        _ => false,
    }
}

/// A field that may be absent. Where the list still holds a field it is
/// decoded, and the null value stands for absence; where the list has
/// ended the field is absent.
#[verifier::opaque]
pub open spec fn spec_decode_optional_field<T: DecodeFormatted>(input: Seq<u8>, count: nat) -> Field<
    Option<T::V>,
> {
    if count > 0 {
        match <Option<T> as Decode>::spec_decode(input) {
            Ok((rest, v)) => Ok((rest, (count - 1) as nat, v)),
            Err(e) => Err(e),
        }
    } else {
        Ok((input, 0, None))
    }
}

/// A field with a default. Where the list still holds a field it is
/// decoded, and the default stands in for the null value; where the list
/// has ended the field is the default.
#[verifier::opaque]
pub open spec fn spec_decode_default_field<T: DecodeFormatted>(
    input: Seq<u8>,
    count: nat,
    default: T::V,
) -> Field<T::V> {
    if count > 0 {
        match <Option<T> as Decode>::spec_decode(input) {
            Ok((rest, Some(v))) => Ok((rest, (count - 1) as nat, v)),
            Ok((rest, None)) => Ok((rest, (count - 1) as nat, default)),
            Err(e) => Err(e),
        }
    } else {
        Ok((input, 0, default))
    }
}

/// A field that must be there. Where the list still holds a field it is
/// decoded; where the list has ended the field is missed, under its name.
#[verifier::opaque]
pub open spec fn spec_decode_required_field<T: DecodeFormatted>(
    input: Seq<u8>,
    count: nat,
    name: &'static str,
) -> Field<T::V> {
    if count > 0 {
        match <T as Decode>::spec_decode(input) {
            Ok((rest, v)) => Ok((rest, (count - 1) as nat, v)),
            Err(e) => Err(e),
        }
    } else {
        Err(Error::RequiredFieldOmitted(name))
    }
}

pub fn decode_optional_field<'a, T: DecodeFormatted>(input: &'a [u8], count: u32) -> (r: Result<
    (&'a [u8], u32, Option<T>),
    Error,
>)
    ensures
        field_as(r, spec_decode_optional_field::<T>(input@, count as nat)),
{
    proof {
        reveal(spec_decode_optional_field);
    }
    if count > 0 {
        let (rest, v) = <Option<T> as Decode>::decode(input)?;
        Ok((rest, count - 1, v))
    } else {
        Ok((input, 0, None))
    }
}

pub fn decode_default_field<'a, T: DecodeFormatted>(input: &'a [u8], count: u32, default: T) -> (r:
    Result<(&'a [u8], u32, T), Error>)
    ensures
        field_as(r, spec_decode_default_field::<T>(input@, count as nat, default.deep_view())),
{
    proof {
        reveal(spec_decode_default_field);
    }
    if count > 0 {
        let (rest, v) = <Option<T> as Decode>::decode(input)?;
        match v {
            Some(v) => Ok((rest, count - 1, v)),
            None => Ok((rest, count - 1, default)),
        }
    } else {
        Ok((input, 0, default))
    }
}

pub fn decode_required_field<'a, T: DecodeFormatted>(
    input: &'a [u8],
    count: u32,
    name: &'static str,
) -> (r: Result<(&'a [u8], u32, T), Error>)
    ensures
        field_as(r, spec_decode_required_field::<T>(input@, count as nat, name)),
{
    proof {
        reveal(spec_decode_required_field);
    }
    if count > 0 {
        let (rest, v) = <T as Decode>::decode(input)?;
        Ok((rest, count - 1, v))
    } else {
        Err(Error::RequiredFieldOmitted(name))
    }
}

/// A list that declares fewer fields than its type has: each field behind
/// its end is absent where it may be, is its default where it has one, and
/// is an error under its name where it is mandatory and has none. Nothing
/// is taken from the input for it.
pub proof fn law_omitted_field<T: DecodeFormatted>(input: Seq<u8>, default: T::V, name: &'static str)
    ensures
        spec_decode_optional_field::<T>(input, 0) == Ok::<(Seq<u8>, nat, Option<T::V>), Error>(
            (input, 0, None),
        ),
        spec_decode_default_field::<T>(input, 0, default) == Ok::<(Seq<u8>, nat, T::V), Error>(
            (input, 0, default),
        ),
        spec_decode_required_field::<T>(input, 0, name) == Err::<(Seq<u8>, nat, T::V), Error>(
            Error::RequiredFieldOmitted(name),
        ),
{
    reveal(spec_decode_optional_field);
    reveal(spec_decode_default_field);
    reveal(spec_decode_required_field);
}

/// The number of fields that a list of `count` fields holds from its
/// field `i` on.
pub open spec fn fields_left(count: nat, i: nat) -> nat {
    if count > i {
        (count - i) as nat
    } else {
        0
    }
}

/// The number of fields that a list of `count` fields holds from its
/// field `i` on.
pub fn left_of(count: u32, i: u32) -> (left: u32)
    ensures
        left == fields_left(count as nat, i as nat),
{
    if count > i {
        count - i
    } else {
        0
    }
}

/// The bytes of a field that may be left out at the end of a list: none
/// where the list has ended before it.
#[verifier::opaque]
pub open spec fn spec_encode_field<T: Encode>(v: T::V, count: nat) -> Seq<u8> {
    if count > 0 {
        T::spec_encode(v)
    } else {
        Seq::empty()
    }
}

/// A field that the list does not hold takes no bytes.
pub proof fn lemma_no_field_no_bytes<T: Encode>(v: T::V)
    ensures
        spec_encode_field::<T>(v, 0).len() == 0,
{
    reveal(spec_encode_field);
}

/// Appends a field, unless the list has ended before it; hands back the
/// number of fields that the list holds behind it.
pub fn encode_field<T: Encode>(v: &T, count: u32, buf: &mut BytesMut) -> (left: u32)
    requires
        T::encodable(v.deep_view()),
        buf_bytes(*old(buf)).len() + spec_encode_field::<T>(v.deep_view(), count as nat).len()
            <= BUF_MAX,
    ensures
        buf_bytes(*final(buf)) == buf_bytes(*old(buf)) + spec_encode_field::<T>(
            v.deep_view(),
            count as nat,
        ),
        left == if count > 0 {
            count - 1
        } else {
            0
        },
{
    proof {
        reveal(spec_encode_field);
    }
    if count > 0 {
        v.encode(buf);
        count - 1
    } else {
        assert(buf_bytes(*buf) + Seq::<u8>::empty() =~= buf_bytes(*buf));
        0
    }
}

/// The number of bytes that `encode_field` appends, where the field has
/// an encoding and it takes at most `limit` bytes. A field that the list
/// does not hold takes none; it has to be one that could be encoded.
pub fn field_size_within<T: Encode>(v: &T, count: u32, limit: usize) -> (size: Option<usize>)
    requires
        count == 0 ==> T::encodable(v.deep_view()),
    ensures
        size matches Some(n) ==> T::encodable(v.deep_view()) && n == spec_encode_field::<T>(
            v.deep_view(),
            count as nat,
        ).len() && n <= limit,
        size is None ==> !(T::encodable(v.deep_view()) && spec_encode_field::<T>(
            v.deep_view(),
            count as nat,
        ).len() <= limit),
{
    proof {
        reveal(spec_encode_field);
    }
    if count > 0 {
        v.size_within(limit)
    } else {
        Some(0)
    }
}

/// The number of bytes that `encode_field` appends.
pub fn field_encoded_size<T: Encode>(v: &T, count: u32) -> (n: usize)
    requires
        T::encodable(v.deep_view()),
        spec_encode_field::<T>(v.deep_view(), count as nat).len() <= usize::MAX,
    ensures
        n == spec_encode_field::<T>(v.deep_view(), count as nat).len(),
{
    proof {
        reveal(spec_encode_field);
    }
    if count > 0 {
        v.encoded_size()
    } else {
        0
    }
}

/// An optional field comes back as it was written. A field that was left
/// out was absent.
pub proof fn lemma_optional_field_round_trip<T: RoundTrip>(
    v: Option<T::V>,
    count: nat,
    tail: Seq<u8>,
)
    requires
        <Option<T> as RoundTrip>::round_trips(v),
        count == 0 ==> v is None,
    ensures
        spec_decode_optional_field::<T>(
            spec_encode_field::<Option<T>>(v, count) + tail,
            count,
        ) == Ok::<(Seq<u8>, nat, Option<T::V>), Error>(
            (
                tail,
                if count > 0 {
                    (count - 1) as nat
                } else {
                    0
                },
                v,
            ),
        ),
{
    reveal(spec_encode_field);
    reveal(spec_decode_optional_field);
    if count > 0 {
        <Option<T> as RoundTrip>::law_round_trip(v, tail);
    } else {
        assert(Seq::<u8>::empty() + tail =~= tail);
    }
}

/// A field with a default comes back as it was written, where it was
/// written.
pub proof fn lemma_default_field_round_trip<T: RoundTrip>(
    v: T::V,
    default: T::V,
    count: nat,
    tail: Seq<u8>,
)
    requires
        T::round_trips(v),
        T::spec_encode(v)[0] != FORMATCODE_NULL,
        count > 0,
    ensures
        spec_decode_default_field::<T>(spec_encode_field::<T>(v, count) + tail, count, default)
            == Ok::<(Seq<u8>, nat, T::V), Error>((tail, (count - 1) as nat, v)),
{
    reveal(spec_encode_field);
    reveal(spec_decode_default_field);
    <Option<T> as RoundTrip>::law_round_trip(Some(v), tail);
}

/// A mandatory field comes back as it was written, where it was written.
pub proof fn lemma_required_field_round_trip<T: RoundTrip>(
    v: T::V,
    name: &'static str,
    count: nat,
    tail: Seq<u8>,
)
    requires
        T::round_trips(v),
        count > 0,
    ensures
        spec_decode_required_field::<T>(spec_encode_field::<T>(v, count) + tail, count, name)
            == Ok::<(Seq<u8>, nat, T::V), Error>((tail, (count - 1) as nat, v)),
{
    reveal(spec_encode_field);
    reveal(spec_decode_required_field);
    T::law_round_trip(v, tail);
}


/// The numeric descriptor of a type: its domain in the upper 32 bits and
/// its code in the lower.
pub open spec fn spec_descriptor_code(domain: u32, code: u32) -> u64 {
    (domain as int * 0x1_0000_0000 + code as int) as u64
}

pub fn descriptor_code(domain: u32, code: u32) -> (r: u64)
    ensures
        r == spec_descriptor_code(domain, code),
{
    (domain as u64) * 0x1_0000_0000 + (code as u64)
}

/// The descriptor is that of the type with the given numeric code and
/// symbolic name: it is one of the two.
pub open spec fn descriptor_names(d: DescriptorView, code: u64, name: Seq<char>) -> bool {
    match d {
        DescriptorView::Ulong(c) => c == code,
        DescriptorView::Symbol(n) => n == name,
    }
}

/// Whether two slices hold the same bytes.
pub fn bytes_equal(a: &[u8], b: &[u8]) -> (r: bool)
    ensures
        r == (a@ == b@),
{
    if a.len() != b.len() {
        return false;
    }
    let mut i: usize = 0;
    while i < a.len()
        invariant
            i <= a.len(),
            a@.len() == b@.len(),
            forall|j: int| 0 <= j < i ==> a@[j] == b@[j],
        decreases a.len() - i,
    {
        if a[i] != b[i] {
            return false;
        }
        i = i + 1;
    }
    assert(a@ =~= b@);
    true
}

/// Whether a symbol is the given name.
pub fn symbol_is(symbol: &Symbol, name: &str) -> (r: bool)
    ensures
        r == (symbol@ == name@),
{
    let same = bytes_equal(symbol.as_bytes(), name.as_bytes());
    proof {
        encode_utf8_decode_utf8(symbol@);
        encode_utf8_decode_utf8(name@);
    }
    same
}

/// Whether the descriptor is that of the type with the given code and
/// name.
pub fn descriptor_matches(d: &Descriptor, code: u64, name: &str) -> (r: bool)
    ensures
        r == descriptor_names(d.deep_view(), code, name@),
{
    match d {
        Descriptor::Ulong(c) => *c == code,
        Descriptor::Symbol(n) => symbol_is(n, name),
    }
}

/// The descriptor of a described value: it stands behind the format code
/// `0x00`, with a format code of its own.
pub open spec fn spec_decode_descriptor(input: Seq<u8>, fmt: u8) -> Decoded<DescriptorView> {
    if fmt != FORMATCODE_DESCRIBED {
        Err(Error::InvalidFormatCode(fmt))
    } else {
        <Descriptor as Decode>::spec_decode(input)
    }
}

pub fn decode_descriptor<'a>(input: &'a [u8], fmt: u8) -> (r: Result<(&'a [u8], Descriptor), Error>)
    ensures
        crate::codec::decoded_as(r, spec_decode_descriptor(input@, fmt)),
{
    if fmt != FORMATCODE_DESCRIBED {
        return Err(Error::InvalidFormatCode(fmt));
    }
    <Descriptor as Decode>::decode(input)
}

/// What stands in front of a described value: the format code `0x00` and
/// the numeric descriptor.
pub open spec fn spec_encode_descriptor(code: u64) -> Seq<u8> {
    seq![FORMATCODE_DESCRIBED] + u64::spec_encode(code)
}

/// Appends the format code `0x00` and the numeric descriptor.
pub fn encode_descriptor(code: u64, buf: &mut BytesMut)
    requires
        buf_bytes(*old(buf)).len() + spec_encode_descriptor(code).len() <= BUF_MAX,
    ensures
        buf_bytes(*final(buf)) == buf_bytes(*old(buf)) + spec_encode_descriptor(code),
{
    put_u8(buf, FORMATCODE_DESCRIBED);
    code.encode(buf);
    assert(buf_bytes(*buf) =~= buf_bytes(*old(buf)) + spec_encode_descriptor(code));
}

/// A numeric descriptor other than zero is read back as it was written.
pub proof fn lemma_descriptor_round_trip(code: u64, tail: Seq<u8>)
    requires
        code != 0,
    ensures
        match spec_decode_format_code(spec_encode_descriptor(code) + tail) {
            Ok((rest, fmt)) => spec_decode_descriptor(rest, fmt) == Ok::<
                (Seq<u8>, DescriptorView),
                Error,
            >((tail, DescriptorView::Ulong(code))),
            Err(_) => false,
        },
{
    lemma_coded(FORMATCODE_DESCRIBED, u64::spec_encode(code), tail);
    u64::law_round_trip(code, tail);
}


/// Decoding a field takes bytes from the front of the input and nowhere
/// else.
pub proof fn lemma_field_leaves_suffix<T: DecodeFormatted>(
    input: Seq<u8>,
    count: nat,
    default: T::V,
    name: &'static str,
)
    ensures
        spec_decode_optional_field::<T>(input, count) matches Ok((rest, _, _)) ==> is_suffix(
            rest,
            input,
        ),
        spec_decode_default_field::<T>(input, count, default) matches Ok((rest, _, _))
            ==> is_suffix(rest, input),
        spec_decode_required_field::<T>(input, count, name) matches Ok((rest, _, _)) ==> is_suffix(
            rest,
            input,
        ),
{
    reveal(spec_decode_optional_field);
    reveal(spec_decode_default_field);
    reveal(spec_decode_required_field);
    if input.len() >= 1 {
        let payload = input.subrange(1, input.len() as int);
        T::decoding_leaves_suffix(payload, input[0]);
        <Option<T> as DecodeFormatted>::decoding_leaves_suffix(payload, input[0]);
    }
}


/// A described type whose value is a list of fields: an entry of the
/// catalog. The type says how its list is read and written; what stands
/// in front of the list is the same for all.
pub trait DescribedList: Described + DeepView + Sized {
    /// The descriptor of the type: its number and its name.
    fn descriptor() -> (d: (u64, &'static str))
        ensures
            d.0 == spec_descriptor_of::<Self>(),
            d.1@ == Self::spec_descriptor_name(),
    ;

    /// The value that the list holds which `input` holds under the format
    /// code `fmt`.
    spec fn spec_decode_list(input: Seq<u8>, fmt: u8) -> Decoded<<Self as DeepView>::V>;

    /// Decoding the list takes bytes from the front of the input and
    /// nowhere else.
    proof fn list_leaves_suffix(input: Seq<u8>, fmt: u8)
        ensures
            Self::spec_decode_list(input, fmt) matches Ok((rest, _)) ==> is_suffix(rest, input),
    ;

    fn decode_list<'a>(input: &'a [u8], fmt: u8) -> (r: Result<(&'a [u8], Self), Error>)
        ensures
            decoded_as(r, Self::spec_decode_list(input@, fmt)),
    ;

    /// The values whose list has an encoding.
    spec fn list_encodable(v: <Self as DeepView>::V) -> bool;

    /// The list of the value, its format code first.
    spec fn spec_encode_list(v: <Self as DeepView>::V) -> Seq<u8>;

    /// The number of bytes that `encode_list` appends.
    fn list_encoded_size(&self) -> (n: usize)
        requires
            Self::list_encodable(self.deep_view()),
            Self::spec_encode_list(self.deep_view()).len() <= usize::MAX,
        ensures
            n == Self::spec_encode_list(self.deep_view()).len(),
    ;

    /// The number of bytes that `encode_list` appends, where the list has
    /// an encoding and it takes at most `limit` bytes.
    fn list_size_within(&self, limit: usize) -> (size: Option<usize>)
        ensures
            size matches Some(n) ==> Self::list_encodable(self.deep_view()) && n
                == Self::spec_encode_list(self.deep_view()).len() && n <= limit,
            size is None ==> !(Self::list_encodable(self.deep_view()) && Self::spec_encode_list(
                self.deep_view(),
            ).len() <= limit),
    ;

    /// Appends the list of the value.
    fn encode_list(&self, buf: &mut BytesMut)
        requires
            Self::list_encodable(self.deep_view()),
            buf_bytes(*old(buf)).len() + Self::spec_encode_list(self.deep_view()).len()
                <= BUF_MAX,
        ensures
            buf_bytes(*final(buf)) == buf_bytes(*old(buf)) + Self::spec_encode_list(
                self.deep_view(),
            ),
    ;

    /// The values whose list decoding gives back as it went in.
    spec fn list_round_trips(v: <Self as DeepView>::V) -> bool;

    /// The value comes back from its list, the numeric descriptor of the
    /// type is one that can be told from the absent one, and what follows
    /// the list is left as it was.
    proof fn law_list_round_trip(v: <Self as DeepView>::V, tail: Seq<u8>)
        requires
            Self::list_round_trips(v),
        ensures
            Self::list_encodable(v),
            spec_descriptor_of::<Self>() != 0,
            match spec_decode_format_code(Self::spec_encode_list(v) + tail) {
                Ok((rest, fmt)) => Self::spec_decode_list(rest, fmt) == Ok::<
                    (Seq<u8>, <Self as DeepView>::V),
                    Error,
                >((tail, v)),
                Err(_) => false,
            },
    ;
}

/// The numeric descriptor of a described type.
pub open spec fn spec_descriptor_of<T: Described>() -> u64 {
    spec_descriptor_code(T::spec_descriptor_domain(), T::spec_descriptor_code())
}

/// The descriptor is that of the type `T`.
pub open spec fn names<T: Described>(d: DescriptorView) -> bool {
    descriptor_names(d, spec_descriptor_of::<T>(), T::spec_descriptor_name())
}

/// Whether the descriptor is that of the type `T`.
pub fn is_descriptor_of<T: DescribedList>(d: &Descriptor) -> (r: bool)
    ensures
        r == names::<T>(d.deep_view()),
{
    let (code, name) = T::descriptor();
    descriptor_matches(d, code, name)
}

/// The value of type `T` that the list holds with which `input` starts.
pub open spec fn spec_decode_list_of<T: DescribedList>(input: Seq<u8>) -> Decoded<T::V> {
    match spec_decode_format_code(input) {
        Ok((rest, fmt)) => T::spec_decode_list(rest, fmt),
        Err(e) => Err(e),
    }
}

pub fn decode_list_of<'a, T: DescribedList>(input: &'a [u8]) -> (r: Result<(&'a [u8], T), Error>)
    ensures
        decoded_as(r, spec_decode_list_of::<T>(input@)),
{
    let (rest, fmt) = decode_format_code(input)?;
    T::decode_list(rest, fmt)
}

/// A described value of the type `T`: behind the format code `0x00` the
/// descriptor, which has to be that of `T`, by number or by name, and
/// behind that the list.
pub open spec fn spec_decode_described<T: DescribedList>(input: Seq<u8>, fmt: u8) -> Decoded<T::V> {
    match spec_decode_descriptor(input, fmt) {
        Ok((rest, d)) => if names::<T>(d) {
            spec_decode_list_of::<T>(rest)
        } else {
            Err(Error::InvalidDescriptor)
        },
        Err(e) => Err(e),
    }
}

pub fn decode_described<'a, T: DescribedList>(input: &'a [u8], fmt: u8) -> (r: Result<
    (&'a [u8], T),
    Error,
>)
    ensures
        decoded_as(r, spec_decode_described::<T>(input@, fmt)),
{
    let (rest, d) = decode_descriptor(input, fmt)?;
    if !is_descriptor_of::<T>(&d) {
        return Err(Error::InvalidDescriptor);
    }
    decode_list_of::<T>(rest)
}

/// Decoding a described value takes bytes from the front of the input and
/// nowhere else.
pub proof fn lemma_described_leaves_suffix<T: DescribedList>(input: Seq<u8>, fmt: u8)
    ensures
        spec_decode_described::<T>(input, fmt) matches Ok((rest, _)) ==> is_suffix(rest, input),
        spec_decode_descriptor(input, fmt) matches Ok((rest, _)) ==> is_suffix(rest, input) && (
        spec_decode_list_of::<T>(rest) matches Ok((rest2, _)) ==> is_suffix(rest2, input)),
{
    if let Ok((rest, d)) = spec_decode_descriptor(input, fmt) {
        if input.len() >= 1 {
            Descriptor::decoding_leaves_suffix(input.subrange(1, input.len() as int), input[0]);
        }
        if let Ok((list, list_fmt)) = spec_decode_format_code(rest) {
            T::list_leaves_suffix(list, list_fmt);
        }
    }
}

/// The values of the type `T` that have an encoding.
pub open spec fn described_encodable<T: DescribedList>(v: T::V) -> bool {
    T::list_encodable(v)
}

/// The bytes that stand for a described value: the format code `0x00`,
/// the numeric descriptor, and the list.
pub open spec fn spec_encode_described<T: DescribedList>(v: T::V) -> Seq<u8> {
    spec_encode_descriptor(spec_descriptor_of::<T>()) + T::spec_encode_list(v)
}

/// The number of bytes that `encode_described` appends.
pub fn described_encoded_size<T: DescribedList>(v: &T) -> (n: usize)
    requires
        T::list_encodable(v.deep_view()),
        spec_encode_described::<T>(v.deep_view()).len() <= usize::MAX,
    ensures
        n == spec_encode_described::<T>(v.deep_view()).len(),
{
    let (code, _) = T::descriptor();
    1 + code.encoded_size() + v.list_encoded_size()
}

/// The number of bytes that `encode_described` appends, where the value
/// has an encoding and it takes at most `limit` bytes.
pub fn described_size_within<T: DescribedList>(v: &T, limit: usize) -> (size: Option<usize>)
    ensures
        size matches Some(n) ==> T::list_encodable(v.deep_view()) && n == spec_encode_described::<
            T,
        >(v.deep_view()).len() && n <= limit,
        size is None ==> !(T::list_encodable(v.deep_view()) && spec_encode_described::<T>(
            v.deep_view(),
        ).len() <= limit),
{
    let (code, _) = T::descriptor();
    let head: usize = 1 + code.encoded_size();
    if limit < head {
        return None;
    }
    match v.list_size_within(limit - head) {
        Some(n) => Some(head + n),
        None => None,
    }
}

/// Appends a described value.
pub fn encode_described<T: DescribedList>(v: &T, buf: &mut BytesMut)
    requires
        T::list_encodable(v.deep_view()),
        buf_bytes(*old(buf)).len() + spec_encode_described::<T>(v.deep_view()).len()
            <= BUF_MAX,
    ensures
        buf_bytes(*final(buf)) == buf_bytes(*old(buf)) + spec_encode_described::<T>(
            v.deep_view(),
        ),
{
    let (code, _) = T::descriptor();
    encode_descriptor(code, buf);
    v.encode_list(buf);
    assert(buf_bytes(*buf) =~= buf_bytes(*old(buf)) + spec_encode_described::<T>(v.deep_view()));
}

/// A described value comes back from its encoding.
pub proof fn lemma_described_round_trip<T: DescribedList>(v: T::V, tail: Seq<u8>)
    requires
        T::list_round_trips(v),
    ensures
        T::list_encodable(v),
        spec_encode_described::<T>(v).len() >= 1,
        spec_encode_described::<T>(v)[0] == FORMATCODE_DESCRIBED,
        match spec_decode_format_code(spec_encode_described::<T>(v) + tail) {
            Ok((rest, fmt)) => {
                &&& spec_decode_descriptor(rest, fmt) == Ok::<(Seq<u8>, DescriptorView), Error>(
                    (
                        T::spec_encode_list(v) + tail,
                        DescriptorView::Ulong(spec_descriptor_of::<T>()),
                    ),
                )
                &&& spec_decode_described::<T>(rest, fmt) == Ok::<(Seq<u8>, T::V), Error>(
                    (tail, v),
                )
            },
            Err(_) => false,
        },
{
    let list = T::spec_encode_list(v);
    let code = spec_descriptor_of::<T>();
    T::law_list_round_trip(v, tail);
    assert(spec_encode_described::<T>(v) + tail =~= spec_encode_descriptor(code) + (list + tail));
    lemma_descriptor_round_trip(code, list + tail);
}

} // verus!
