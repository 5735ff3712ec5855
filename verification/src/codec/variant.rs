//! Decoding and encoding of values whose type the wire decides: the format
//! code says which primitive type follows, or that a map does.

use vstd::prelude::*;
use crate::errors::Error;
use crate::codec::decode::{
    decode_map_header, map_decoded, spec_decode_map_header, spec_take, take,
};
use crate::codec::{
    decode_format_code, decoded_as, is_suffix, spec_decode_format_code, DecodeFormatted, Decoded,
    FORMATCODE_BINARY32, FORMATCODE_BINARY8, FORMATCODE_BOOLEAN, FORMATCODE_BOOLEAN_FALSE,
    FORMATCODE_BOOLEAN_TRUE, FORMATCODE_BYTE, FORMATCODE_CHAR, FORMATCODE_DOUBLE,
    FORMATCODE_FLOAT, FORMATCODE_INT, FORMATCODE_LONG, FORMATCODE_MAP32, FORMATCODE_MAP8,
    FORMATCODE_NULL, FORMATCODE_SHORT, FORMATCODE_SMALLINT, FORMATCODE_SMALLLONG,
    FORMATCODE_SMALLUINT, FORMATCODE_SMALLULONG, FORMATCODE_STRING32, FORMATCODE_STRING8,
    FORMATCODE_SYMBOL32, FORMATCODE_SYMBOL8, FORMATCODE_TIMESTAMP, FORMATCODE_UBYTE,
    FORMATCODE_UINT, FORMATCODE_UINT_0, FORMATCODE_ULONG, FORMATCODE_ULONG_0, FORMATCODE_USHORT,
    FORMATCODE_UUID,
};
use crate::buffer::{buf_bytes, BUF_MAX};
use crate::codec::encode::{
    compound_fits, compound_header_size, put_compound_header, spec_compound_header,
};
use crate::codec::laws::{lemma_compound_header_round_trip, lemma_take_front};
use crate::codec::{Decode, Encode, RoundTrip};
use crate::types::variant::entries_view;
use crate::types::Null;
use bytes::BytesMut;
use crate::types::{
    Binary, ByteStr, DoubleBits, FloatBits, Symbol, Timestamp, Uuid, Variant, VariantMap,
    VariantView,
};

verus! {

/// The entries of a map whose keys and values stand in a row: the first
/// value is the key of the second, the third that of the fourth, and so on.
pub open spec fn spec_pairs(values: Seq<VariantView>) -> Seq<(VariantView, VariantView)> {
    Seq::new(values.len() / 2, |i: int| (values[2 * i], values[2 * i + 1]))
}

/// The value that `input` holds under the format code `fmt`. Codes of
/// types that a `Variant` has no case for are refused: those of lists, of
/// arrays and of the decimal types.
pub open spec fn spec_decode_variant(input: Seq<u8>, fmt: u8) -> Decoded<VariantView>
    decreases input.len(), 1nat,
{
    if fmt == FORMATCODE_NULL {
        Ok((input, VariantView::Null))
    } else if fmt == FORMATCODE_BOOLEAN || fmt == FORMATCODE_BOOLEAN_TRUE || fmt
        == FORMATCODE_BOOLEAN_FALSE {
        map_decoded(bool::spec_decode_with_format(input, fmt), |v: bool| VariantView::Boolean(v))
    } else if fmt == FORMATCODE_UBYTE {
        map_decoded(u8::spec_decode_with_format(input, fmt), |v: u8| VariantView::Ubyte(v))
    } else if fmt == FORMATCODE_USHORT {
        map_decoded(u16::spec_decode_with_format(input, fmt), |v: u16| VariantView::Ushort(v))
    } else if fmt == FORMATCODE_UINT || fmt == FORMATCODE_SMALLUINT || fmt == FORMATCODE_UINT_0 {
        map_decoded(u32::spec_decode_with_format(input, fmt), |v: u32| VariantView::Uint(v))
    } else if fmt == FORMATCODE_ULONG || fmt == FORMATCODE_SMALLULONG || fmt
        == FORMATCODE_ULONG_0 {
        map_decoded(u64::spec_decode_with_format(input, fmt), |v: u64| VariantView::Ulong(v))
    } else if fmt == FORMATCODE_BYTE {
        map_decoded(i8::spec_decode_with_format(input, fmt), |v: i8| VariantView::Byte(v))
    } else if fmt == FORMATCODE_SHORT {
        map_decoded(i16::spec_decode_with_format(input, fmt), |v: i16| VariantView::Short(v))
    } else if fmt == FORMATCODE_INT || fmt == FORMATCODE_SMALLINT {
        map_decoded(i32::spec_decode_with_format(input, fmt), |v: i32| VariantView::Int(v))
    } else if fmt == FORMATCODE_LONG || fmt == FORMATCODE_SMALLLONG {
        map_decoded(i64::spec_decode_with_format(input, fmt), |v: i64| VariantView::Long(v))
    } else if fmt == FORMATCODE_FLOAT {
        map_decoded(
            FloatBits::spec_decode_with_format(input, fmt),
            |v: FloatBits| VariantView::Float(v),
        )
    } else if fmt == FORMATCODE_DOUBLE {
        map_decoded(
            DoubleBits::spec_decode_with_format(input, fmt),
            |v: DoubleBits| VariantView::Double(v),
        )
    } else if fmt == FORMATCODE_CHAR {
        map_decoded(char::spec_decode_with_format(input, fmt), |v: char| VariantView::Char(v))
    } else if fmt == FORMATCODE_TIMESTAMP {
        map_decoded(
            Timestamp::spec_decode_with_format(input, fmt),
            |v: Timestamp| VariantView::Timestamp(v),
        )
    } else if fmt == FORMATCODE_UUID {
        map_decoded(Uuid::spec_decode_with_format(input, fmt), |v: Seq<u8>| VariantView::Uuid(v))
    } else if fmt == FORMATCODE_BINARY8 || fmt == FORMATCODE_BINARY32 {
        map_decoded(
            Binary::spec_decode_with_format(input, fmt),
            |v: Seq<u8>| VariantView::Binary(v),
        )
    } else if fmt == FORMATCODE_STRING8 || fmt == FORMATCODE_STRING32 {
        map_decoded(
            ByteStr::spec_decode_with_format(input, fmt),
            |v: Seq<char>| VariantView::String(v),
        )
    } else if fmt == FORMATCODE_SYMBOL8 || fmt == FORMATCODE_SYMBOL32 {
        map_decoded(
            Symbol::spec_decode_with_format(input, fmt),
            |v: Seq<char>| VariantView::Symbol(v),
        )
    } else if fmt == FORMATCODE_MAP8 || fmt == FORMATCODE_MAP32 {
        match spec_decode_map(input, fmt) {
            Ok((rest, entries)) => Ok((rest, VariantView::Mapping(entries))),
            Err(e) => Err(e),
        }
    } else {
        Err(Error::InvalidFormatCode(fmt))
    }
}

/// The entries of the map that `input` holds under the format code `fmt`.
/// Behind the header come as many values as it counts, keys and values in
/// turn. The map ends where its size says, whatever the values took of it.
pub open spec fn spec_decode_map(input: Seq<u8>, fmt: u8) -> Decoded<
    Seq<(VariantView, VariantView)>,
>
    decreases input.len(), 0nat,
{
    match spec_decode_map_header(input, fmt) {
        Ok((rest, header)) => match spec_take(rest, header.size as nat) {
            Ok((remainder, content)) => match spec_decode_values(content, header.count as nat) {
                Ok((_, values)) => Ok((remainder, spec_pairs(values))),
                Err(e) => Err(e),
            },
            Err(e) => Err(e),
        },
        Err(e) => Err(e),
    }
}

/// `count` values in a row, each behind its own format code: the first
/// `count - 1` of them, and then one more. (What is left of the input
/// never grows; the test for it is there to show that the definition
/// ends.)
pub open spec fn spec_decode_values(input: Seq<u8>, count: nat) -> Decoded<Seq<VariantView>>
    decreases input.len(), count + 2,
{
    if count == 0 {
        Ok((input, Seq::empty()))
    } else {
        match spec_decode_values(input, (count - 1) as nat) {
            Ok((rest, values)) => if rest.len() <= input.len() {
                match spec_decode_format_code(rest) {
                    Ok((payload, fmt)) => match spec_decode_variant(payload, fmt) {
                        Ok((rest, value)) => Ok((rest, values.push(value))),
                        Err(e) => Err(e),
                    },
                    Err(e) => Err(e),
                }
            } else {
                Err(Error::Incomplete(None))
            },
            Err(e) => Err(e),
        }
    }
}

/// Decoding a map takes bytes from the front of the input and nowhere
/// else.
pub proof fn lemma_map_leaves_suffix(input: Seq<u8>, fmt: u8)
    ensures
        spec_decode_map(input, fmt) matches Ok((rest, _)) ==> is_suffix(rest, input),
{
    if let Ok((rest, header)) = spec_decode_map_header(input, fmt) {
        assert(is_suffix(rest, input));
        if let Ok((remainder, _)) = spec_take(rest, header.size as nat) {
            assert(is_suffix(remainder, rest));
        }
    }
}

/// Decoding takes bytes from the front of the input and nowhere else.
#[verifier::rlimit(40)]
pub proof fn lemma_variant_leaves_suffix(input: Seq<u8>, fmt: u8)
    ensures
        spec_decode_variant(input, fmt) matches Ok((rest, _)) ==> is_suffix(rest, input),
        spec_decode_map(input, fmt) matches Ok((rest, _)) ==> is_suffix(rest, input),
{
    lemma_map_leaves_suffix(input, fmt);
}

/// The values of a row leave a suffix of the input.
#[verifier::rlimit(50)]
pub proof fn lemma_values_leave_suffix(input: Seq<u8>, count: nat)
    ensures
        spec_decode_values(input, count) matches Ok((rest, values)) ==> is_suffix(rest, input)
            && values.len() == count,
    decreases count,
{
    if count > 0 {
        lemma_values_leave_suffix(input, (count - 1) as nat);
        match spec_decode_values(input, (count - 1) as nat) {
            Ok((rest, _)) => {
                match spec_decode_format_code(rest) {
                    Ok((payload, fmt)) => {
                        lemma_variant_leaves_suffix(payload, fmt);
                    },
                    Err(_) => {},
                }
            },
            Err(_) => {},
        }
    }
}

/// Where the first values of a row cannot be decoded, no longer row can.
pub proof fn lemma_values_error_stays(input: Seq<u8>, short: nat, long: nat)
    requires
        short <= long,
        spec_decode_values(input, short) is Err,
    ensures
        spec_decode_values(input, long) == spec_decode_values(input, short),
    decreases long,
{
    if short < long {
        lemma_values_error_stays(input, short, (long - 1) as nat);
    }
}


/// Decodes the value that `input` holds under the format code `fmt`.
pub fn decode_variant<'a>(input: &'a [u8], fmt: u8) -> (r: Result<(&'a [u8], Variant), Error>)
    ensures
        decoded_as(r, spec_decode_variant(input@, fmt)),
    decreases input@.len(), 2nat,
{
    match fmt {
        FORMATCODE_NULL => Ok((input, Variant::Null)),
        FORMATCODE_BOOLEAN | FORMATCODE_BOOLEAN_TRUE | FORMATCODE_BOOLEAN_FALSE => {
            let (rest, v) = bool::decode_with_format(input, fmt)?;
            Ok((rest, Variant::Boolean(v)))
        },
        FORMATCODE_UBYTE => {
            let (rest, v) = u8::decode_with_format(input, fmt)?;
            Ok((rest, Variant::Ubyte(v)))
        },
        FORMATCODE_USHORT => {
            let (rest, v) = u16::decode_with_format(input, fmt)?;
            Ok((rest, Variant::Ushort(v)))
        },
        FORMATCODE_UINT | FORMATCODE_SMALLUINT | FORMATCODE_UINT_0 => {
            let (rest, v) = u32::decode_with_format(input, fmt)?;
            Ok((rest, Variant::Uint(v)))
        },
        FORMATCODE_ULONG | FORMATCODE_SMALLULONG | FORMATCODE_ULONG_0 => {
            let (rest, v) = u64::decode_with_format(input, fmt)?;
            Ok((rest, Variant::Ulong(v)))
        },
        FORMATCODE_BYTE => {
            let (rest, v) = i8::decode_with_format(input, fmt)?;
            Ok((rest, Variant::Byte(v)))
        },
        FORMATCODE_SHORT => {
            let (rest, v) = i16::decode_with_format(input, fmt)?;
            Ok((rest, Variant::Short(v)))
        },
        FORMATCODE_INT | FORMATCODE_SMALLINT => {
            let (rest, v) = i32::decode_with_format(input, fmt)?;
            Ok((rest, Variant::Int(v)))
        },
        FORMATCODE_LONG | FORMATCODE_SMALLLONG => {
            let (rest, v) = i64::decode_with_format(input, fmt)?;
            Ok((rest, Variant::Long(v)))
        },
        FORMATCODE_FLOAT => {
            let (rest, v) = FloatBits::decode_with_format(input, fmt)?;
            Ok((rest, Variant::Float(v)))
        },
        FORMATCODE_DOUBLE => {
            let (rest, v) = DoubleBits::decode_with_format(input, fmt)?;
            Ok((rest, Variant::Double(v)))
        },
        FORMATCODE_CHAR => {
            let (rest, v) = char::decode_with_format(input, fmt)?;
            Ok((rest, Variant::Char(v)))
        },
        FORMATCODE_TIMESTAMP => {
            let (rest, v) = Timestamp::decode_with_format(input, fmt)?;
            Ok((rest, Variant::Timestamp(v)))
        },
        FORMATCODE_UUID => {
            let (rest, v) = Uuid::decode_with_format(input, fmt)?;
            Ok((rest, Variant::Uuid(v)))
        },
        FORMATCODE_BINARY8 | FORMATCODE_BINARY32 => {
            let (rest, v) = Binary::decode_with_format(input, fmt)?;
            Ok((rest, Variant::Binary(v)))
        },
        FORMATCODE_STRING8 | FORMATCODE_STRING32 => {
            let (rest, v) = ByteStr::decode_with_format(input, fmt)?;
            Ok((rest, Variant::String(v)))
        },
        FORMATCODE_SYMBOL8 | FORMATCODE_SYMBOL32 => {
            let (rest, v) = Symbol::decode_with_format(input, fmt)?;
            Ok((rest, Variant::Symbol(v)))
        },
        FORMATCODE_MAP8 | FORMATCODE_MAP32 => {
            let (rest, v) = decode_map(input, fmt)?;
            Ok((rest, Variant::Mapping(v)))
        },
        _ => Err(Error::InvalidFormatCode(fmt)),
    }
}

/// The values of a row one by one: a row of one value more is the row,
/// then a format code, then the value that stands under it.
pub proof fn lemma_values_step(input: Seq<u8>, count: nat)
    ensures
        spec_decode_values(input, count + 1) == match spec_decode_values(input, count) {
            Ok((rest, values)) => match spec_decode_format_code(rest) {
                Ok((payload, fmt)) => match spec_decode_variant(payload, fmt) {
                    Ok((next, value)) => Ok::<(Seq<u8>, Seq<VariantView>), Error>(
                        (next, values.push(value)),
                    ),
                    Err(e) => Err(e),
                },
                Err(e) => Err(e),
            },
            Err(e) => Err(e),
        },
{
    lemma_values_leave_suffix(input, count);
}

/// An executable result stands for the entries that a row of values of
/// the model makes.
pub open spec fn entries_as(
    r: Result<(&[u8], Vec<(Variant, Variant)>), Error>,
    d: Decoded<Seq<VariantView>>,
) -> bool {
    match (r, d) {
        (Ok((rest, entries)), Ok((drest, values))) => rest@ == drest && entries_view(entries)
            == spec_pairs(values),
        (Err(e), Err(de)) => e == de,
        _ => false,
    }
}

/// Decodes `pairs` entries of a map: keys and values in turn, each behind
/// its own format code.
pub fn decode_entries<'a>(input: &'a [u8], pairs: u32) -> (r: Result<
    (&'a [u8], Vec<(Variant, Variant)>),
    Error,
>)
    ensures
        entries_as(r, spec_decode_values(input@, 2 * (pairs as nat))),
    decreases input@.len(), 0nat,
{
    let mut entries: Vec<(Variant, Variant)> = Vec::new();
    let mut cur: &[u8] = input;
    let mut i: u32 = 0;
    let ghost mut values: Seq<VariantView> = Seq::empty();
    assert(entries_view(entries) =~= spec_pairs(values));
    while i < pairs
        invariant
            i <= pairs,
            cur@.len() <= input@.len(),
            spec_decode_values(input@, (2 * i) as nat) == Ok::<(Seq<u8>, Seq<VariantView>), Error>(
                (cur@, values),
            ),
            values.len() == 2 * i,
            entries_view(entries) == spec_pairs(values),
        decreases pairs - i,
    {
        let ghost before = entries_view(entries);
        let ghost total = (2 * pairs) as nat;
        proof {
            lemma_values_step(input@, (2 * i) as nat);
            lemma_values_step(input@, (2 * i + 1) as nat);
        }
        let (key_input, key_fmt) = match decode_format_code(cur) {
            Ok(x) => x,
            Err(e) => {
                proof {
                    lemma_values_error_stays(input@, (2 * i + 1) as nat, total);
                }
                return Err(e);
            },
        };
        let (value_at, key) = match decode_variant(key_input, key_fmt) {
            Ok(x) => x,
            Err(e) => {
                proof {
                    lemma_values_error_stays(input@, (2 * i + 1) as nat, total);
                }
                return Err(e);
            },
        };
        proof {
            lemma_variant_leaves_suffix(key_input@, key_fmt);
        }
        let (value_input, value_fmt) = match decode_format_code(value_at) {
            Ok(x) => x,
            Err(e) => {
                proof {
                    lemma_values_error_stays(input@, (2 * i + 2) as nat, total);
                }
                return Err(e);
            },
        };
        let (next, value) = match decode_variant(value_input, value_fmt) {
            Ok(x) => x,
            Err(e) => {
                proof {
                    lemma_values_error_stays(input@, (2 * i + 2) as nat, total);
                }
                return Err(e);
            },
        };
        proof {
            lemma_variant_leaves_suffix(value_input@, value_fmt);
            let grown = values.push(key.deep_view()).push(value.deep_view());
            assert(spec_pairs(grown) =~= spec_pairs(values).push(
                (key.deep_view(), value.deep_view()),
            ));
            values = grown;
        }
        entries.push((key, value));
        assert(entries_view(entries) =~= before.push((key.deep_view(), value.deep_view())));
        cur = next;
        i = i + 1;
    }
    Ok((cur, entries))
}

/// Decodes the map that `input` holds under the format code `fmt`.
pub fn decode_map<'a>(input: &'a [u8], fmt: u8) -> (r: Result<(&'a [u8], VariantMap), Error>)
    ensures
        decoded_as(r, spec_decode_map(input@, fmt)),
    decreases input@.len(), 1nat,
{
    let (rest, header) = decode_map_header(input, fmt)?;
    let (remainder, content) = take(rest, header.size as usize)?;
    let (_, entries) = decode_entries(content, header.count / 2)?;
    Ok((remainder, VariantMap { entries }))
}

impl DecodeFormatted for Variant {
    open spec fn spec_decode_with_format(input: Seq<u8>, fmt: u8) -> Decoded<VariantView> {
        spec_decode_variant(input, fmt)
    }

    proof fn decoding_leaves_suffix(input: Seq<u8>, fmt: u8) {
        lemma_variant_leaves_suffix(input, fmt);
    }

    fn decode_with_format<'a>(input: &'a [u8], fmt: u8) -> (r: Result<(&'a [u8], Self), Error>) {
        decode_variant(input, fmt)
    }
}

impl DecodeFormatted for VariantMap {
    open spec fn spec_decode_with_format(input: Seq<u8>, fmt: u8) -> Decoded<
        Seq<(VariantView, VariantView)>,
    > {
        spec_decode_map(input, fmt)
    }

    proof fn decoding_leaves_suffix(input: Seq<u8>, fmt: u8) {
        lemma_variant_leaves_suffix(input, fmt);
    }

    fn decode_with_format<'a>(input: &'a [u8], fmt: u8) -> (r: Result<(&'a [u8], Self), Error>) {
        decode_map(input, fmt)
    }
}


/// The bytes that stand for a value: those of the primitive type whose
/// case it is, or those of the map.
pub open spec fn spec_encode_variant(v: VariantView) -> Seq<u8>
    decreases v, 0nat,
{
    match v {
        VariantView::Null => Null::spec_encode(Null),
        VariantView::Boolean(x) => bool::spec_encode(x),
        VariantView::Ubyte(x) => u8::spec_encode(x),
        VariantView::Ushort(x) => u16::spec_encode(x),
        VariantView::Uint(x) => u32::spec_encode(x),
        VariantView::Ulong(x) => u64::spec_encode(x),
        VariantView::Byte(x) => i8::spec_encode(x),
        VariantView::Short(x) => i16::spec_encode(x),
        VariantView::Int(x) => i32::spec_encode(x),
        VariantView::Long(x) => i64::spec_encode(x),
        VariantView::Float(x) => FloatBits::spec_encode(x),
        VariantView::Double(x) => DoubleBits::spec_encode(x),
        VariantView::Char(x) => char::spec_encode(x),
        VariantView::Timestamp(x) => Timestamp::spec_encode(x),
        VariantView::Uuid(x) => Uuid::spec_encode(x),
        VariantView::Binary(x) => Binary::spec_encode(x),
        VariantView::String(x) => ByteStr::spec_encode(x),
        VariantView::Symbol(x) => Symbol::spec_encode(x),
        VariantView::Mapping(entries) => spec_encode_map(entries),
    }
}

/// The bytes that stand for the entries of a map: each key followed by its
/// value, in the order of the entries.
pub open spec fn spec_encode_entries(entries: Seq<(VariantView, VariantView)>) -> Seq<u8>
    decreases entries, 0nat,
{
    if entries.len() == 0 {
        Seq::empty()
    } else {
        spec_encode_entries(entries.drop_last()) + spec_encode_variant(entries.last().0)
            + spec_encode_variant(entries.last().1)
    }
}

/// The bytes that stand for a map: the header, which counts keys and
/// values, and the entries.
pub open spec fn spec_encode_map(entries: Seq<(VariantView, VariantView)>) -> Seq<u8>
    decreases entries, 1nat,
{
    spec_compound_header(
        spec_encode_entries(entries).len(),
        2 * entries.len(),
        FORMATCODE_MAP8,
        FORMATCODE_MAP32,
    ) + spec_encode_entries(entries)
}

/// The values that have an encoding.
pub open spec fn variant_encodable(v: VariantView) -> bool
    decreases v, 0nat,
{
    match v {
        VariantView::Timestamp(x) => Timestamp::encodable(x),
        VariantView::Uuid(x) => Uuid::encodable(x),
        VariantView::Binary(x) => Binary::encodable(x),
        VariantView::String(x) => ByteStr::encodable(x),
        VariantView::Symbol(x) => Symbol::encodable(x),
        VariantView::Mapping(entries) => map_encodable(entries),
        _ => true,
    }
}

/// Every key and every value has an encoding.
pub open spec fn entries_encodable(entries: Seq<(VariantView, VariantView)>) -> bool
    decreases entries, 0nat,
{
    entries.len() > 0 ==> entries_encodable(entries.drop_last()) && variant_encodable(
        entries.last().0,
    ) && variant_encodable(entries.last().1)
}

/// The maps that have an encoding: their entries have one, and it fits
/// the header.
pub open spec fn map_encodable(entries: Seq<(VariantView, VariantView)>) -> bool
    decreases entries, 1nat,
{
    entries_encodable(entries) && compound_fits(
        spec_encode_entries(entries).len(),
        2 * entries.len(),
    )
}

/// The values that decoding gives back as they went in: all that can be
/// encoded but the instants that are finer than a millisecond.
pub open spec fn variant_round_trips(v: VariantView) -> bool
    decreases v, 0nat,
{
    match v {
        VariantView::Timestamp(x) => Timestamp::round_trips(x),
        VariantView::Mapping(entries) => map_round_trips(entries),
        _ => variant_encodable(v),
    }
}

/// Every key and every value comes back as it went in.
pub open spec fn entries_round_trip(entries: Seq<(VariantView, VariantView)>) -> bool
    decreases entries, 0nat,
{
    entries.len() > 0 ==> entries_round_trip(entries.drop_last()) && variant_round_trips(
        entries.last().0,
    ) && variant_round_trips(entries.last().1)
}

/// The maps that decoding gives back as they went in.
pub open spec fn map_round_trips(entries: Seq<(VariantView, VariantView)>) -> bool
    decreases entries, 1nat,
{
    entries_round_trip(entries) && compound_fits(
        spec_encode_entries(entries).len(),
        2 * entries.len(),
    )
}

/// The keys and values of the entries in a row.
pub open spec fn spec_flatten(entries: Seq<(VariantView, VariantView)>) -> Seq<VariantView> {
    Seq::new(
        2 * entries.len(),
        |i: int|
            if i % 2 == 0 {
                entries[i / 2].0
            } else {
                entries[i / 2].1
            },
    )
}

/// What comes back as it went in can be encoded.
pub proof fn lemma_round_trips_encodable(v: VariantView)
    requires
        variant_round_trips(v),
    ensures
        variant_encodable(v),
    decreases v,
{
    match v {
        VariantView::Mapping(entries) => lemma_entries_round_trip_encodable(entries),
        _ => {},
    }
}

pub proof fn lemma_entries_round_trip_encodable(entries: Seq<(VariantView, VariantView)>)
    requires
        entries_round_trip(entries),
    ensures
        entries_encodable(entries),
    decreases entries,
{
    if entries.len() > 0 {
        lemma_entries_round_trip_encodable(entries.drop_last());
        lemma_round_trips_encodable(entries.last().0);
        lemma_round_trips_encodable(entries.last().1);
    }
}

/// A value comes back from its encoding, and what follows the encoding is
/// left as it was.
pub proof fn lemma_variant_round_trip(v: VariantView, tail: Seq<u8>)
    requires
        variant_round_trips(v),
    ensures
        spec_encode_variant(v).len() >= 1,
        match spec_decode_format_code(spec_encode_variant(v) + tail) {
            Ok((rest, fmt)) => spec_decode_variant(rest, fmt) == Ok::<(Seq<u8>, VariantView), Error>(
                (tail, v),
            ),
            Err(_) => false,
        },
    decreases v, 1nat,
{
    match v {
        VariantView::Null => Null::law_round_trip(Null, tail),
        VariantView::Boolean(x) => bool::law_round_trip(x, tail),
        VariantView::Ubyte(x) => u8::law_round_trip(x, tail),
        VariantView::Ushort(x) => u16::law_round_trip(x, tail),
        VariantView::Uint(x) => u32::law_round_trip(x, tail),
        VariantView::Ulong(x) => u64::law_round_trip(x, tail),
        VariantView::Byte(x) => i8::law_round_trip(x, tail),
        VariantView::Short(x) => i16::law_round_trip(x, tail),
        VariantView::Int(x) => i32::law_round_trip(x, tail),
        VariantView::Long(x) => i64::law_round_trip(x, tail),
        VariantView::Float(x) => FloatBits::law_round_trip(x, tail),
        VariantView::Double(x) => DoubleBits::law_round_trip(x, tail),
        VariantView::Char(x) => char::law_round_trip(x, tail),
        VariantView::Timestamp(x) => Timestamp::law_round_trip(x, tail),
        VariantView::Uuid(x) => Uuid::law_round_trip(x, tail),
        VariantView::Binary(x) => {
            Binary::law_round_trip(x, tail);
            crate::codec::laws::lemma_variable_round_trip(
                x,
                FORMATCODE_BINARY8,
                FORMATCODE_BINARY32,
                tail,
            );
        },
        VariantView::String(x) => {
            ByteStr::law_round_trip(x, tail);
            crate::codec::laws::lemma_variable_round_trip(
                vstd::utf8::encode_utf8(x),
                FORMATCODE_STRING8,
                FORMATCODE_STRING32,
                tail,
            );
        },
        VariantView::Symbol(x) => {
            Symbol::law_round_trip(x, tail);
            crate::codec::laws::lemma_variable_round_trip(
                vstd::utf8::encode_utf8(x),
                FORMATCODE_SYMBOL8,
                FORMATCODE_SYMBOL32,
                tail,
            );
        },
        VariantView::Mapping(entries) => lemma_map_round_trip(entries, tail),
    }
}

/// A map comes back from its encoding.
pub proof fn lemma_map_round_trip(entries: Seq<(VariantView, VariantView)>, tail: Seq<u8>)
    requires
        map_round_trips(entries),
    ensures
        spec_encode_map(entries).len() >= 1,
        spec_encode_map(entries)[0] == FORMATCODE_MAP8 || spec_encode_map(entries)[0]
            == FORMATCODE_MAP32,
        match spec_decode_format_code(spec_encode_map(entries) + tail) {
            Ok((rest, fmt)) => spec_decode_map(rest, fmt) == Ok::<
                (Seq<u8>, Seq<(VariantView, VariantView)>),
                Error,
            >((tail, entries)),
            Err(_) => false,
        },
    decreases entries, 1nat,
{
    let content = spec_encode_entries(entries);
    let count = 2 * entries.len();
    let header = spec_compound_header(content.len(), count, FORMATCODE_MAP8, FORMATCODE_MAP32);
    assert(spec_encode_map(entries) + tail =~= header + (content + tail));
    lemma_compound_header_round_trip(
        content.len(),
        count,
        FORMATCODE_MAP8,
        FORMATCODE_MAP32,
        content + tail,
    );
    lemma_take_front(content, tail);
    lemma_entries_round_trip(entries, Seq::empty());
    assert(content + Seq::<u8>::empty() =~= content);
    assert(spec_pairs(spec_flatten(entries)) =~= entries);
}

/// The entries of a map come back from their encoding as a row of keys
/// and values.
#[verifier::rlimit(50)]
pub proof fn lemma_entries_round_trip(entries: Seq<(VariantView, VariantView)>, tail: Seq<u8>)
    requires
        entries_round_trip(entries),
    ensures
        spec_decode_values(spec_encode_entries(entries) + tail, 2 * entries.len()) == Ok::<
            (Seq<u8>, Seq<VariantView>),
            Error,
        >((tail, spec_flatten(entries))),
    decreases entries, 0nat,
{
    let input = spec_encode_entries(entries) + tail;
    if entries.len() == 0 {
        assert(input =~= tail);
        assert(spec_flatten(entries) =~= Seq::<VariantView>::empty());
    } else {
        let front = entries.drop_last();
        let key = entries.last().0;
        let value = entries.last().1;
        let after_key = spec_encode_variant(value) + tail;
        let after_front = spec_encode_variant(key) + after_key;
        assert(input =~= spec_encode_entries(front) + after_front);
        lemma_entries_round_trip(front, after_front);
        lemma_variant_round_trip(key, after_key);
        lemma_variant_round_trip(value, tail);
        let n = (2 * front.len()) as nat;
        assert(spec_decode_values(input, n) == Ok::<(Seq<u8>, Seq<VariantView>), Error>(
            (after_front, spec_flatten(front)),
        ));
        assert(after_front.len() <= input.len());
        assert(spec_decode_values(input, n + 1) == Ok::<(Seq<u8>, Seq<VariantView>), Error>(
            (after_key, spec_flatten(front).push(key)),
        ));
        assert(after_key.len() <= input.len());
        assert(spec_decode_values(input, n + 2) == Ok::<(Seq<u8>, Seq<VariantView>), Error>(
            (tail, spec_flatten(front).push(key).push(value)),
        ));
        assert(spec_flatten(front).push(key).push(value) =~= spec_flatten(entries));
    }
}


/// The encoding of the first `i + 1` entries is that of the first `i` and
/// of one entry more, and no longer than that of all.
pub proof fn lemma_entries_prefix(entries: Seq<(VariantView, VariantView)>, i: int)
    requires
        0 <= i < entries.len(),
    ensures
        spec_encode_entries(entries.take(i + 1)) == spec_encode_entries(entries.take(i))
            + spec_encode_variant(entries[i].0) + spec_encode_variant(entries[i].1),
        spec_encode_entries(entries.take(i + 1)).len() <= spec_encode_entries(entries).len(),
    decreases entries.len(),
{
    let front = entries.drop_last();
    if i == entries.len() - 1 {
        assert(entries.take(i + 1) =~= entries);
        assert(entries.take(i) =~= front);
    } else {
        lemma_entries_prefix(front, i);
        assert(front.take(i) =~= entries.take(i));
        assert(front.take(i + 1) =~= entries.take(i + 1));
    }
}

/// The entries of a map can be encoded where every key and every value
/// can.
pub proof fn lemma_entries_encodable(entries: Seq<(VariantView, VariantView)>)
    ensures
        entries_encodable(entries) <==> forall|i: int|
            0 <= i < entries.len() ==> variant_encodable((#[trigger] entries[i]).0)
                && variant_encodable(entries[i].1),
    decreases entries.len(),
{
    if entries.len() > 0 {
        let front = entries.drop_last();
        lemma_entries_encodable(front);
        if entries_encodable(entries) {
            assert forall|i: int| 0 <= i < entries.len() implies variant_encodable(
                (#[trigger] entries[i]).0,
            ) && variant_encodable(entries[i].1) by {
                if i < entries.len() - 1 {
                    assert(front[i] == entries[i]);
                }
            }
        }
        if forall|i: int|
            0 <= i < entries.len() ==> variant_encodable((#[trigger] entries[i]).0)
                && variant_encodable(entries[i].1) {
            assert forall|i: int| 0 <= i < front.len() implies variant_encodable(
                (#[trigger] front[i]).0,
            ) && variant_encodable(front[i].1) by {
                assert(front[i] == entries[i]);
            }
            assert(entries.last() == entries[entries.len() - 1]);
        }
    }
}

/// The number of bytes that the entries of a map take.
pub fn entries_encoded_size(entries: &Vec<(Variant, Variant)>) -> (n: usize)
    requires
        entries_encodable(entries_view(*entries)),
        spec_encode_entries(entries_view(*entries)).len() <= usize::MAX,
    ensures
        n == spec_encode_entries(entries_view(*entries)).len(),
    decreases entries, 0nat,
{
    let ghost all = entries_view(*entries);
    let mut n: usize = 0;
    let mut i: usize = 0;
    assert(all.take(0) =~= Seq::empty());
    while i < entries.len()
        invariant
            i <= entries.len(),
            all == entries_view(*entries),
            all.len() == entries.len(),
            entries_encodable(all),
            spec_encode_entries(all).len() <= usize::MAX,
            n == spec_encode_entries(all.take(i as int)).len(),
        decreases entries.len() - i,
    {
        proof {
            lemma_entries_prefix(all, i as int);
            lemma_entries_encodable(all);
            assert(variant_encodable(all[i as int].0) && variant_encodable(all[i as int].1));
        }
        let key_size = variant_encoded_size(&entries[i].0);
        let value_size = variant_encoded_size(&entries[i].1);
        n = n + key_size + value_size;
        i = i + 1;
    }
    assert(all.take(i as int) =~= all);
    n
}

/// The number of bytes that the entries of a map take, where every key
/// and value has an encoding and they take at most `limit` bytes.
pub fn entries_size_within(entries: &Vec<(Variant, Variant)>, limit: usize) -> (size: Option<
    usize,
>)
    ensures
        size matches Some(n) ==> entries_encodable(entries_view(*entries)) && n
            == spec_encode_entries(entries_view(*entries)).len() && n <= limit,
        size is None ==> !(entries_encodable(entries_view(*entries)) && spec_encode_entries(
            entries_view(*entries),
        ).len() <= limit),
    decreases entries, 0nat,
{
    let ghost all = entries_view(*entries);
    let mut n: usize = 0;
    let mut i: usize = 0;
    assert(all.take(0) =~= Seq::empty());
    proof {
        lemma_entries_encodable(all);
    }
    while i < entries.len()
        invariant
            i <= entries.len(),
            all == entries_view(*entries),
            all.len() == entries.len(),
            n <= limit,
            n == spec_encode_entries(all.take(i as int)).len(),
            forall|j: int|
                0 <= j < i ==> variant_encodable((#[trigger] all[j]).0) && variant_encodable(
                    all[j].1,
                ),
            entries_encodable(all) <==> forall|j: int|
                0 <= j < all.len() ==> variant_encodable((#[trigger] all[j]).0)
                    && variant_encodable(all[j].1),
        decreases entries.len() - i,
    {
        proof {
            lemma_entries_prefix(all, i as int);
        }
        let key_size = match variant_size_within(&entries[i].0, limit - n) {
            Some(size) => size,
            None => {
                return None;
            },
        };
        let value_size = match variant_size_within(&entries[i].1, limit - n - key_size) {
            Some(size) => size,
            None => {
                return None;
            },
        };
        n = n + key_size + value_size;
        i = i + 1;
    }
    assert(all.take(i as int) =~= all);
    Some(n)
}

/// The number of bytes that `encode_variant` appends, where the value has
/// an encoding and it takes at most `limit` bytes.
pub fn variant_size_within(v: &Variant, limit: usize) -> (size: Option<usize>)
    ensures
        size matches Some(n) ==> variant_encodable(v.deep_view()) && n == spec_encode_variant(
            v.deep_view(),
        ).len() && n <= limit,
        size is None ==> !(variant_encodable(v.deep_view()) && spec_encode_variant(
            v.deep_view(),
        ).len() <= limit),
    decreases v, 2nat,
{
    match v {
        Variant::Null => Null.size_within(limit),
        Variant::Boolean(x) => x.size_within(limit),
        Variant::Ubyte(x) => x.size_within(limit),
        Variant::Ushort(x) => x.size_within(limit),
        Variant::Uint(x) => x.size_within(limit),
        Variant::Ulong(x) => x.size_within(limit),
        Variant::Byte(x) => x.size_within(limit),
        Variant::Short(x) => x.size_within(limit),
        Variant::Int(x) => x.size_within(limit),
        Variant::Long(x) => x.size_within(limit),
        Variant::Float(x) => x.size_within(limit),
        Variant::Double(x) => x.size_within(limit),
        Variant::Char(x) => x.size_within(limit),
        Variant::Timestamp(x) => x.size_within(limit),
        Variant::Uuid(x) => x.size_within(limit),
        Variant::Binary(x) => x.size_within(limit),
        Variant::String(x) => x.size_within(limit),
        Variant::Symbol(x) => x.size_within(limit),
        Variant::Mapping(m) => map_size_within(m, limit),
    }
}

/// The number of bytes that `encode_map` appends, where the map has an
/// encoding and it takes at most `limit` bytes.
pub fn map_size_within(m: &VariantMap, limit: usize) -> (size: Option<usize>)
    ensures
        size matches Some(n) ==> map_encodable(m.deep_view()) && n == spec_encode_map(
            m.deep_view(),
        ).len() && n <= limit,
        size is None ==> !(map_encodable(m.deep_view()) && spec_encode_map(
            m.deep_view(),
        ).len() <= limit),
    decreases m, 1nat,
{
    let pairs: usize = m.entries.len();
    if pairs > 0x7fff_ffff {
        return None;
    }
    let most: usize = if limit < 0xffff_fffb {
        limit
    } else {
        0xffff_fffb
    };
    match entries_size_within(&m.entries, most) {
        Some(content_len) => {
            let header: usize = compound_header_size(content_len, (pairs * 2) as u32);
            if limit - content_len < header {
                None
            } else {
                Some(content_len + header)
            }
        },
        None => None,
    }
}

/// The number of bytes that `encode_variant` appends.
pub fn variant_encoded_size(v: &Variant) -> (n: usize)
    requires
        variant_encodable(v.deep_view()),
        spec_encode_variant(v.deep_view()).len() <= usize::MAX,
    ensures
        n == spec_encode_variant(v.deep_view()).len(),
    decreases v, 2nat,
{
    match v {
        Variant::Null => 1,
        Variant::Boolean(x) => x.encoded_size(),
        Variant::Ubyte(x) => x.encoded_size(),
        Variant::Ushort(x) => x.encoded_size(),
        Variant::Uint(x) => x.encoded_size(),
        Variant::Ulong(x) => x.encoded_size(),
        Variant::Byte(x) => x.encoded_size(),
        Variant::Short(x) => x.encoded_size(),
        Variant::Int(x) => x.encoded_size(),
        Variant::Long(x) => x.encoded_size(),
        Variant::Float(x) => x.encoded_size(),
        Variant::Double(x) => x.encoded_size(),
        Variant::Char(x) => x.encoded_size(),
        Variant::Timestamp(x) => x.encoded_size(),
        Variant::Uuid(x) => x.encoded_size(),
        Variant::Binary(x) => x.encoded_size(),
        Variant::String(x) => x.encoded_size(),
        Variant::Symbol(x) => x.encoded_size(),
        Variant::Mapping(m) => map_encoded_size(m),
    }
}

/// The number of bytes that `encode_map` appends.
pub fn map_encoded_size(m: &VariantMap) -> (n: usize)
    requires
        map_encodable(m.deep_view()),
        spec_encode_map(m.deep_view()).len() <= usize::MAX,
    ensures
        n == spec_encode_map(m.deep_view()).len(),
    decreases m, 1nat,
{
    let content_len = entries_encoded_size(&m.entries);
    let count: u32 = (m.entries.len() * 2) as u32;
    compound_header_size(content_len, count) + content_len
}

/// Appends the encoding of a value.
pub fn encode_variant(v: &Variant, buf: &mut BytesMut)
    requires
        variant_encodable(v.deep_view()),
        buf_bytes(*old(buf)).len() + spec_encode_variant(v.deep_view()).len() <= BUF_MAX,
    ensures
        buf_bytes(*final(buf)) == buf_bytes(*old(buf)) + spec_encode_variant(v.deep_view()),
    decreases v, 2nat,
{
    match v {
        Variant::Null => Null.encode(buf),
        Variant::Boolean(x) => x.encode(buf),
        Variant::Ubyte(x) => x.encode(buf),
        Variant::Ushort(x) => x.encode(buf),
        Variant::Uint(x) => x.encode(buf),
        Variant::Ulong(x) => x.encode(buf),
        Variant::Byte(x) => x.encode(buf),
        Variant::Short(x) => x.encode(buf),
        Variant::Int(x) => x.encode(buf),
        Variant::Long(x) => x.encode(buf),
        Variant::Float(x) => x.encode(buf),
        Variant::Double(x) => x.encode(buf),
        Variant::Char(x) => x.encode(buf),
        Variant::Timestamp(x) => x.encode(buf),
        Variant::Uuid(x) => x.encode(buf),
        Variant::Binary(x) => x.encode(buf),
        Variant::String(x) => x.encode(buf),
        Variant::Symbol(x) => x.encode(buf),
        Variant::Mapping(m) => encode_map(m, buf),
    }
}

/// Appends the encoding of a map.
pub fn encode_map(m: &VariantMap, buf: &mut BytesMut)
    requires
        map_encodable(m.deep_view()),
        buf_bytes(*old(buf)).len() + spec_encode_map(m.deep_view()).len() <= BUF_MAX,
    ensures
        buf_bytes(*final(buf)) == buf_bytes(*old(buf)) + spec_encode_map(m.deep_view()),
    decreases m, 1nat,
{
    let ghost all = m.deep_view();
    let content_len = entries_encoded_size(&m.entries);
    let count: u32 = (m.entries.len() * 2) as u32;
    put_compound_header(buf, content_len, count, FORMATCODE_MAP8, FORMATCODE_MAP32);
    let ghost start = buf_bytes(*buf);
    let mut i: usize = 0;
    assert(all.take(0) =~= Seq::empty());
    assert(start + Seq::<u8>::empty() =~= start);
    while i < m.entries.len()
        invariant
            i <= m.entries.len(),
            all == entries_view(m.entries),
            all.len() == m.entries.len(),
            entries_encodable(all),
            start.len() + spec_encode_entries(all).len() <= BUF_MAX,
            buf_bytes(*buf) == start + spec_encode_entries(all.take(i as int)),
        decreases m.entries.len() - i,
    {
        proof {
            lemma_entries_prefix(all, i as int);
            lemma_entries_encodable(all);
            assert(variant_encodable(all[i as int].0) && variant_encodable(all[i as int].1));
        }
        encode_variant(&m.entries[i].0, buf);
        encode_variant(&m.entries[i].1, buf);
        assert(buf_bytes(*buf) =~= start + spec_encode_entries(all.take(i + 1)));
        i = i + 1;
    }
    assert(all.take(i as int) =~= all);
    assert(buf_bytes(*buf) =~= buf_bytes(*old(buf)) + spec_encode_map(all));
}

impl Encode for Variant {
    open spec fn encodable(v: VariantView) -> bool {
        variant_encodable(v)
    }

    open spec fn spec_encode(v: VariantView) -> Seq<u8> {
        spec_encode_variant(v)
    }

    fn encoded_size(&self) -> (n: usize) {
        variant_encoded_size(self)
    }

    fn size_within(&self, limit: usize) -> (size: Option<usize>) {
        variant_size_within(self, limit)
    }

    fn encode(&self, buf: &mut BytesMut) {
        encode_variant(self, buf)
    }
}

impl Encode for VariantMap {
    open spec fn encodable(v: Seq<(VariantView, VariantView)>) -> bool {
        map_encodable(v)
    }

    open spec fn spec_encode(v: Seq<(VariantView, VariantView)>) -> Seq<u8> {
        spec_encode_map(v)
    }

    fn encoded_size(&self) -> (n: usize) {
        map_encoded_size(self)
    }

    fn size_within(&self, limit: usize) -> (size: Option<usize>) {
        map_size_within(self, limit)
    }

    fn encode(&self, buf: &mut BytesMut) {
        encode_map(self, buf)
    }
}

impl RoundTrip for Variant {
    open spec fn round_trips(v: VariantView) -> bool {
        variant_round_trips(v)
    }

    proof fn law_round_trip(v: VariantView, tail: Seq<u8>) {
        lemma_round_trips_encodable(v);
        lemma_variant_round_trip(v, tail);
    }
}

impl RoundTrip for VariantMap {
    open spec fn round_trips(v: Seq<(VariantView, VariantView)>) -> bool {
        map_round_trips(v)
    }

    proof fn law_round_trip(v: Seq<(VariantView, VariantView)>, tail: Seq<u8>) {
        lemma_entries_round_trip_encodable(v);
        lemma_map_round_trip(v, tail);
    }
}

} // verus!
