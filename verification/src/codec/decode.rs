//! Decoding of the primitive types, each from every format code that AMQP
//! encodes it with.

use vstd::prelude::*;
use vstd::slice::slice_subrange;
use crate::errors::Error;
use crate::codec::bigendian::{
    be_u16, be_u32, be_u64, i16_of, i32_of, i64_of, i8_of, read_be_u16, read_be_u32, read_be_u64,
    to_i16, to_i32, to_i64, to_i8,
};
use crate::codec::{
    decoded_as, is_suffix, DecodeFormatted, Decoded, FORMATCODE_BOOLEAN, FORMATCODE_BOOLEAN_FALSE,
    FORMATCODE_BOOLEAN_TRUE, FORMATCODE_BYTE, FORMATCODE_INT, FORMATCODE_LONG, FORMATCODE_NULL,
    FORMATCODE_SHORT, FORMATCODE_SMALLINT, FORMATCODE_SMALLLONG, FORMATCODE_SMALLUINT,
    FORMATCODE_SMALLULONG, FORMATCODE_UBYTE, FORMATCODE_UINT, FORMATCODE_UINT_0, FORMATCODE_ULONG,
    FORMATCODE_ULONG_0, FORMATCODE_USHORT,
};
use crate::codec::{
    FORMATCODE_BINARY32, FORMATCODE_BINARY8, FORMATCODE_CHAR, FORMATCODE_DOUBLE, FORMATCODE_FLOAT,
    FORMATCODE_STRING32, FORMATCODE_STRING8, FORMATCODE_SYMBOL32, FORMATCODE_SYMBOL8,
    FORMATCODE_TIMESTAMP, FORMATCODE_UUID,
};
use crate::codec::{
    FORMATCODE_ARRAY32, FORMATCODE_ARRAY8, FORMATCODE_LIST0, FORMATCODE_LIST32, FORMATCODE_LIST8,
    FORMATCODE_MAP32, FORMATCODE_MAP8,
};
use crate::external::char_from_u32;
use crate::protocol::CompoundHeader;
use crate::types::{Descriptor, DescriptorView, Multiple};
use crate::types::{
    Binary, ByteStr, DoubleBits, FloatBits, Null, Symbol, Timestamp, Uuid, NANOS_PER_MILLI,
};
use vstd::utf8::{decode_utf8, is_scalar, valid_utf8};

verus! {

/// The first `n` bytes of `input` and what follows them; `Incomplete(n)`
/// where there are fewer.
pub open spec fn spec_take(input: Seq<u8>, n: nat) -> Result<(Seq<u8>, Seq<u8>), Error> {
    if input.len() < n {
        Err(Error::Incomplete(Some(n as usize)))
    } else {
        Ok((input.subrange(n as int, input.len() as int), input.subrange(0, n as int)))
    }
}

/// An executable result whose value is a slice of the input stands for a
/// result of the model: the same error, or the same bytes twice.
pub open spec fn taken_as(r: Result<(&[u8], &[u8]), Error>, d: Decoded<Seq<u8>>) -> bool {
    match (r, d) {
        (Ok((rest, front)), Ok((drest, dfront))) => rest@ == drest && front@ == dfront,
        (Err(e), Err(de)) => e == de,
        _ => false,
    }
}

/// Splits the first `n` bytes off `input`.
pub fn take<'a>(input: &'a [u8], n: usize) -> (r: Result<(&'a [u8], &'a [u8]), Error>)
    ensures
        taken_as(r, spec_take(input@, n as nat)),
{
    if input.len() < n {
        return Err(Error::Incomplete(Some(n)));
    }
    Ok((slice_subrange(input, n, input.len()), slice_subrange(input, 0, n)))
}

pub open spec fn spec_read_u8(input: Seq<u8>) -> Decoded<u8> {
    match spec_take(input, 1) {
        Ok((rest, b)) => Ok((rest, b[0])),
        Err(e) => Err(e),
    }
}

pub open spec fn spec_read_i8(input: Seq<u8>) -> Decoded<i8> {
    match spec_take(input, 1) {
        Ok((rest, b)) => Ok((rest, i8_of(b[0]))),
        Err(e) => Err(e),
    }
}

pub open spec fn spec_read_u16(input: Seq<u8>) -> Decoded<u16> {
    match spec_take(input, 2) {
        Ok((rest, b)) => Ok((rest, be_u16(b))),
        Err(e) => Err(e),
    }
}

pub open spec fn spec_read_u32(input: Seq<u8>) -> Decoded<u32> {
    match spec_take(input, 4) {
        Ok((rest, b)) => Ok((rest, be_u32(b))),
        Err(e) => Err(e),
    }
}

pub open spec fn spec_read_u64(input: Seq<u8>) -> Decoded<u64> {
    match spec_take(input, 8) {
        Ok((rest, b)) => Ok((rest, be_u64(b))),
        Err(e) => Err(e),
    }
}

/// A model result with the value passed through `f`.
pub open spec fn map_decoded<A, B>(d: Decoded<A>, f: spec_fn(A) -> B) -> Decoded<B> {
    match d {
        Ok((rest, v)) => Ok((rest, f(v))),
        Err(e) => Err(e),
    }
}

pub fn read_u8<'a>(input: &'a [u8]) -> (r: Result<(&'a [u8], u8), Error>)
    ensures
        decoded_as(r, spec_read_u8(input@)),
{
    let (rest, b) = take(input, 1)?;
    Ok((rest, b[0]))
}

pub fn read_i8<'a>(input: &'a [u8]) -> (r: Result<(&'a [u8], i8), Error>)
    ensures
        decoded_as(r, spec_read_i8(input@)),
{
    let (rest, b) = take(input, 1)?;
    Ok((rest, to_i8(b[0])))
}

pub fn read_u16<'a>(input: &'a [u8]) -> (r: Result<(&'a [u8], u16), Error>)
    ensures
        decoded_as(r, spec_read_u16(input@)),
{
    let (rest, b) = take(input, 2)?;
    Ok((rest, read_be_u16(b)))
}

pub fn read_u32<'a>(input: &'a [u8]) -> (r: Result<(&'a [u8], u32), Error>)
    ensures
        decoded_as(r, spec_read_u32(input@)),
{
    let (rest, b) = take(input, 4)?;
    Ok((rest, read_be_u32(b)))
}

pub fn read_u64<'a>(input: &'a [u8]) -> (r: Result<(&'a [u8], u64), Error>)
    ensures
        decoded_as(r, spec_read_u64(input@)),
{
    let (rest, b) = take(input, 8)?;
    Ok((rest, read_be_u64(b)))
}

/// Bytes behind a one-byte length.
pub open spec fn spec_read_bytes_u8(input: Seq<u8>) -> Decoded<Seq<u8>> {
    match spec_read_u8(input) {
        Ok((rest, len)) => spec_take(rest, len as nat),
        Err(e) => Err(e),
    }
}

/// Bytes behind a four-byte length.
pub open spec fn spec_read_bytes_u32(input: Seq<u8>) -> Decoded<Seq<u8>> {
    match spec_read_u32(input) {
        Ok((rest, len)) => spec_take(rest, len as nat),
        Err(e) => Err(e),
    }
}

pub fn read_bytes_u8<'a>(input: &'a [u8]) -> (r: Result<(&'a [u8], &'a [u8]), Error>)
    ensures
        taken_as(r, spec_read_bytes_u8(input@)),
{
    let (input, len) = read_u8(input)?;
    take(input, len as usize)
}

pub fn read_bytes_u32<'a>(input: &'a [u8]) -> (r: Result<(&'a [u8], &'a [u8]), Error>)
    ensures
        taken_as(r, spec_read_bytes_u32(input@)),
{
    let (input, len) = read_u32(input)?;
    take(input, len as usize)
}

impl DecodeFormatted for Null {
    open spec fn spec_decode_with_format(input: Seq<u8>, fmt: u8) -> Decoded<Null> {
        if fmt == FORMATCODE_NULL {
            Ok((input, Null))
        } else {
            Err(Error::InvalidFormatCode(fmt))
        }
    }

    proof fn decoding_leaves_suffix(input: Seq<u8>, fmt: u8) {
    }

    fn decode_with_format<'a>(input: &'a [u8], fmt: u8) -> (r: Result<(&'a [u8], Self), Error>) {
        if fmt == FORMATCODE_NULL {
            Ok((input, Null))
        } else {
            Err(Error::InvalidFormatCode(fmt))
        }
    }
}

impl DecodeFormatted for bool {
    open spec fn spec_decode_with_format(input: Seq<u8>, fmt: u8) -> Decoded<bool> {
        if fmt == FORMATCODE_BOOLEAN {
            map_decoded(spec_read_u8(input), |o: u8| o != 0)
        } else if fmt == FORMATCODE_BOOLEAN_TRUE {
            Ok((input, true))
        } else if fmt == FORMATCODE_BOOLEAN_FALSE {
            Ok((input, false))
        } else {
            Err(Error::InvalidFormatCode(fmt))
        }
    }

    proof fn decoding_leaves_suffix(input: Seq<u8>, fmt: u8) {
    }

    fn decode_with_format<'a>(input: &'a [u8], fmt: u8) -> (r: Result<(&'a [u8], Self), Error>) {
        match fmt {
            FORMATCODE_BOOLEAN => {
                let (rest, o) = read_u8(input)?;
                Ok((rest, o != 0))
            },
            FORMATCODE_BOOLEAN_TRUE => Ok((input, true)),
            FORMATCODE_BOOLEAN_FALSE => Ok((input, false)),
            _ => Err(Error::InvalidFormatCode(fmt)),
        }
    }
}

impl DecodeFormatted for u8 {
    open spec fn spec_decode_with_format(input: Seq<u8>, fmt: u8) -> Decoded<u8> {
        if fmt == FORMATCODE_UBYTE {
            spec_read_u8(input)
        } else {
            Err(Error::InvalidFormatCode(fmt))
        }
    }

    proof fn decoding_leaves_suffix(input: Seq<u8>, fmt: u8) {
    }

    fn decode_with_format<'a>(input: &'a [u8], fmt: u8) -> (r: Result<(&'a [u8], Self), Error>) {
        if fmt != FORMATCODE_UBYTE {
            return Err(Error::InvalidFormatCode(fmt));
        }
        read_u8(input)
    }
}

impl DecodeFormatted for u16 {
    open spec fn spec_decode_with_format(input: Seq<u8>, fmt: u8) -> Decoded<u16> {
        if fmt == FORMATCODE_USHORT {
            spec_read_u16(input)
        } else {
            Err(Error::InvalidFormatCode(fmt))
        }
    }

    proof fn decoding_leaves_suffix(input: Seq<u8>, fmt: u8) {
    }

    fn decode_with_format<'a>(input: &'a [u8], fmt: u8) -> (r: Result<(&'a [u8], Self), Error>) {
        if fmt != FORMATCODE_USHORT {
            return Err(Error::InvalidFormatCode(fmt));
        }
        read_u16(input)
    }
}

impl DecodeFormatted for u32 {
    open spec fn spec_decode_with_format(input: Seq<u8>, fmt: u8) -> Decoded<u32> {
        if fmt == FORMATCODE_UINT {
            spec_read_u32(input)
        } else if fmt == FORMATCODE_SMALLUINT {
            map_decoded(spec_read_u8(input), |o: u8| o as u32)
        } else if fmt == FORMATCODE_UINT_0 {
            Ok((input, 0))
        } else {
            Err(Error::InvalidFormatCode(fmt))
        }
    }

    proof fn decoding_leaves_suffix(input: Seq<u8>, fmt: u8) {
    }

    fn decode_with_format<'a>(input: &'a [u8], fmt: u8) -> (r: Result<(&'a [u8], Self), Error>) {
        match fmt {
            FORMATCODE_UINT => read_u32(input),
            FORMATCODE_SMALLUINT => {
                let (rest, o) = read_u8(input)?;
                Ok((rest, o as u32))
            },
            FORMATCODE_UINT_0 => Ok((input, 0)),
            _ => Err(Error::InvalidFormatCode(fmt)),
        }
    }
}

impl DecodeFormatted for u64 {
    open spec fn spec_decode_with_format(input: Seq<u8>, fmt: u8) -> Decoded<u64> {
        if fmt == FORMATCODE_ULONG {
            spec_read_u64(input)
        } else if fmt == FORMATCODE_SMALLULONG {
            map_decoded(spec_read_u8(input), |o: u8| o as u64)
        } else if fmt == FORMATCODE_ULONG_0 {
            Ok((input, 0))
        } else {
            Err(Error::InvalidFormatCode(fmt))
        }
    }

    proof fn decoding_leaves_suffix(input: Seq<u8>, fmt: u8) {
    }

    fn decode_with_format<'a>(input: &'a [u8], fmt: u8) -> (r: Result<(&'a [u8], Self), Error>) {
        match fmt {
            FORMATCODE_ULONG => read_u64(input),
            FORMATCODE_SMALLULONG => {
                let (rest, o) = read_u8(input)?;
                Ok((rest, o as u64))
            },
            FORMATCODE_ULONG_0 => Ok((input, 0)),
            _ => Err(Error::InvalidFormatCode(fmt)),
        }
    }
}

impl DecodeFormatted for i8 {
    open spec fn spec_decode_with_format(input: Seq<u8>, fmt: u8) -> Decoded<i8> {
        if fmt == FORMATCODE_BYTE {
            spec_read_i8(input)
        } else {
            Err(Error::InvalidFormatCode(fmt))
        }
    }

    proof fn decoding_leaves_suffix(input: Seq<u8>, fmt: u8) {
    }

    fn decode_with_format<'a>(input: &'a [u8], fmt: u8) -> (r: Result<(&'a [u8], Self), Error>) {
        if fmt != FORMATCODE_BYTE {
            return Err(Error::InvalidFormatCode(fmt));
        }
        read_i8(input)
    }
}

impl DecodeFormatted for i16 {
    open spec fn spec_decode_with_format(input: Seq<u8>, fmt: u8) -> Decoded<i16> {
        if fmt == FORMATCODE_SHORT {
            map_decoded(spec_read_u16(input), |o: u16| i16_of(o))
        } else {
            Err(Error::InvalidFormatCode(fmt))
        }
    }

    proof fn decoding_leaves_suffix(input: Seq<u8>, fmt: u8) {
    }

    fn decode_with_format<'a>(input: &'a [u8], fmt: u8) -> (r: Result<(&'a [u8], Self), Error>) {
        if fmt != FORMATCODE_SHORT {
            return Err(Error::InvalidFormatCode(fmt));
        }
        let (rest, o) = read_u16(input)?;
        Ok((rest, to_i16(o)))
    }
}

impl DecodeFormatted for i32 {
    open spec fn spec_decode_with_format(input: Seq<u8>, fmt: u8) -> Decoded<i32> {
        if fmt == FORMATCODE_INT {
            map_decoded(spec_read_u32(input), |o: u32| i32_of(o))
        } else if fmt == FORMATCODE_SMALLINT {
            map_decoded(spec_read_i8(input), |o: i8| o as i32)
        } else {
            Err(Error::InvalidFormatCode(fmt))
        }
    }

    proof fn decoding_leaves_suffix(input: Seq<u8>, fmt: u8) {
    }

    fn decode_with_format<'a>(input: &'a [u8], fmt: u8) -> (r: Result<(&'a [u8], Self), Error>) {
        match fmt {
            FORMATCODE_INT => {
                let (rest, o) = read_u32(input)?;
                Ok((rest, to_i32(o)))
            },
            FORMATCODE_SMALLINT => {
                let (rest, o) = read_i8(input)?;
                Ok((rest, o as i32))
            },
            _ => Err(Error::InvalidFormatCode(fmt)),
        }
    }
}

impl DecodeFormatted for i64 {
    open spec fn spec_decode_with_format(input: Seq<u8>, fmt: u8) -> Decoded<i64> {
        if fmt == FORMATCODE_LONG {
            map_decoded(spec_read_u64(input), |o: u64| i64_of(o))
        } else if fmt == FORMATCODE_SMALLLONG {
            map_decoded(spec_read_i8(input), |o: i8| o as i64)
        } else {
            Err(Error::InvalidFormatCode(fmt))
        }
    }

    proof fn decoding_leaves_suffix(input: Seq<u8>, fmt: u8) {
    }

    fn decode_with_format<'a>(input: &'a [u8], fmt: u8) -> (r: Result<(&'a [u8], Self), Error>) {
        match fmt {
            FORMATCODE_LONG => {
                let (rest, o) = read_u64(input)?;
                Ok((rest, to_i64(o)))
            },
            FORMATCODE_SMALLLONG => {
                let (rest, o) = read_i8(input)?;
                Ok((rest, o as i64))
            },
            _ => Err(Error::InvalidFormatCode(fmt)),
        }
    }
}

impl<T: DecodeFormatted> DecodeFormatted for Option<T> {
    open spec fn spec_decode_with_format(input: Seq<u8>, fmt: u8) -> Decoded<Option<T::V>> {
        if fmt == FORMATCODE_NULL {
            Ok((input, None))
        } else {
            map_decoded(T::spec_decode_with_format(input, fmt), |v: T::V| Some(v))
        }
    }

    proof fn decoding_leaves_suffix(input: Seq<u8>, fmt: u8) {
        T::decoding_leaves_suffix(input, fmt);
    }

    fn decode_with_format<'a>(input: &'a [u8], fmt: u8) -> (r: Result<(&'a [u8], Self), Error>) {
        if fmt == FORMATCODE_NULL {
            Ok((input, None))
        } else {
            let (rest, v) = T::decode_with_format(input, fmt)?;
            Ok((rest, Some(v)))
        }
    }
}


impl DecodeFormatted for FloatBits {
    open spec fn spec_decode_with_format(input: Seq<u8>, fmt: u8) -> Decoded<FloatBits> {
        if fmt == FORMATCODE_FLOAT {
            map_decoded(spec_read_u32(input), |o: u32| FloatBits(o))
        } else {
            Err(Error::InvalidFormatCode(fmt))
        }
    }

    proof fn decoding_leaves_suffix(input: Seq<u8>, fmt: u8) {
    }

    fn decode_with_format<'a>(input: &'a [u8], fmt: u8) -> (r: Result<(&'a [u8], Self), Error>) {
        if fmt != FORMATCODE_FLOAT {
            return Err(Error::InvalidFormatCode(fmt));
        }
        let (rest, o) = read_u32(input)?;
        Ok((rest, FloatBits(o)))
    }
}

impl DecodeFormatted for DoubleBits {
    open spec fn spec_decode_with_format(input: Seq<u8>, fmt: u8) -> Decoded<DoubleBits> {
        if fmt == FORMATCODE_DOUBLE {
            map_decoded(spec_read_u64(input), |o: u64| DoubleBits(o))
        } else {
            Err(Error::InvalidFormatCode(fmt))
        }
    }

    proof fn decoding_leaves_suffix(input: Seq<u8>, fmt: u8) {
    }

    fn decode_with_format<'a>(input: &'a [u8], fmt: u8) -> (r: Result<(&'a [u8], Self), Error>) {
        if fmt != FORMATCODE_DOUBLE {
            return Err(Error::InvalidFormatCode(fmt));
        }
        let (rest, o) = read_u64(input)?;
        Ok((rest, DoubleBits(o)))
    }
}

/// The character with the given code, where the code is a Unicode scalar
/// value.
pub open spec fn spec_char(d: Decoded<u32>) -> Decoded<char> {
    match d {
        Ok((rest, code)) => if is_scalar(code) {
            Ok((rest, code as char))
        } else {
            Err(Error::InvalidChar(code))
        },
        Err(e) => Err(e),
    }
}

impl DecodeFormatted for char {
    open spec fn spec_decode_with_format(input: Seq<u8>, fmt: u8) -> Decoded<char> {
        if fmt == FORMATCODE_CHAR {
            spec_char(spec_read_u32(input))
        } else {
            Err(Error::InvalidFormatCode(fmt))
        }
    }

    proof fn decoding_leaves_suffix(input: Seq<u8>, fmt: u8) {
    }

    fn decode_with_format<'a>(input: &'a [u8], fmt: u8) -> (r: Result<(&'a [u8], Self), Error>) {
        if fmt != FORMATCODE_CHAR {
            return Err(Error::InvalidFormatCode(fmt));
        }
        let (rest, code) = read_u32(input)?;
        match char_from_u32(code) {
            Some(c) => {
                proof {
                    vstd::utf8::char_u32_cast(c, code);
                }
                Ok((rest, c))
            },
            None => Err(Error::InvalidChar(code)),
        }
    }
}

/// The instant that lies `millis` milliseconds from the epoch: the seconds
/// are rounded down, also before the epoch, so that the nanoseconds count
/// upwards from them.
pub fn datetime_from_millis(millis: i64) -> (t: Timestamp)
    ensures
        t == Timestamp::of_millis(millis as int),
        t.wf(),
        t.whole_millis(),
        t.millis() == millis,
{
    if millis >= 0 {
        let m: u64 = millis as u64;
        let seconds: u64 = m / 1000;
        let sub: u64 = m % 1000;
        Timestamp { seconds: seconds as i64, nanos: (sub as u32) * NANOS_PER_MILLI }
    } else {
        let below: u64 = (-(millis + 1)) as u64;
        let q: u64 = below / 1000;
        let r: u64 = below % 1000;
        assert(millis == (-(q as int) - 1) * 1000 + (999 - r));
        let seconds: i64 = -(q as i64) - 1;
        let sub: u32 = 999 - (r as u32);
        assert(millis as int / 1000 == seconds && millis as int % 1000 == sub) by {
            vstd::arithmetic::div_mod::lemma_fundamental_div_mod_converse(
                millis as int,
                1000,
                seconds as int,
                sub as int,
            );
        }
        Timestamp { seconds, nanos: sub * NANOS_PER_MILLI }
    }
}

impl DecodeFormatted for Timestamp {
    open spec fn spec_decode_with_format(input: Seq<u8>, fmt: u8) -> Decoded<Timestamp> {
        if fmt == FORMATCODE_TIMESTAMP {
            map_decoded(spec_read_u64(input), |o: u64| Timestamp::of_millis(i64_of(o) as int))
        } else {
            Err(Error::InvalidFormatCode(fmt))
        }
    }

    proof fn decoding_leaves_suffix(input: Seq<u8>, fmt: u8) {
    }

    fn decode_with_format<'a>(input: &'a [u8], fmt: u8) -> (r: Result<(&'a [u8], Self), Error>) {
        if fmt != FORMATCODE_TIMESTAMP {
            return Err(Error::InvalidFormatCode(fmt));
        }
        let (rest, o) = read_u64(input)?;
        Ok((rest, datetime_from_millis(to_i64(o))))
    }
}

impl DecodeFormatted for Uuid {
    open spec fn spec_decode_with_format(input: Seq<u8>, fmt: u8) -> Decoded<Seq<u8>> {
        if fmt == FORMATCODE_UUID {
            spec_take(input, 16)
        } else {
            Err(Error::InvalidFormatCode(fmt))
        }
    }

    proof fn decoding_leaves_suffix(input: Seq<u8>, fmt: u8) {
    }

    fn decode_with_format<'a>(input: &'a [u8], fmt: u8) -> (r: Result<(&'a [u8], Self), Error>) {
        if fmt != FORMATCODE_UUID {
            return Err(Error::InvalidFormatCode(fmt));
        }
        let (rest, b) = take(input, 16)?;
        match Uuid::from_bytes(b) {
            Some(u) => Ok((rest, u)),
            None => Err(Error::Incomplete(Some(16))),
        }
    }
}

/// The bytes of a variable-width value: behind a one-byte length under the
/// code `short`, behind a four-byte length under the code `long`.
pub open spec fn spec_read_variable(input: Seq<u8>, fmt: u8, short: u8, long: u8) -> Decoded<
    Seq<u8>,
> {
    if fmt == short {
        spec_read_bytes_u8(input)
    } else if fmt == long {
        spec_read_bytes_u32(input)
    } else {
        Err(Error::InvalidFormatCode(fmt))
    }
}

pub fn read_variable<'a>(input: &'a [u8], fmt: u8, short: u8, long: u8) -> (r: Result<
    (&'a [u8], &'a [u8]),
    Error,
>)
    ensures
        taken_as(r, spec_read_variable(input@, fmt, short, long)),
{
    if fmt == short {
        read_bytes_u8(input)
    } else if fmt == long {
        read_bytes_u32(input)
    } else {
        Err(Error::InvalidFormatCode(fmt))
    }
}

/// The text that the bytes hold in UTF-8.
pub open spec fn spec_utf8(d: Decoded<Seq<u8>>) -> Decoded<Seq<char>> {
    match d {
        Ok((rest, bytes)) => if valid_utf8(bytes) {
            Ok((rest, decode_utf8(bytes)))
        } else {
            Err(Error::InvalidUtf8)
        },
        Err(e) => Err(e),
    }
}

impl DecodeFormatted for Binary {
    open spec fn spec_decode_with_format(input: Seq<u8>, fmt: u8) -> Decoded<Seq<u8>> {
        spec_read_variable(input, fmt, FORMATCODE_BINARY8, FORMATCODE_BINARY32)
    }

    proof fn decoding_leaves_suffix(input: Seq<u8>, fmt: u8) {
    }

    fn decode_with_format<'a>(input: &'a [u8], fmt: u8) -> (r: Result<(&'a [u8], Self), Error>) {
        let (rest, b) = read_variable(input, fmt, FORMATCODE_BINARY8, FORMATCODE_BINARY32)?;
        Ok((rest, Binary::from_slice(b)))
    }
}

impl DecodeFormatted for ByteStr {
    open spec fn spec_decode_with_format(input: Seq<u8>, fmt: u8) -> Decoded<Seq<char>> {
        spec_utf8(spec_read_variable(input, fmt, FORMATCODE_STRING8, FORMATCODE_STRING32))
    }

    proof fn decoding_leaves_suffix(input: Seq<u8>, fmt: u8) {
    }

    fn decode_with_format<'a>(input: &'a [u8], fmt: u8) -> (r: Result<(&'a [u8], Self), Error>) {
        let (rest, b) = read_variable(input, fmt, FORMATCODE_STRING8, FORMATCODE_STRING32)?;
        match ByteStr::from_utf8(b) {
            Some(s) => Ok((rest, s)),
            None => Err(Error::InvalidUtf8),
        }
    }
}

impl DecodeFormatted for Symbol {
    open spec fn spec_decode_with_format(input: Seq<u8>, fmt: u8) -> Decoded<Seq<char>> {
        spec_utf8(spec_read_variable(input, fmt, FORMATCODE_SYMBOL8, FORMATCODE_SYMBOL32))
    }

    proof fn decoding_leaves_suffix(input: Seq<u8>, fmt: u8) {
    }

    fn decode_with_format<'a>(input: &'a [u8], fmt: u8) -> (r: Result<(&'a [u8], Self), Error>) {
        let (rest, b) = read_variable(input, fmt, FORMATCODE_SYMBOL8, FORMATCODE_SYMBOL32)?;
        match Symbol::from_utf8(b) {
            Some(s) => Ok((rest, s)),
            None => Err(Error::InvalidUtf8),
        }
    }
}


/// A compound header of two bytes: the size, which counts the count byte
/// too, and the count. The header handed back holds the size without the
/// count byte: the number of bytes that the elements take.
pub open spec fn spec_decode_compound8(input: Seq<u8>) -> Decoded<CompoundHeader> {
    match spec_take(input, 2) {
        Ok((rest, b)) => if b[0] < 1 {
            Err(Error::InvalidCompoundSize(b[0] as u32))
        } else {
            Ok((rest, CompoundHeader { size: (b[0] - 1) as u32, count: b[1] as u32 }))
        },
        Err(e) => Err(e),
    }
}

/// A compound header of eight bytes: the size, which counts the four count
/// bytes too, and the count, both big-endian. The header handed back holds
/// the size without the count bytes.
pub open spec fn spec_decode_compound32(input: Seq<u8>) -> Decoded<CompoundHeader> {
    match spec_take(input, 8) {
        Ok((rest, b)) => if be_u32(b.subrange(0, 4)) < 4 {
            Err(Error::InvalidCompoundSize(be_u32(b.subrange(0, 4))))
        } else {
            Ok(
                (
                    rest,
                    CompoundHeader {
                        size: (be_u32(b.subrange(0, 4)) - 4) as u32,
                        count: be_u32(b.subrange(4, 8)),
                    },
                ),
            )
        },
        Err(e) => Err(e),
    }
}

pub fn decode_compound8<'a>(input: &'a [u8]) -> (r: Result<(&'a [u8], CompoundHeader), Error>)
    ensures
        decoded_as(r, spec_decode_compound8(input@)),
{
    let (rest, b) = take(input, 2)?;
    if b[0] < 1 {
        return Err(Error::InvalidCompoundSize(b[0] as u32));
    }
    Ok((rest, CompoundHeader { size: (b[0] - 1) as u32, count: b[1] as u32 }))
}

pub fn decode_compound32<'a>(input: &'a [u8]) -> (r: Result<(&'a [u8], CompoundHeader), Error>)
    ensures
        decoded_as(r, spec_decode_compound32(input@)),
{
    let (rest, b) = take(input, 8)?;
    let size: u32 = read_be_u32(slice_subrange(b, 0, 4));
    let count: u32 = read_be_u32(slice_subrange(b, 4, 8));
    if size < 4 {
        return Err(Error::InvalidCompoundSize(size));
    }
    Ok((rest, CompoundHeader { size: size - 4, count }))
}

/// The header of a list: none on the wire for the empty list, which has a
/// format code of its own.
pub open spec fn spec_decode_list_header(input: Seq<u8>, fmt: u8) -> Decoded<CompoundHeader> {
    if fmt == FORMATCODE_LIST0 {
        Ok((input, CompoundHeader { size: 0, count: 0 }))
    } else if fmt == FORMATCODE_LIST8 {
        spec_decode_compound8(input)
    } else if fmt == FORMATCODE_LIST32 {
        spec_decode_compound32(input)
    } else {
        Err(Error::InvalidFormatCode(fmt))
    }
}

pub fn decode_list_header<'a>(input: &'a [u8], fmt: u8) -> (r: Result<
    (&'a [u8], CompoundHeader),
    Error,
>)
    ensures
        decoded_as(r, spec_decode_list_header(input@, fmt)),
{
    match fmt {
        FORMATCODE_LIST0 => Ok((input, CompoundHeader::empty())),
        FORMATCODE_LIST8 => decode_compound8(input),
        FORMATCODE_LIST32 => decode_compound32(input),
        _ => Err(Error::InvalidFormatCode(fmt)),
    }
}

/// A header whose count is even passes; one whose count is odd is an error.
pub open spec fn spec_even_count(d: Decoded<CompoundHeader>) -> Decoded<CompoundHeader> {
    match d {
        Ok((rest, h)) => if h.count % 2 == 0 {
            Ok((rest, h))
        } else {
            Err(Error::OddMapCount(h.count))
        },
        Err(e) => Err(e),
    }
}

/// The header of a map. Its count is that of keys and values together, so
/// an odd count is an error.
pub open spec fn spec_decode_map_header(input: Seq<u8>, fmt: u8) -> Decoded<CompoundHeader> {
    if fmt == FORMATCODE_MAP8 {
        spec_even_count(spec_decode_compound8(input))
    } else if fmt == FORMATCODE_MAP32 {
        spec_even_count(spec_decode_compound32(input))
    } else {
        Err(Error::InvalidFormatCode(fmt))
    }
}

pub fn decode_map_header<'a>(input: &'a [u8], fmt: u8) -> (r: Result<
    (&'a [u8], CompoundHeader),
    Error,
>)
    ensures
        decoded_as(r, spec_decode_map_header(input@, fmt)),
        r matches Ok((_, h)) ==> h.count % 2 == 0,
{
    let (rest, header) = match fmt {
        FORMATCODE_MAP8 => decode_compound8(input)?,
        FORMATCODE_MAP32 => decode_compound32(input)?,
        _ => { return Err(Error::InvalidFormatCode(fmt)); },
    };
    if header.count % 2 != 0 {
        return Err(Error::OddMapCount(header.count));
    }
    Ok((rest, header))
}

/// A map holds keys and values in pairs: a header that counts an odd
/// number of elements is an error, under either format code, and a header
/// that is read counts an even number.
pub proof fn law_map_count_is_even(input: Seq<u8>, fmt: u8)
    ensures
        spec_decode_map_header(input, fmt) matches Ok((_, header)) ==> header.count % 2 == 0,
        fmt == FORMATCODE_MAP8 && input.len() >= 2 && input[0] >= 1 && input[1] % 2 == 1
            ==> spec_decode_map_header(input, fmt) == Err::<(Seq<u8>, CompoundHeader), Error>(
            Error::OddMapCount(input[1] as u32),
        ),
        fmt == FORMATCODE_MAP32 && input.len() >= 8 && be_u32(input.subrange(0, 4)) >= 4 && be_u32(
            input.subrange(4, 8),
        ) % 2 == 1 ==> spec_decode_map_header(input, fmt) == Err::<
            (Seq<u8>, CompoundHeader),
            Error,
        >(Error::OddMapCount(be_u32(input.subrange(4, 8)))),
{
    if input.len() >= 2 {
        assert(input.subrange(0, 2)[0] == input[0]);
        assert(input.subrange(0, 2)[1] == input[1]);
    }
    if input.len() >= 8 {
        assert(input.subrange(0, 8).subrange(0, 4) =~= input.subrange(0, 4));
        assert(input.subrange(0, 8).subrange(4, 8) =~= input.subrange(4, 8));
    }
}

/// The header of an array, which has the shape of a list's.
pub open spec fn spec_decode_array_header(input: Seq<u8>, fmt: u8) -> Decoded<CompoundHeader> {
    if fmt == FORMATCODE_ARRAY8 {
        spec_decode_compound8(input)
    } else if fmt == FORMATCODE_ARRAY32 {
        spec_decode_compound32(input)
    } else {
        Err(Error::InvalidFormatCode(fmt))
    }
}

pub fn decode_array_header<'a>(input: &'a [u8], fmt: u8) -> (r: Result<
    (&'a [u8], CompoundHeader),
    Error,
>)
    ensures
        decoded_as(r, spec_decode_array_header(input@, fmt)),
{
    match fmt {
        FORMATCODE_ARRAY8 => decode_compound8(input),
        FORMATCODE_ARRAY32 => decode_compound32(input),
        _ => Err(Error::InvalidFormatCode(fmt)),
    }
}

/// A suffix of a suffix is a suffix.
pub proof fn lemma_suffix_of_suffix(a: Seq<u8>, b: Seq<u8>, c: Seq<u8>)
    requires
        is_suffix(a, b),
        is_suffix(b, c),
    ensures
        is_suffix(a, c),
{
}

/// `count` values of one type in a row, all under the format code `fmt`:
/// the first `count - 1` of them, and then one more.
pub open spec fn spec_decode_items<T: DecodeFormatted>(input: Seq<u8>, fmt: u8, count: nat) -> Decoded<
    Seq<T::V>,
>
    decreases count,
{
    if count == 0 {
        Ok((input, Seq::empty()))
    } else {
        match spec_decode_items::<T>(input, fmt, (count - 1) as nat) {
            Ok((rest, items)) => match T::spec_decode_with_format(rest, fmt) {
                Ok((rest, item)) => Ok((rest, items.push(item))),
                Err(e) => Err(e),
            },
            Err(e) => Err(e),
        }
    }
}

/// Where the first values of a row cannot be decoded, no longer row can.
pub proof fn lemma_items_error_stays<T: DecodeFormatted>(
    input: Seq<u8>,
    fmt: u8,
    short: nat,
    long: nat,
)
    requires
        short <= long,
        spec_decode_items::<T>(input, fmt, short) is Err,
    ensures
        spec_decode_items::<T>(input, fmt, long) == spec_decode_items::<T>(input, fmt, short),
    decreases long,
{
    if short < long {
        lemma_items_error_stays::<T>(input, fmt, short, (long - 1) as nat);
    }
}

/// The elements of an array: behind the header comes the one format code
/// of all elements, then the elements. The array ends where its size says,
/// whatever the elements took of it.
pub open spec fn spec_decode_array<T: DecodeFormatted>(input: Seq<u8>, fmt: u8) -> Decoded<
    Seq<T::V>,
> {
    match spec_decode_array_header(input, fmt) {
        Ok((rest, header)) => match spec_take(rest, header.size as nat) {
            Ok((remainder, content)) => match spec_read_u8(content) {
                Ok((elements, item_fmt)) => match spec_decode_items::<T>(
                    elements,
                    item_fmt,
                    header.count as nat,
                ) {
                    Ok((_, items)) => Ok((remainder, items)),
                    Err(e) => Err(e),
                },
                Err(e) => Err(e),
            },
            Err(e) => Err(e),
        },
        Err(e) => Err(e),
    }
}

/// Decodes `count` values in a row, all under the format code `fmt`.
pub fn decode_items<'a, T: DecodeFormatted>(input: &'a [u8], fmt: u8, count: u32) -> (r: Result<
    (&'a [u8], Vec<T>),
    Error,
>)
    ensures
        decoded_as(r, spec_decode_items::<T>(input@, fmt, count as nat)),
{
    let mut result: Vec<T> = Vec::new();
    let mut cur: &[u8] = input;
    let mut i: u32 = 0;
    assert(result.deep_view() =~= Seq::empty());
    while i < count
        invariant
            i <= count,
            spec_decode_items::<T>(input@, fmt, i as nat) == Ok::<(Seq<u8>, Seq<T::V>), Error>(
                (cur@, result.deep_view()),
            ),
        decreases count - i,
    {
        let ghost before = result.deep_view();
        match T::decode_with_format(cur, fmt) {
            Ok((next, item)) => {
                result.push(item);
                cur = next;
                i = i + 1;
                assert(result.deep_view() =~= before.push(item.deep_view()));
            },
            Err(e) => {
                proof {
                    lemma_items_error_stays::<T>(input@, fmt, (i + 1) as nat, count as nat);
                }
                return Err(e);
            },
        }
    }
    Ok((cur, result))
}

impl<T: DecodeFormatted> DecodeFormatted for Vec<T> {
    open spec fn spec_decode_with_format(input: Seq<u8>, fmt: u8) -> Decoded<Seq<T::V>> {
        spec_decode_array::<T>(input, fmt)
    }

    proof fn decoding_leaves_suffix(input: Seq<u8>, fmt: u8) {
    }

    fn decode_with_format<'a>(input: &'a [u8], fmt: u8) -> (r: Result<(&'a [u8], Self), Error>) {
        let (rest, header) = decode_array_header(input, fmt)?;
        let (remainder, content) = take(rest, header.size as usize)?;
        let (elements, item_fmt) = read_u8(content)?;
        let (_, items) = decode_items::<T>(elements, item_fmt, header.count)?;
        Ok((remainder, items))
    }
}

impl<T: DecodeFormatted> DecodeFormatted for Multiple<T> {
    open spec fn spec_decode_with_format(input: Seq<u8>, fmt: u8) -> Decoded<Seq<T::V>> {
        if fmt == FORMATCODE_ARRAY8 || fmt == FORMATCODE_ARRAY32 {
            spec_decode_array::<T>(input, fmt)
        } else {
            map_decoded(T::spec_decode_with_format(input, fmt), |item: T::V| seq![item])
        }
    }

    proof fn decoding_leaves_suffix(input: Seq<u8>, fmt: u8) {
        T::decoding_leaves_suffix(input, fmt);
    }

    fn decode_with_format<'a>(input: &'a [u8], fmt: u8) -> (r: Result<(&'a [u8], Self), Error>) {
        match fmt {
            FORMATCODE_ARRAY8 | FORMATCODE_ARRAY32 => {
                let (rest, items) = Vec::<T>::decode_with_format(input, fmt)?;
                Ok((rest, Multiple(items)))
            },
            _ => {
                let (rest, item) = T::decode_with_format(input, fmt)?;
                let mut items: Vec<T> = Vec::new();
                items.push(item);
                assert(items.deep_view() =~= seq![item.deep_view()]);
                Ok((rest, Multiple(items)))
            },
        }
    }
}

impl DecodeFormatted for Descriptor {
    open spec fn spec_decode_with_format(input: Seq<u8>, fmt: u8) -> Decoded<DescriptorView> {
        if fmt == FORMATCODE_SMALLULONG || fmt == FORMATCODE_ULONG {
            map_decoded(
                u64::spec_decode_with_format(input, fmt),
                |code: u64| DescriptorView::Ulong(code),
            )
        } else if fmt == FORMATCODE_SYMBOL8 || fmt == FORMATCODE_SYMBOL32 {
            map_decoded(
                Symbol::spec_decode_with_format(input, fmt),
                |name: Seq<char>| DescriptorView::Symbol(name),
            )
        } else {
            Err(Error::InvalidFormatCode(fmt))
        }
    }

    proof fn decoding_leaves_suffix(input: Seq<u8>, fmt: u8) {
    }

    fn decode_with_format<'a>(input: &'a [u8], fmt: u8) -> (r: Result<(&'a [u8], Self), Error>) {
        match fmt {
            FORMATCODE_SMALLULONG | FORMATCODE_ULONG => {
                let (rest, code) = u64::decode_with_format(input, fmt)?;
                Ok((rest, Descriptor::Ulong(code)))
            },
            FORMATCODE_SYMBOL8 | FORMATCODE_SYMBOL32 => {
                let (rest, name) = Symbol::decode_with_format(input, fmt)?;
                Ok((rest, Descriptor::Symbol(name)))
            },
            _ => Err(Error::InvalidFormatCode(fmt)),
        }
    }
}

} // verus!
