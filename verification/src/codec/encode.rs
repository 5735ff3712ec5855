//! Encoding of the primitive types. Each value has one encoding, the
//! shortest that AMQP offers for it.

use vstd::prelude::*;
use bytes::BytesMut;
use crate::buffer::{buf_bytes, buf_extend, buf_len, buf_reserve, BUF_MAX};
use crate::errors::Error;
use crate::codec::bigendian::{
    be_bytes_u16, be_bytes_u32, be_bytes_u64, from_i16, from_i32, from_i64, from_i8, u16_be,
    u16_of, u32_be, u32_of, u64_be, u64_of, u8_of,
};
use crate::codec::{FORMATCODE_LIST0, FORMATCODE_LIST32, FORMATCODE_LIST8};
use crate::codec::{
    Encode, FORMATCODE_BOOLEAN_FALSE, FORMATCODE_BOOLEAN_TRUE, FORMATCODE_BYTE, FORMATCODE_INT,
    FORMATCODE_LONG, FORMATCODE_NULL, FORMATCODE_SHORT, FORMATCODE_SMALLINT, FORMATCODE_SMALLLONG,
    FORMATCODE_SMALLUINT, FORMATCODE_SMALLULONG, FORMATCODE_UBYTE, FORMATCODE_UINT,
    FORMATCODE_UINT_0, FORMATCODE_ULONG, FORMATCODE_ULONG_0, FORMATCODE_USHORT,
};
use crate::codec::{
    FORMATCODE_BINARY32, FORMATCODE_BINARY8, FORMATCODE_CHAR, FORMATCODE_DOUBLE, FORMATCODE_FLOAT,
    FORMATCODE_STRING32, FORMATCODE_STRING8, FORMATCODE_SYMBOL32, FORMATCODE_SYMBOL8,
    FORMATCODE_TIMESTAMP, FORMATCODE_UUID,
};
use crate::types::{
    Binary, ByteStr, DoubleBits, FloatBits, Null, Symbol, Timestamp, Uuid, NANOS_PER_MILLI,
    NANOS_PER_SECOND,
};
use vstd::utf8::encode_utf8;

verus! {

/// Appends one byte.
pub fn put_u8(buf: &mut BytesMut, b: u8)
    requires
        buf_bytes(*old(buf)).len() + 1 <= BUF_MAX,
    ensures
        buf_bytes(*final(buf)) == buf_bytes(*old(buf)) + seq![b],
{
    let a: [u8; 1] = [b];
    assert(a@ =~= seq![b]);
    buf_extend(buf, a.as_slice());
}

/// Appends two bytes.
pub fn put_u8_u8(buf: &mut BytesMut, b0: u8, b1: u8)
    requires
        buf_bytes(*old(buf)).len() + 2 <= BUF_MAX,
    ensures
        buf_bytes(*final(buf)) == buf_bytes(*old(buf)) + seq![b0, b1],
{
    let a: [u8; 2] = [b0, b1];
    assert(a@ =~= seq![b0, b1]);
    buf_extend(buf, a.as_slice());
}

/// Appends a number as two big-endian bytes.
pub fn put_u16(buf: &mut BytesMut, v: u16)
    requires
        buf_bytes(*old(buf)).len() + 2 <= BUF_MAX,
    ensures
        buf_bytes(*final(buf)) == buf_bytes(*old(buf)) + u16_be(v),
{
    let a: [u8; 2] = be_bytes_u16(v);
    buf_extend(buf, a.as_slice());
}

/// Appends a number as four big-endian bytes.
pub fn put_u32(buf: &mut BytesMut, v: u32)
    requires
        buf_bytes(*old(buf)).len() + 4 <= BUF_MAX,
    ensures
        buf_bytes(*final(buf)) == buf_bytes(*old(buf)) + u32_be(v),
{
    let a: [u8; 4] = be_bytes_u32(v);
    buf_extend(buf, a.as_slice());
}

/// Appends a number as eight big-endian bytes.
pub fn put_u64(buf: &mut BytesMut, v: u64)
    requires
        buf_bytes(*old(buf)).len() + 8 <= BUF_MAX,
    ensures
        buf_bytes(*final(buf)) == buf_bytes(*old(buf)) + u64_be(v),
{
    let a: [u8; 8] = be_bytes_u64(v);
    buf_extend(buf, a.as_slice());
}

impl Encode for Null {
    open spec fn encodable(v: Null) -> bool {
        true
    }

    open spec fn spec_encode(v: Null) -> Seq<u8> {
        seq![FORMATCODE_NULL]
    }

    fn encoded_size(&self) -> (n: usize) {
        1
    }

    fn size_within(&self, limit: usize) -> (size: Option<usize>) {
        let n = self.encoded_size();
        if n <= limit {
            Some(n)
        } else {
            None
        }
    }

    fn encode(&self, buf: &mut BytesMut) {
        put_u8(buf, FORMATCODE_NULL);
    }
}

impl Encode for bool {
    open spec fn encodable(v: bool) -> bool {
        true
    }

    open spec fn spec_encode(v: bool) -> Seq<u8> {
        if v {
            seq![FORMATCODE_BOOLEAN_TRUE]
        } else {
            seq![FORMATCODE_BOOLEAN_FALSE]
        }
    }

    fn encoded_size(&self) -> (n: usize) {
        1
    }

    fn size_within(&self, limit: usize) -> (size: Option<usize>) {
        let n = self.encoded_size();
        if n <= limit {
            Some(n)
        } else {
            None
        }
    }

    fn encode(&self, buf: &mut BytesMut) {
        if *self {
            put_u8(buf, FORMATCODE_BOOLEAN_TRUE);
        } else {
            put_u8(buf, FORMATCODE_BOOLEAN_FALSE);
        }
    }
}

impl Encode for u8 {
    open spec fn encodable(v: u8) -> bool {
        true
    }

    open spec fn spec_encode(v: u8) -> Seq<u8> {
        seq![FORMATCODE_UBYTE, v]
    }

    fn encoded_size(&self) -> (n: usize) {
        2
    }

    fn size_within(&self, limit: usize) -> (size: Option<usize>) {
        let n = self.encoded_size();
        if n <= limit {
            Some(n)
        } else {
            None
        }
    }

    fn encode(&self, buf: &mut BytesMut) {
        put_u8_u8(buf, FORMATCODE_UBYTE, *self);
    }
}

impl Encode for u16 {
    open spec fn encodable(v: u16) -> bool {
        true
    }

    open spec fn spec_encode(v: u16) -> Seq<u8> {
        seq![FORMATCODE_USHORT] + u16_be(v)
    }

    fn encoded_size(&self) -> (n: usize) {
        3
    }

    fn size_within(&self, limit: usize) -> (size: Option<usize>) {
        let n = self.encoded_size();
        if n <= limit {
            Some(n)
        } else {
            None
        }
    }

    fn encode(&self, buf: &mut BytesMut) {
        put_u8(buf, FORMATCODE_USHORT);
        put_u16(buf, *self);
        assert(buf_bytes(*buf) =~= buf_bytes(*old(buf)) + Self::spec_encode(*self));
    }
}

impl Encode for u32 {
    open spec fn encodable(v: u32) -> bool {
        true
    }

    open spec fn spec_encode(v: u32) -> Seq<u8> {
        if v == 0 {
            seq![FORMATCODE_UINT_0]
        } else if v <= 0xff {
            seq![FORMATCODE_SMALLUINT, v as u8]
        } else {
            seq![FORMATCODE_UINT] + u32_be(v)
        }
    }

    fn encoded_size(&self) -> (n: usize) {
        if *self == 0 {
            1
        } else if *self <= 0xff {
            2
        } else {
            5
        }
    }

    fn size_within(&self, limit: usize) -> (size: Option<usize>) {
        let n = self.encoded_size();
        if n <= limit {
            Some(n)
        } else {
            None
        }
    }

    fn encode(&self, buf: &mut BytesMut) {
        if *self == 0 {
            put_u8(buf, FORMATCODE_UINT_0);
        } else if *self <= 0xff {
            put_u8_u8(buf, FORMATCODE_SMALLUINT, *self as u8);
        } else {
            put_u8(buf, FORMATCODE_UINT);
            put_u32(buf, *self);
            assert(buf_bytes(*buf) =~= buf_bytes(*old(buf)) + Self::spec_encode(*self));
        }
    }
}

impl Encode for u64 {
    open spec fn encodable(v: u64) -> bool {
        true
    }

    open spec fn spec_encode(v: u64) -> Seq<u8> {
        if v == 0 {
            seq![FORMATCODE_ULONG_0]
        } else if v <= 0xff {
            seq![FORMATCODE_SMALLULONG, v as u8]
        } else {
            seq![FORMATCODE_ULONG] + u64_be(v)
        }
    }

    fn encoded_size(&self) -> (n: usize) {
        if *self == 0 {
            1
        } else if *self <= 0xff {
            2
        } else {
            9
        }
    }

    fn size_within(&self, limit: usize) -> (size: Option<usize>) {
        let n = self.encoded_size();
        if n <= limit {
            Some(n)
        } else {
            None
        }
    }

    fn encode(&self, buf: &mut BytesMut) {
        if *self == 0 {
            put_u8(buf, FORMATCODE_ULONG_0);
        } else if *self <= 0xff {
            put_u8_u8(buf, FORMATCODE_SMALLULONG, *self as u8);
        } else {
            put_u8(buf, FORMATCODE_ULONG);
            put_u64(buf, *self);
            assert(buf_bytes(*buf) =~= buf_bytes(*old(buf)) + Self::spec_encode(*self));
        }
    }
}

impl Encode for i8 {
    open spec fn encodable(v: i8) -> bool {
        true
    }

    open spec fn spec_encode(v: i8) -> Seq<u8> {
        seq![FORMATCODE_BYTE, u8_of(v)]
    }

    fn encoded_size(&self) -> (n: usize) {
        2
    }

    fn size_within(&self, limit: usize) -> (size: Option<usize>) {
        let n = self.encoded_size();
        if n <= limit {
            Some(n)
        } else {
            None
        }
    }

    fn encode(&self, buf: &mut BytesMut) {
        put_u8_u8(buf, FORMATCODE_BYTE, from_i8(*self));
    }
}

impl Encode for i16 {
    open spec fn encodable(v: i16) -> bool {
        true
    }

    open spec fn spec_encode(v: i16) -> Seq<u8> {
        seq![FORMATCODE_SHORT] + u16_be(u16_of(v))
    }

    fn encoded_size(&self) -> (n: usize) {
        3
    }

    fn size_within(&self, limit: usize) -> (size: Option<usize>) {
        let n = self.encoded_size();
        if n <= limit {
            Some(n)
        } else {
            None
        }
    }

    fn encode(&self, buf: &mut BytesMut) {
        put_u8(buf, FORMATCODE_SHORT);
        put_u16(buf, from_i16(*self));
        assert(buf_bytes(*buf) =~= buf_bytes(*old(buf)) + Self::spec_encode(*self));
    }
}

impl Encode for i32 {
    open spec fn encodable(v: i32) -> bool {
        true
    }

    open spec fn spec_encode(v: i32) -> Seq<u8> {
        if -0x80 <= v <= 0x7f {
            seq![FORMATCODE_SMALLINT, u8_of(v as i8)]
        } else {
            seq![FORMATCODE_INT] + u32_be(u32_of(v))
        }
    }

    fn encoded_size(&self) -> (n: usize) {
        if -0x80 <= *self && *self <= 0x7f {
            2
        } else {
            5
        }
    }

    fn size_within(&self, limit: usize) -> (size: Option<usize>) {
        let n = self.encoded_size();
        if n <= limit {
            Some(n)
        } else {
            None
        }
    }

    fn encode(&self, buf: &mut BytesMut) {
        if -0x80 <= *self && *self <= 0x7f {
            put_u8_u8(buf, FORMATCODE_SMALLINT, from_i8(*self as i8));
        } else {
            put_u8(buf, FORMATCODE_INT);
            put_u32(buf, from_i32(*self));
            assert(buf_bytes(*buf) =~= buf_bytes(*old(buf)) + Self::spec_encode(*self));
        }
    }
}

impl Encode for i64 {
    open spec fn encodable(v: i64) -> bool {
        true
    }

    open spec fn spec_encode(v: i64) -> Seq<u8> {
        if -0x80 <= v <= 0x7f {
            seq![FORMATCODE_SMALLLONG, u8_of(v as i8)]
        } else {
            seq![FORMATCODE_LONG] + u64_be(u64_of(v))
        }
    }

    fn encoded_size(&self) -> (n: usize) {
        if -0x80 <= *self && *self <= 0x7f {
            2
        } else {
            9
        }
    }

    fn size_within(&self, limit: usize) -> (size: Option<usize>) {
        let n = self.encoded_size();
        if n <= limit {
            Some(n)
        } else {
            None
        }
    }

    fn encode(&self, buf: &mut BytesMut) {
        if -0x80 <= *self && *self <= 0x7f {
            put_u8_u8(buf, FORMATCODE_SMALLLONG, from_i8(*self as i8));
        } else {
            put_u8(buf, FORMATCODE_LONG);
            put_u64(buf, from_i64(*self));
            assert(buf_bytes(*buf) =~= buf_bytes(*old(buf)) + Self::spec_encode(*self));
        }
    }
}


impl Encode for FloatBits {
    open spec fn encodable(v: FloatBits) -> bool {
        true
    }

    open spec fn spec_encode(v: FloatBits) -> Seq<u8> {
        seq![FORMATCODE_FLOAT] + u32_be(v.0)
    }

    fn encoded_size(&self) -> (n: usize) {
        5
    }

    fn size_within(&self, limit: usize) -> (size: Option<usize>) {
        let n = self.encoded_size();
        if n <= limit {
            Some(n)
        } else {
            None
        }
    }

    fn encode(&self, buf: &mut BytesMut) {
        put_u8(buf, FORMATCODE_FLOAT);
        put_u32(buf, self.0);
        assert(buf_bytes(*buf) =~= buf_bytes(*old(buf)) + Self::spec_encode(*self));
    }
}

impl Encode for DoubleBits {
    open spec fn encodable(v: DoubleBits) -> bool {
        true
    }

    open spec fn spec_encode(v: DoubleBits) -> Seq<u8> {
        seq![FORMATCODE_DOUBLE] + u64_be(v.0)
    }

    fn encoded_size(&self) -> (n: usize) {
        9
    }

    fn size_within(&self, limit: usize) -> (size: Option<usize>) {
        let n = self.encoded_size();
        if n <= limit {
            Some(n)
        } else {
            None
        }
    }

    fn encode(&self, buf: &mut BytesMut) {
        put_u8(buf, FORMATCODE_DOUBLE);
        put_u64(buf, self.0);
        assert(buf_bytes(*buf) =~= buf_bytes(*old(buf)) + Self::spec_encode(*self));
    }
}

impl Encode for char {
    open spec fn encodable(v: char) -> bool {
        true
    }

    open spec fn spec_encode(v: char) -> Seq<u8> {
        seq![FORMATCODE_CHAR] + u32_be(v as u32)
    }

    fn encoded_size(&self) -> (n: usize) {
        5
    }

    fn size_within(&self, limit: usize) -> (size: Option<usize>) {
        let n = self.encoded_size();
        if n <= limit {
            Some(n)
        } else {
            None
        }
    }

    fn encode(&self, buf: &mut BytesMut) {
        put_u8(buf, FORMATCODE_CHAR);
        put_u32(buf, *self as u32);
        assert(buf_bytes(*buf) =~= buf_bytes(*old(buf)) + Self::spec_encode(*self));
    }
}

/// The instant in milliseconds since the epoch; what is finer than a
/// millisecond is dropped.
pub fn millis_from_datetime(t: &Timestamp) -> (millis: i64)
    requires
        i64::MIN <= t.millis() <= i64::MAX,
    ensures
        millis == t.millis(),
{
    let whole: i128 = (t.seconds as i128) * 1000;
    let sub: i128 = (t.nanos / NANOS_PER_MILLI) as i128;
    (whole + sub) as i64
}

impl Encode for Timestamp {
    open spec fn encodable(v: Timestamp) -> bool {
        v.wf() && i64::MIN <= v.millis() <= i64::MAX
    }

    open spec fn spec_encode(v: Timestamp) -> Seq<u8> {
        seq![FORMATCODE_TIMESTAMP] + u64_be(u64_of(v.millis() as i64))
    }

    fn encoded_size(&self) -> (n: usize) {
        9
    }

    fn size_within(&self, limit: usize) -> (size: Option<usize>) {
        if self.nanos >= NANOS_PER_SECOND {
            return None;
        }
        let whole: i128 = (self.seconds as i128) * 1000;
        let millis: i128 = whole + ((self.nanos / NANOS_PER_MILLI) as i128);
        if millis < i64::MIN as i128 || millis > i64::MAX as i128 || limit < 9 {
            None
        } else {
            Some(9)
        }
    }

    fn encode(&self, buf: &mut BytesMut) {
        put_u8(buf, FORMATCODE_TIMESTAMP);
        put_u64(buf, from_i64(millis_from_datetime(self)));
        assert(buf_bytes(*buf) =~= buf_bytes(*old(buf)) + Self::spec_encode(*self));
    }
}

impl Encode for Uuid {
    open spec fn encodable(v: Seq<u8>) -> bool {
        v.len() == 16
    }

    open spec fn spec_encode(v: Seq<u8>) -> Seq<u8> {
        seq![FORMATCODE_UUID] + v
    }

    fn encoded_size(&self) -> (n: usize) {
        17
    }

    fn size_within(&self, limit: usize) -> (size: Option<usize>) {
        let n = self.encoded_size();
        if n <= limit {
            Some(n)
        } else {
            None
        }
    }

    fn encode(&self, buf: &mut BytesMut) {
        put_u8(buf, FORMATCODE_UUID);
        buf_extend(buf, self.as_bytes());
        assert(buf_bytes(*buf) =~= buf_bytes(*old(buf)) + Self::spec_encode(self.deep_view()));
    }
}

/// A variable-width value: behind the code `short` and a one-byte length
/// where it has at most 255 bytes, behind the code `long` and a four-byte
/// length where it has more.
pub open spec fn spec_encode_variable(bytes: Seq<u8>, short: u8, long: u8) -> Seq<u8> {
    if bytes.len() <= 0xff {
        seq![short, bytes.len() as u8] + bytes
    } else {
        seq![long] + u32_be(bytes.len() as u32) + bytes
    }
}

/// The number of bytes that `put_variable` appends.
pub fn variable_size(len: usize) -> (n: usize)
    requires
        len + 5 <= usize::MAX,
    ensures
        n == if len <= 0xff {
            len + 2
        } else {
            len + 5
        },
{
    if len <= 0xff {
        len + 2
    } else {
        len + 5
    }
}

/// The number of bytes that `put_variable` appends for a value of `len`
/// bytes, where the value can be encoded and that number is at most
/// `limit`.
pub fn variable_size_within(len: usize, limit: usize) -> (size: Option<usize>)
    ensures
        size matches Some(n) ==> len <= u32::MAX && n == if len <= 0xff {
            len + 2
        } else {
            len + 5
        } && n <= limit,
        size is None ==> !(len <= u32::MAX && if len <= 0xff {
            len + 2
        } else {
            len + 5
        } <= limit),
{
    let head: usize = if len <= 0xff {
        2
    } else {
        5
    };
    if len > 0xffff_ffff || limit < head || len > limit - head {
        None
    } else {
        Some(len + head)
    }
}

/// Appends a variable-width value.
pub fn put_variable(buf: &mut BytesMut, bytes: &[u8], short: u8, long: u8)
    requires
        bytes@.len() <= u32::MAX,
        buf_bytes(*old(buf)).len() + spec_encode_variable(bytes@, short, long).len() <= BUF_MAX,
    ensures
        buf_bytes(*final(buf)) == buf_bytes(*old(buf)) + spec_encode_variable(bytes@, short, long),
{
    let len: usize = bytes.len();
    if len <= 0xff {
        put_u8_u8(buf, short, len as u8);
        buf_extend(buf, bytes);
    } else {
        put_u8(buf, long);
        put_u32(buf, len as u32);
        buf_extend(buf, bytes);
    }
    assert(buf_bytes(*buf) =~= buf_bytes(*old(buf)) + spec_encode_variable(bytes@, short, long));
}

impl Encode for Binary {
    open spec fn encodable(v: Seq<u8>) -> bool {
        v.len() <= u32::MAX
    }

    open spec fn spec_encode(v: Seq<u8>) -> Seq<u8> {
        spec_encode_variable(v, FORMATCODE_BINARY8, FORMATCODE_BINARY32)
    }

    fn encoded_size(&self) -> (n: usize) {
        variable_size(self.len())
    }

    fn size_within(&self, limit: usize) -> (size: Option<usize>) {
        variable_size_within(self.len(), limit)
    }

    fn encode(&self, buf: &mut BytesMut) {
        put_variable(buf, self.as_bytes(), FORMATCODE_BINARY8, FORMATCODE_BINARY32);
    }
}

impl Encode for ByteStr {
    open spec fn encodable(v: Seq<char>) -> bool {
        encode_utf8(v).len() <= u32::MAX
    }

    open spec fn spec_encode(v: Seq<char>) -> Seq<u8> {
        spec_encode_variable(encode_utf8(v), FORMATCODE_STRING8, FORMATCODE_STRING32)
    }

    fn encoded_size(&self) -> (n: usize) {
        variable_size(self.len())
    }

    fn size_within(&self, limit: usize) -> (size: Option<usize>) {
        variable_size_within(self.len(), limit)
    }

    fn encode(&self, buf: &mut BytesMut) {
        put_variable(buf, self.as_bytes(), FORMATCODE_STRING8, FORMATCODE_STRING32);
    }
}

impl Encode for Symbol {
    open spec fn encodable(v: Seq<char>) -> bool {
        encode_utf8(v).len() <= u32::MAX
    }

    open spec fn spec_encode(v: Seq<char>) -> Seq<u8> {
        spec_encode_variable(encode_utf8(v), FORMATCODE_SYMBOL8, FORMATCODE_SYMBOL32)
    }

    fn encoded_size(&self) -> (n: usize) {
        variable_size(self.len())
    }

    fn size_within(&self, limit: usize) -> (size: Option<usize>) {
        variable_size_within(self.len(), limit)
    }

    fn encode(&self, buf: &mut BytesMut) {
        put_variable(buf, self.as_bytes(), FORMATCODE_SYMBOL8, FORMATCODE_SYMBOL32);
    }
}

impl<T: Encode> Encode for Option<T> {
    open spec fn encodable(v: Option<T::V>) -> bool {
        match v {
            Some(x) => T::encodable(x),
            None => true,
        }
    }

    open spec fn spec_encode(v: Option<T::V>) -> Seq<u8> {
        match v {
            Some(x) => T::spec_encode(x),
            None => seq![FORMATCODE_NULL],
        }
    }

    fn encoded_size(&self) -> (n: usize) {
        match self {
            Some(x) => x.encoded_size(),
            None => 1,
        }
    }

    fn size_within(&self, limit: usize) -> (size: Option<usize>) {
        match self {
            Some(x) => x.size_within(limit),
            None => if limit >= 1 {
                Some(1)
            } else {
                None
            },
        }
    }

    fn encode(&self, buf: &mut BytesMut) {
        match self {
            Some(x) => x.encode(buf),
            None => put_u8(buf, FORMATCODE_NULL),
        }
    }
}


/// A compound of `count` elements that take `content_len` bytes can be
/// encoded: both numbers fit the header's 32-bit fields, the size with the
/// four count bytes that it includes.
pub open spec fn compound_fits(content_len: nat, count: nat) -> bool {
    content_len + 4 <= u32::MAX && count <= u32::MAX
}

/// The header of a compound: the format code, the size and the count. The
/// size counts the bytes of the count field and of the elements. Where
/// both numbers fit a byte the header is the short one, under the code
/// `short`; else it is the long one, under the code `long`.
pub open spec fn spec_compound_header(content_len: nat, count: nat, short: u8, long: u8) -> Seq<u8> {
    if content_len + 1 <= 0xff && count <= 0xff {
        seq![short, (content_len + 1) as u8, count as u8]
    } else {
        seq![long] + u32_be((content_len + 4) as u32) + u32_be(count as u32)
    }
}

/// The number of bytes that the header of a compound takes.
pub fn compound_header_size(content_len: usize, count: u32) -> (n: usize)
    ensures
        n == spec_compound_header(content_len as nat, count as nat, 0, 0).len(),
        n == 3 || n == 9,
{
    if content_len < 0xff && count <= 0xff {
        3
    } else {
        9
    }
}

/// Appends the header of a compound.
pub fn put_compound_header(buf: &mut BytesMut, content_len: usize, count: u32, short: u8, long: u8)
    requires
        compound_fits(content_len as nat, count as nat),
        buf_bytes(*old(buf)).len() + spec_compound_header(
            content_len as nat,
            count as nat,
            short,
            long,
        ).len() <= BUF_MAX,
    ensures
        buf_bytes(*final(buf)) == buf_bytes(*old(buf)) + spec_compound_header(
            content_len as nat,
            count as nat,
            short,
            long,
        ),
{
    if content_len < 0xff && count <= 0xff {
        let a: [u8; 3] = [short, (content_len + 1) as u8, count as u8];
        assert(a@ =~= spec_compound_header(content_len as nat, count as nat, short, long));
        buf_extend(buf, a.as_slice());
    } else {
        put_u8(buf, long);
        put_u32(buf, (content_len + 4) as u32);
        put_u32(buf, count);
        assert(buf_bytes(*buf) =~= buf_bytes(*old(buf)) + spec_compound_header(
            content_len as nat,
            count as nat,
            short,
            long,
        ));
    }
}


/// The header of a list: the one code of the list without elements, and
/// else the header of a compound under the codes of lists.
pub open spec fn spec_list_header(content_len: nat, count: nat) -> Seq<u8> {
    if count == 0 {
        seq![FORMATCODE_LIST0]
    } else {
        spec_compound_header(content_len, count, FORMATCODE_LIST8, FORMATCODE_LIST32)
    }
}

/// The number of bytes that the header of a list takes.
pub fn list_header_size(content_len: usize, count: u32) -> (n: usize)
    ensures
        n == spec_list_header(content_len as nat, count as nat).len(),
        n == 1 || n == 3 || n == 9,
{
    if count == 0 {
        1
    } else {
        compound_header_size(content_len, count)
    }
}

/// Appends the header of a list.
pub fn put_list_header(buf: &mut BytesMut, content_len: usize, count: u32)
    requires
        compound_fits(content_len as nat, count as nat),
        buf_bytes(*old(buf)).len() + spec_list_header(content_len as nat, count as nat).len()
            <= BUF_MAX,
    ensures
        buf_bytes(*final(buf)) == buf_bytes(*old(buf)) + spec_list_header(
            content_len as nat,
            count as nat,
        ),
{
    if count == 0 {
        put_u8(buf, FORMATCODE_LIST0);
    } else {
        put_compound_header(buf, content_len, count, FORMATCODE_LIST8, FORMATCODE_LIST32);
    }
}

/// Appends the encoding of a value to `buf` where the value has one and
/// the buffer can hold it; else reports that and leaves the buffer as it
/// is. Room for the encoding is reserved before it is written.
pub fn try_encode<T: Encode>(v: &T, buf: &mut BytesMut) -> (r: Result<(), Error>)
    ensures
        r is Ok <==> T::encodable(v.deep_view()) && buf_bytes(*old(buf)).len() + T::spec_encode(
            v.deep_view(),
        ).len() <= BUF_MAX,
        r is Ok ==> buf_bytes(*final(buf)) == buf_bytes(*old(buf)) + T::spec_encode(
            v.deep_view(),
        ),
        r is Err ==> r == Err::<(), Error>(Error::Unencodable) && buf_bytes(*final(buf))
            == buf_bytes(*old(buf)),
{
    let len: usize = buf_len(buf);
    if len > BUF_MAX {
        return Err(Error::Unencodable);
    }
    match v.size_within(BUF_MAX - len) {
        Some(n) => {
            buf_reserve(buf, n);
            v.encode(buf);
            Ok(())
        },
        None => Err(Error::Unencodable),
    }
}

} // verus!
