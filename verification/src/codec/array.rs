//! Arrays: sequences of values of one type, which share one format code.

use vstd::prelude::*;
use bytes::BytesMut;
use crate::buffer::{buf_bytes, buf_extend, BUF_MAX};
use crate::errors::Error;
use crate::codec::bigendian::{lemma_be_u16_of_bytes, lemma_be_u32_of_bytes, lemma_be_u64_of_bytes, u16_be, u32_be, u64_be};
use crate::codec::decode::{spec_decode_array, spec_decode_items};
use crate::codec::encode::{
    compound_fits, compound_header_size, put_compound_header, put_u16, put_u32, put_u64, put_u8,
    spec_compound_header,
};
use crate::codec::laws::{lemma_coded, lemma_compound_header_round_trip, lemma_take_front};
use crate::codec::{
    spec_decode_format_code, ArrayEncode, ArrayRoundTrip, Decode, DecodeFormatted, Encode,
    RoundTrip, FORMATCODE_ARRAY32, FORMATCODE_ARRAY8, FORMATCODE_BINARY32, FORMATCODE_STRING32,
    FORMATCODE_SYMBOL32, FORMATCODE_UBYTE, FORMATCODE_UINT, FORMATCODE_ULONG, FORMATCODE_USHORT,
};
use crate::types::{Binary, ByteStr, Multiple, Symbol};
use vstd::utf8::{encode_utf8, encode_utf8_decode_utf8, encode_utf8_valid_utf8};

verus! {

impl ArrayEncode for u8 {
    const ARRAY_FORMAT_CODE: u8 = FORMATCODE_UBYTE;

    open spec fn array_encodable(v: u8) -> bool {
        true
    }

    open spec fn spec_array_encode(v: u8) -> Seq<u8> {
        seq![v]
    }

    fn array_encoded_size(&self) -> (n: usize) {
        1
    }

    fn array_size_within(&self, limit: usize) -> (size: Option<usize>) {
        let n = self.array_encoded_size();
        if n <= limit {
            Some(n)
        } else {
            None
        }
    }

    fn array_encode(&self, buf: &mut BytesMut) {
        put_u8(buf, *self);
    }
}

impl ArrayRoundTrip for u8 {
    proof fn law_array_round_trip(v: u8, tail: Seq<u8>) {
        lemma_take_front(seq![v], tail);
    }
}

impl ArrayEncode for u16 {
    const ARRAY_FORMAT_CODE: u8 = FORMATCODE_USHORT;

    open spec fn array_encodable(v: u16) -> bool {
        true
    }

    open spec fn spec_array_encode(v: u16) -> Seq<u8> {
        u16_be(v)
    }

    fn array_encoded_size(&self) -> (n: usize) {
        2
    }

    fn array_size_within(&self, limit: usize) -> (size: Option<usize>) {
        let n = self.array_encoded_size();
        if n <= limit {
            Some(n)
        } else {
            None
        }
    }

    fn array_encode(&self, buf: &mut BytesMut) {
        put_u16(buf, *self);
    }
}

impl ArrayRoundTrip for u16 {
    proof fn law_array_round_trip(v: u16, tail: Seq<u8>) {
        lemma_take_front(u16_be(v), tail);
        lemma_be_u16_of_bytes(v, Seq::empty());
        assert(u16_be(v) + Seq::<u8>::empty() =~= u16_be(v));
    }
}

impl ArrayEncode for u32 {
    const ARRAY_FORMAT_CODE: u8 = FORMATCODE_UINT;

    open spec fn array_encodable(v: u32) -> bool {
        true
    }

    open spec fn spec_array_encode(v: u32) -> Seq<u8> {
        u32_be(v)
    }

    fn array_encoded_size(&self) -> (n: usize) {
        4
    }

    fn array_size_within(&self, limit: usize) -> (size: Option<usize>) {
        let n = self.array_encoded_size();
        if n <= limit {
            Some(n)
        } else {
            None
        }
    }

    fn array_encode(&self, buf: &mut BytesMut) {
        put_u32(buf, *self);
    }
}

impl ArrayRoundTrip for u32 {
    proof fn law_array_round_trip(v: u32, tail: Seq<u8>) {
        lemma_take_front(u32_be(v), tail);
        lemma_be_u32_of_bytes(v, Seq::empty());
        assert(u32_be(v) + Seq::<u8>::empty() =~= u32_be(v));
    }
}

impl ArrayEncode for u64 {
    const ARRAY_FORMAT_CODE: u8 = FORMATCODE_ULONG;

    open spec fn array_encodable(v: u64) -> bool {
        true
    }

    open spec fn spec_array_encode(v: u64) -> Seq<u8> {
        u64_be(v)
    }

    fn array_encoded_size(&self) -> (n: usize) {
        8
    }

    fn array_size_within(&self, limit: usize) -> (size: Option<usize>) {
        let n = self.array_encoded_size();
        if n <= limit {
            Some(n)
        } else {
            None
        }
    }

    fn array_encode(&self, buf: &mut BytesMut) {
        put_u64(buf, *self);
    }
}

impl ArrayRoundTrip for u64 {
    proof fn law_array_round_trip(v: u64, tail: Seq<u8>) {
        lemma_take_front(u64_be(v), tail);
        lemma_be_u64_of_bytes(v, Seq::empty());
        assert(u64_be(v) + Seq::<u8>::empty() =~= u64_be(v));
    }
}

/// A variable-width value behind its four-byte length.
pub open spec fn spec_encode_long(bytes: Seq<u8>) -> Seq<u8> {
    u32_be(bytes.len() as u32) + bytes
}

/// The number of bytes that `put_long` appends for a value of `len` bytes,
/// where the value can be encoded and that number is at most `limit`.
pub fn long_size_within(len: usize, limit: usize) -> (size: Option<usize>)
    ensures
        size matches Some(n) ==> len <= u32::MAX && n == len + 4 && n <= limit,
        size is None ==> !(len <= u32::MAX && len + 4 <= limit),
{
    if len > 0xffff_ffff || limit < 4 || len > limit - 4 {
        None
    } else {
        Some(len + 4)
    }
}

/// Appends a variable-width value behind its four-byte length.
pub fn put_long(buf: &mut BytesMut, bytes: &[u8])
    requires
        bytes@.len() <= u32::MAX,
        buf_bytes(*old(buf)).len() + 4 + bytes@.len() <= BUF_MAX,
    ensures
        buf_bytes(*final(buf)) == buf_bytes(*old(buf)) + spec_encode_long(bytes@),
{
    put_u32(buf, bytes.len() as u32);
    buf_extend(buf, bytes);
    assert(buf_bytes(*buf) =~= buf_bytes(*old(buf)) + spec_encode_long(bytes@));
}

/// A value behind its four-byte length is read back with that length.
pub proof fn lemma_long_round_trip(bytes: Seq<u8>, tail: Seq<u8>)
    requires
        bytes.len() <= u32::MAX,
    ensures
        crate::codec::decode::spec_read_bytes_u32(spec_encode_long(bytes) + tail) == Ok::<
            (Seq<u8>, Seq<u8>),
            Error,
        >((tail, bytes)),
{
    let len = bytes.len() as u32;
    assert(spec_encode_long(bytes) + tail =~= u32_be(len) + (bytes + tail));
    lemma_take_front(u32_be(len), bytes + tail);
    lemma_be_u32_of_bytes(len, Seq::empty());
    assert(u32_be(len) + Seq::<u8>::empty() =~= u32_be(len));
    lemma_take_front(bytes, tail);
}

impl ArrayEncode for Binary {
    const ARRAY_FORMAT_CODE: u8 = FORMATCODE_BINARY32;

    open spec fn array_encodable(v: Seq<u8>) -> bool {
        v.len() <= u32::MAX
    }

    open spec fn spec_array_encode(v: Seq<u8>) -> Seq<u8> {
        spec_encode_long(v)
    }

    fn array_encoded_size(&self) -> (n: usize) {
        4 + self.len()
    }

    fn array_size_within(&self, limit: usize) -> (size: Option<usize>) {
        long_size_within(self.len(), limit)
    }

    fn array_encode(&self, buf: &mut BytesMut) {
        put_long(buf, self.as_bytes());
    }
}

impl ArrayRoundTrip for Binary {
    proof fn law_array_round_trip(v: Seq<u8>, tail: Seq<u8>) {
        lemma_long_round_trip(v, tail);
    }
}

impl ArrayEncode for ByteStr {
    const ARRAY_FORMAT_CODE: u8 = FORMATCODE_STRING32;

    open spec fn array_encodable(v: Seq<char>) -> bool {
        encode_utf8(v).len() <= u32::MAX
    }

    open spec fn spec_array_encode(v: Seq<char>) -> Seq<u8> {
        spec_encode_long(encode_utf8(v))
    }

    fn array_encoded_size(&self) -> (n: usize) {
        4 + self.len()
    }

    fn array_size_within(&self, limit: usize) -> (size: Option<usize>) {
        long_size_within(self.len(), limit)
    }

    fn array_encode(&self, buf: &mut BytesMut) {
        put_long(buf, self.as_bytes());
    }
}

impl ArrayRoundTrip for ByteStr {
    proof fn law_array_round_trip(v: Seq<char>, tail: Seq<u8>) {
        lemma_long_round_trip(encode_utf8(v), tail);
        encode_utf8_valid_utf8(v);
        encode_utf8_decode_utf8(v);
    }
}

impl ArrayEncode for Symbol {
    const ARRAY_FORMAT_CODE: u8 = FORMATCODE_SYMBOL32;

    open spec fn array_encodable(v: Seq<char>) -> bool {
        encode_utf8(v).len() <= u32::MAX
    }

    open spec fn spec_array_encode(v: Seq<char>) -> Seq<u8> {
        spec_encode_long(encode_utf8(v))
    }

    fn array_encoded_size(&self) -> (n: usize) {
        4 + self.len()
    }

    fn array_size_within(&self, limit: usize) -> (size: Option<usize>) {
        long_size_within(self.len(), limit)
    }

    fn array_encode(&self, buf: &mut BytesMut) {
        put_long(buf, self.as_bytes());
    }
}

impl ArrayRoundTrip for Symbol {
    proof fn law_array_round_trip(v: Seq<char>, tail: Seq<u8>) {
        lemma_long_round_trip(encode_utf8(v), tail);
        encode_utf8_valid_utf8(v);
        encode_utf8_decode_utf8(v);
    }
}


/// The elements of an array in a row, first to last.
pub open spec fn spec_encode_items<T: ArrayEncode>(items: Seq<T::V>) -> Seq<u8>
    decreases items.len(),
{
    if items.len() == 0 {
        Seq::empty()
    } else {
        spec_encode_items::<T>(items.drop_last()) + T::spec_array_encode(items.last())
    }
}

/// Every element can stand in an array.
pub open spec fn items_encodable<T: ArrayEncode>(items: Seq<T::V>) -> bool {
    forall|i: int| 0 <= i < items.len() ==> T::array_encodable(#[trigger] items[i])
}

/// The arrays that have an encoding: their elements have one, and it
/// fits the header together with the format code of the elements.
pub open spec fn array_encodable<T: ArrayEncode>(items: Seq<T::V>) -> bool {
    items_encodable::<T>(items) && compound_fits(
        1 + spec_encode_items::<T>(items).len(),
        items.len(),
    )
}

/// The bytes that stand for an array: the header, the format code of the
/// elements, and the elements.
pub open spec fn spec_encode_array<T: ArrayEncode>(items: Seq<T::V>) -> Seq<u8> {
    spec_compound_header(
        1 + spec_encode_items::<T>(items).len(),
        items.len(),
        FORMATCODE_ARRAY8,
        FORMATCODE_ARRAY32,
    ) + seq![T::ARRAY_FORMAT_CODE] + spec_encode_items::<T>(items)
}

/// The encoding of the first `i + 1` elements is that of the first `i`
/// and of one element more, and no longer than that of all.
pub proof fn lemma_items_prefix<T: ArrayEncode>(items: Seq<T::V>, i: int)
    requires
        0 <= i < items.len(),
    ensures
        spec_encode_items::<T>(items.take(i + 1)) == spec_encode_items::<T>(items.take(i))
            + T::spec_array_encode(items[i]),
        spec_encode_items::<T>(items.take(i + 1)).len() <= spec_encode_items::<T>(items).len(),
    decreases items.len(),
{
    let front = items.drop_last();
    if i == items.len() - 1 {
        assert(items.take(i + 1) =~= items);
        assert(items.take(i) =~= front);
    } else {
        lemma_items_prefix::<T>(front, i);
        assert(front.take(i) =~= items.take(i));
        assert(front.take(i + 1) =~= items.take(i + 1));
    }
}

/// The number of bytes that the elements of an array take.
pub fn items_encoded_size<T: ArrayEncode>(items: &Vec<T>) -> (n: usize)
    requires
        items_encodable::<T>(items.deep_view()),
        spec_encode_items::<T>(items.deep_view()).len() <= usize::MAX,
    ensures
        n == spec_encode_items::<T>(items.deep_view()).len(),
{
    let ghost all = items.deep_view();
    let mut n: usize = 0;
    let mut i: usize = 0;
    assert(all.take(0) =~= Seq::empty());
    while i < items.len()
        invariant
            i <= items.len(),
            all == items.deep_view(),
            all.len() == items.len(),
            items_encodable::<T>(all),
            spec_encode_items::<T>(all).len() <= usize::MAX,
            n == spec_encode_items::<T>(all.take(i as int)).len(),
        decreases items.len() - i,
    {
        proof {
            lemma_items_prefix::<T>(all, i as int);
            assert(all[i as int] == items[i as int].deep_view());
        }
        let size = items[i].array_encoded_size();
        n = n + size;
        i = i + 1;
    }
    assert(all.take(i as int) =~= all);
    n
}

/// The number of bytes that the elements of an array take, where every
/// element can stand in an array and they take at most `limit` bytes.
pub fn items_size_within<T: ArrayEncode>(items: &Vec<T>, limit: usize) -> (size: Option<usize>)
    ensures
        size matches Some(n) ==> items_encodable::<T>(items.deep_view()) && n
            == spec_encode_items::<T>(items.deep_view()).len() && n <= limit,
        size is None ==> !(items_encodable::<T>(items.deep_view()) && spec_encode_items::<T>(
            items.deep_view(),
        ).len() <= limit),
{
    let ghost all = items.deep_view();
    let mut n: usize = 0;
    let mut i: usize = 0;
    assert(all.take(0) =~= Seq::empty());
    while i < items.len()
        invariant
            i <= items.len(),
            all == items.deep_view(),
            all.len() == items.len(),
            n <= limit,
            n == spec_encode_items::<T>(all.take(i as int)).len(),
            forall|j: int| 0 <= j < i ==> T::array_encodable(#[trigger] all[j]),
        decreases items.len() - i,
    {
        proof {
            lemma_items_prefix::<T>(all, i as int);
            assert(all[i as int] == items[i as int].deep_view());
        }
        match items[i].array_size_within(limit - n) {
            Some(size) => {
                n = n + size;
            },
            None => {
                return None;
            },
        }
        i = i + 1;
    }
    assert(all.take(i as int) =~= all);
    Some(n)
}

/// The number of bytes that `encode_array` appends, where the array has
/// an encoding and it takes at most `limit` bytes.
pub fn array_size_within<T: ArrayEncode>(items: &Vec<T>, limit: usize) -> (size: Option<usize>)
    ensures
        size matches Some(n) ==> array_encodable::<T>(items.deep_view()) && n
            == spec_encode_array::<T>(items.deep_view()).len() && n <= limit,
        size is None ==> !(array_encodable::<T>(items.deep_view()) && spec_encode_array::<T>(
            items.deep_view(),
        ).len() <= limit),
{
    let count: usize = items.len();
    if count > 0xffff_ffff {
        return None;
    }
    let most: usize = if limit < 0xffff_fffa {
        limit
    } else {
        0xffff_fffa
    };
    match items_size_within::<T>(items, most) {
        Some(n) => {
            if n >= limit {
                return None;
            }
            let content_len: usize = n + 1;
            let header: usize = compound_header_size(content_len, count as u32);
            if limit - content_len < header {
                None
            } else {
                Some(content_len + header)
            }
        },
        None => None,
    }
}

/// The number of bytes that `encode_array` appends.
pub fn array_encoded_size<T: ArrayEncode>(items: &Vec<T>) -> (n: usize)
    requires
        array_encodable::<T>(items.deep_view()),
        spec_encode_array::<T>(items.deep_view()).len() <= usize::MAX,
    ensures
        n == spec_encode_array::<T>(items.deep_view()).len(),
{
    let content_len = 1 + items_encoded_size::<T>(items);
    let count: u32 = items.len() as u32;
    compound_header_size(content_len, count) + content_len
}

/// Appends the encoding of an array.
pub fn encode_array<T: ArrayEncode>(items: &Vec<T>, buf: &mut BytesMut)
    requires
        array_encodable::<T>(items.deep_view()),
        buf_bytes(*old(buf)).len() + spec_encode_array::<T>(items.deep_view()).len() <= BUF_MAX,
    ensures
        buf_bytes(*final(buf)) == buf_bytes(*old(buf)) + spec_encode_array::<T>(items.deep_view()),
{
    let ghost all = items.deep_view();
    let content_len = 1 + items_encoded_size::<T>(items);
    let count: u32 = items.len() as u32;
    put_compound_header(buf, content_len, count, FORMATCODE_ARRAY8, FORMATCODE_ARRAY32);
    put_u8(buf, T::ARRAY_FORMAT_CODE);
    let ghost start = buf_bytes(*buf);
    let mut i: usize = 0;
    assert(all.take(0) =~= Seq::empty());
    assert(start + Seq::<u8>::empty() =~= start);
    while i < items.len()
        invariant
            i <= items.len(),
            all == items.deep_view(),
            all.len() == items.len(),
            items_encodable::<T>(all),
            start.len() + spec_encode_items::<T>(all).len() <= BUF_MAX,
            buf_bytes(*buf) == start + spec_encode_items::<T>(all.take(i as int)),
        decreases items.len() - i,
    {
        proof {
            lemma_items_prefix::<T>(all, i as int);
            assert(all[i as int] == items[i as int].deep_view());
        }
        items[i].array_encode(buf);
        assert(buf_bytes(*buf) =~= start + spec_encode_items::<T>(all.take(i + 1)));
        i = i + 1;
    }
    assert(all.take(i as int) =~= all);
    assert(buf_bytes(*buf) =~= buf_bytes(*old(buf)) + spec_encode_array::<T>(all));
}

impl<T: ArrayEncode> Encode for Vec<T> {
    open spec fn encodable(v: Seq<T::V>) -> bool {
        array_encodable::<T>(v)
    }

    open spec fn spec_encode(v: Seq<T::V>) -> Seq<u8> {
        spec_encode_array::<T>(v)
    }

    fn encoded_size(&self) -> (n: usize) {
        array_encoded_size::<T>(self)
    }

    fn size_within(&self, limit: usize) -> (size: Option<usize>) {
        array_size_within::<T>(self, limit)
    }

    fn encode(&self, buf: &mut BytesMut) {
        encode_array::<T>(self, buf)
    }
}

/// The elements of an array come back from their bytes.
pub proof fn lemma_items_round_trip<T: ArrayRoundTrip>(items: Seq<T::V>, tail: Seq<u8>)
    requires
        items_encodable::<T>(items),
    ensures
        spec_decode_items::<T>(
            spec_encode_items::<T>(items) + tail,
            T::ARRAY_FORMAT_CODE,
            items.len(),
        ) == Ok::<(Seq<u8>, Seq<T::V>), Error>((tail, items)),
    decreases items.len(),
{
    let input = spec_encode_items::<T>(items) + tail;
    if items.len() == 0 {
        assert(input =~= tail);
        assert(items =~= Seq::<T::V>::empty());
    } else {
        let front = items.drop_last();
        let last = items.last();
        let after_front = T::spec_array_encode(last) + tail;
        assert(input =~= spec_encode_items::<T>(front) + after_front);
        lemma_items_round_trip::<T>(front, after_front);
        T::law_array_round_trip(last, tail);
        assert(front.push(last) =~= items);
    }
}

/// An array comes back from its encoding.
pub proof fn lemma_array_round_trip<T: ArrayRoundTrip>(items: Seq<T::V>, tail: Seq<u8>)
    requires
        array_encodable::<T>(items),
    ensures
        spec_encode_array::<T>(items).len() >= 1,
        spec_encode_array::<T>(items)[0] == FORMATCODE_ARRAY8 || spec_encode_array::<T>(items)[0]
            == FORMATCODE_ARRAY32,
        match spec_decode_format_code(spec_encode_array::<T>(items) + tail) {
            Ok((rest, fmt)) => spec_decode_array::<T>(rest, fmt) == Ok::<
                (Seq<u8>, Seq<T::V>),
                Error,
            >((tail, items)),
            Err(_) => false,
        },
{
    let elements = spec_encode_items::<T>(items);
    let content = seq![T::ARRAY_FORMAT_CODE] + elements;
    let header = spec_compound_header(
        content.len(),
        items.len(),
        FORMATCODE_ARRAY8,
        FORMATCODE_ARRAY32,
    );
    assert(spec_encode_array::<T>(items) + tail =~= header + (content + tail));
    lemma_compound_header_round_trip(
        content.len(),
        items.len(),
        FORMATCODE_ARRAY8,
        FORMATCODE_ARRAY32,
        content + tail,
    );
    lemma_take_front(content, tail);
    assert(content.subrange(0, 1) =~= seq![T::ARRAY_FORMAT_CODE]);
    assert(content.subrange(1, content.len() as int) =~= elements);
    lemma_items_round_trip::<T>(items, Seq::empty());
    assert(elements + Seq::<u8>::empty() =~= elements);
}

impl<T: ArrayRoundTrip> RoundTrip for Vec<T> {
    open spec fn round_trips(v: Seq<T::V>) -> bool {
        array_encodable::<T>(v)
    }

    proof fn law_round_trip(v: Seq<T::V>, tail: Seq<u8>) {
        lemma_array_round_trip::<T>(v, tail);
    }
}

impl<T: ArrayEncode + Encode> Encode for Multiple<T> {
    /// One item alone is encoded as itself, any other number of items as
    /// an array.
    open spec fn encodable(v: Seq<T::V>) -> bool {
        if v.len() == 1 {
            <T as Encode>::encodable(v[0])
        } else {
            array_encodable::<T>(v)
        }
    }

    open spec fn spec_encode(v: Seq<T::V>) -> Seq<u8> {
        if v.len() == 1 {
            <T as Encode>::spec_encode(v[0])
        } else {
            spec_encode_array::<T>(v)
        }
    }

    fn encoded_size(&self) -> (n: usize) {
        if self.0.len() == 1 {
            self.0[0].encoded_size()
        } else {
            array_encoded_size::<T>(&self.0)
        }
    }

    fn size_within(&self, limit: usize) -> (size: Option<usize>) {
        if self.0.len() == 1 {
            self.0[0].size_within(limit)
        } else {
            array_size_within::<T>(&self.0, limit)
        }
    }

    fn encode(&self, buf: &mut BytesMut) {
        if self.0.len() == 1 {
            self.0[0].encode(buf)
        } else {
            encode_array::<T>(&self.0, buf)
        }
    }
}

impl<T: ArrayRoundTrip + RoundTrip> RoundTrip for Multiple<T> {
    /// One item alone comes back where its own encoding does not start
    /// with the code of an array.
    open spec fn round_trips(v: Seq<T::V>) -> bool {
        if v.len() == 1 {
            <T as RoundTrip>::round_trips(v[0]) && <T as Encode>::spec_encode(v[0])[0]
                != FORMATCODE_ARRAY8 && <T as Encode>::spec_encode(v[0])[0] != FORMATCODE_ARRAY32
        } else {
            array_encodable::<T>(v)
        }
    }

    proof fn law_round_trip(v: Seq<T::V>, tail: Seq<u8>) {
        if v.len() == 1 {
            <T as RoundTrip>::law_round_trip(v[0], tail);
            assert(seq![v[0]] =~= v);
        } else {
            lemma_array_round_trip::<T>(v, tail);
        }
    }
}

} // verus!
