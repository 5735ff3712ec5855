//! What holds of encoding and decoding together: every primitive value
//! comes back from its encoding, and the encoding is chosen by the value
//! alone.

use vstd::prelude::*;
use crate::errors::Error;
use crate::codec::bigendian::{
    lemma_be_u16_of_bytes, lemma_be_u32_of_bytes, lemma_be_u64_of_bytes, lemma_twos_complement,
    u16_be, u32_be, u64_be,
};
use crate::codec::decode::{spec_read_variable, spec_take};
use crate::codec::decode::spec_decode_list_header;
use crate::codec::encode::{
    compound_fits, spec_compound_header, spec_encode_variable, spec_list_header,
};
use crate::codec::{FORMATCODE_LIST0, FORMATCODE_LIST32, FORMATCODE_LIST8};
use crate::codec::decode::{spec_decode_compound32, spec_decode_compound8};
use crate::protocol::CompoundHeader;
use crate::codec::{
    spec_decode_format_code, Decode, DecodeFormatted, Encode, RoundTrip, FORMATCODE_BOOLEAN_FALSE,
    FORMATCODE_BOOLEAN_TRUE, FORMATCODE_INT, FORMATCODE_LONG, FORMATCODE_NULL,
    FORMATCODE_SMALLINT, FORMATCODE_SMALLLONG, FORMATCODE_SMALLUINT, FORMATCODE_SMALLULONG,
    FORMATCODE_UINT, FORMATCODE_UINT_0, FORMATCODE_ULONG, FORMATCODE_ULONG_0,
};
use crate::types::{Binary, ByteStr, DoubleBits, FloatBits, Null, Symbol, Timestamp, Uuid};
use vstd::utf8::{encode_utf8, encode_utf8_decode_utf8, encode_utf8_valid_utf8};

verus! {

/// Behind a format code comes the payload: reading the code leaves the
/// payload and what follows it.
pub proof fn lemma_coded(code: u8, payload: Seq<u8>, tail: Seq<u8>)
    ensures
        spec_decode_format_code((seq![code] + payload) + tail) == Ok::<(Seq<u8>, u8), Error>(
            (payload + tail, code),
        ),
{
    let all = (seq![code] + payload) + tail;
    assert(all.subrange(1, all.len() as int) =~= payload + tail);
}

/// A format code that stands for a value all by itself.
pub proof fn lemma_code_alone(code: u8, tail: Seq<u8>)
    ensures
        spec_decode_format_code(seq![code] + tail) == Ok::<(Seq<u8>, u8), Error>((tail, code)),
{
    let all = seq![code] + tail;
    assert(all.len() == tail.len() + 1);
    assert(all[0] == code);
    assert(all.subrange(1, all.len() as int) =~= tail);
}

/// A code and one byte of payload.
pub proof fn lemma_coded_byte(code: u8, b: u8, tail: Seq<u8>)
    ensures
        spec_decode_format_code(seq![code, b] + tail) == Ok::<(Seq<u8>, u8), Error>(
            (seq![b] + tail, code),
        ),
{
    assert(seq![code, b] =~= seq![code] + seq![b]);
    lemma_coded(code, seq![b], tail);
}

/// Taking as many bytes as `front` has from `front + tail` gives `front`
/// and leaves `tail`.
pub proof fn lemma_take_front(front: Seq<u8>, tail: Seq<u8>)
    requires
        front.len() <= usize::MAX,
    ensures
        spec_take(front + tail, front.len()) == Ok::<(Seq<u8>, Seq<u8>), Error>((tail, front)),
{
    let all = front + tail;
    assert(all.subrange(front.len() as int, all.len() as int) =~= tail);
    assert(all.subrange(0, front.len() as int) =~= front);
}

/// A variable-width value comes back from its encoding.
pub proof fn lemma_variable_round_trip(bytes: Seq<u8>, short: u8, long: u8, tail: Seq<u8>)
    requires
        bytes.len() <= u32::MAX,
        short != long,
    ensures
        spec_encode_variable(bytes, short, long).len() >= 1,
        spec_encode_variable(bytes, short, long)[0] == if bytes.len() <= 0xff {
            short
        } else {
            long
        },
        match spec_decode_format_code(spec_encode_variable(bytes, short, long) + tail) {
            Ok((rest, fmt)) => spec_read_variable(rest, fmt, short, long) == Ok::<
                (Seq<u8>, Seq<u8>),
                Error,
            >((tail, bytes)),
            Err(_) => false,
        },
{
    if bytes.len() <= 0xff {
        let len = bytes.len() as u8;
        assert(seq![short, len] + bytes =~= seq![short] + (seq![len] + bytes));
        lemma_coded(short, seq![len] + bytes, tail);
        let rest = (seq![len] + bytes) + tail;
        assert(rest.subrange(0, 1) =~= seq![len]);
        assert(rest.subrange(1, rest.len() as int) =~= bytes + tail);
        lemma_take_front(bytes, tail);
    } else {
        let len = bytes.len() as u32;
        assert(seq![long] + u32_be(len) + bytes =~= seq![long] + (u32_be(len) + bytes));
        lemma_coded(long, u32_be(len) + bytes, tail);
        let rest = (u32_be(len) + bytes) + tail;
        assert(rest =~= u32_be(len) + (bytes + tail));
        lemma_take_front(u32_be(len), bytes + tail);
        lemma_be_u32_of_bytes(len, Seq::empty());
        assert(u32_be(len) + Seq::<u8>::empty() =~= u32_be(len));
        lemma_take_front(bytes, tail);
    }
}

impl RoundTrip for Null {
    open spec fn round_trips(v: Null) -> bool {
        true
    }

    proof fn law_round_trip(v: Null, tail: Seq<u8>) {
        lemma_code_alone(FORMATCODE_NULL, tail);
        assert(Self::spec_encode(v) == seq![FORMATCODE_NULL]);
        assert(Self::spec_decode_with_format(tail, FORMATCODE_NULL) == Ok::<(Seq<u8>, Null), Error>(
            (tail, Null),
        ));
        assert(v == Null);
    }
}

impl RoundTrip for bool {
    open spec fn round_trips(v: bool) -> bool {
        true
    }

    proof fn law_round_trip(v: bool, tail: Seq<u8>) {
        let code = if v {
            FORMATCODE_BOOLEAN_TRUE
        } else {
            FORMATCODE_BOOLEAN_FALSE
        };
        lemma_code_alone(code, tail);
    }
}

impl RoundTrip for u8 {
    open spec fn round_trips(v: u8) -> bool {
        true
    }

    proof fn law_round_trip(v: u8, tail: Seq<u8>) {
        lemma_coded_byte(crate::codec::FORMATCODE_UBYTE, v, tail);
        lemma_take_front(seq![v], tail);
    }
}

impl RoundTrip for u16 {
    open spec fn round_trips(v: u16) -> bool {
        true
    }

    proof fn law_round_trip(v: u16, tail: Seq<u8>) {
        lemma_coded(crate::codec::FORMATCODE_USHORT, u16_be(v), tail);
        lemma_take_front(u16_be(v), tail);
        lemma_be_u16_of_bytes(v, Seq::empty());
        assert(u16_be(v) + Seq::<u8>::empty() =~= u16_be(v));
    }
}

impl RoundTrip for u32 {
    open spec fn round_trips(v: u32) -> bool {
        true
    }

    proof fn law_round_trip(v: u32, tail: Seq<u8>) {
        if v == 0 {
            lemma_code_alone(FORMATCODE_UINT_0, tail);
        } else if v <= 0xff {
            lemma_coded_byte(FORMATCODE_SMALLUINT, v as u8, tail);
            lemma_take_front(seq![v as u8], tail);
        } else {
            lemma_coded(FORMATCODE_UINT, u32_be(v), tail);
            lemma_take_front(u32_be(v), tail);
            lemma_be_u32_of_bytes(v, Seq::empty());
            assert(u32_be(v) + Seq::<u8>::empty() =~= u32_be(v));
        }
    }
}

impl RoundTrip for u64 {
    open spec fn round_trips(v: u64) -> bool {
        true
    }

    proof fn law_round_trip(v: u64, tail: Seq<u8>) {
        if v == 0 {
            lemma_code_alone(FORMATCODE_ULONG_0, tail);
        } else if v <= 0xff {
            lemma_coded_byte(FORMATCODE_SMALLULONG, v as u8, tail);
            lemma_take_front(seq![v as u8], tail);
        } else {
            lemma_coded(FORMATCODE_ULONG, u64_be(v), tail);
            lemma_take_front(u64_be(v), tail);
            lemma_be_u64_of_bytes(v, Seq::empty());
            assert(u64_be(v) + Seq::<u8>::empty() =~= u64_be(v));
        }
    }
}

impl RoundTrip for i8 {
    open spec fn round_trips(v: i8) -> bool {
        true
    }

    proof fn law_round_trip(v: i8, tail: Seq<u8>) {
        let b = crate::codec::bigendian::u8_of(v);
        lemma_coded_byte(crate::codec::FORMATCODE_BYTE, b, tail);
        lemma_take_front(seq![b], tail);
        lemma_twos_complement(0, 0, 0, 0, v, 0, 0, 0);
    }
}

impl RoundTrip for i16 {
    open spec fn round_trips(v: i16) -> bool {
        true
    }

    proof fn law_round_trip(v: i16, tail: Seq<u8>) {
        let u = crate::codec::bigendian::u16_of(v);
        lemma_coded(crate::codec::FORMATCODE_SHORT, u16_be(u), tail);
        lemma_take_front(u16_be(u), tail);
        lemma_be_u16_of_bytes(u, Seq::empty());
        assert(u16_be(u) + Seq::<u8>::empty() =~= u16_be(u));
        lemma_twos_complement(0, 0, 0, 0, 0, v, 0, 0);
    }
}

impl RoundTrip for i32 {
    open spec fn round_trips(v: i32) -> bool {
        true
    }

    proof fn law_round_trip(v: i32, tail: Seq<u8>) {
        if -0x80 <= v <= 0x7f {
            let b = crate::codec::bigendian::u8_of(v as i8);
            lemma_coded_byte(FORMATCODE_SMALLINT, b, tail);
            lemma_take_front(seq![b], tail);
            lemma_twos_complement(0, 0, 0, 0, v as i8, 0, 0, 0);
        } else {
            let u = crate::codec::bigendian::u32_of(v);
            lemma_coded(FORMATCODE_INT, u32_be(u), tail);
            lemma_take_front(u32_be(u), tail);
            lemma_be_u32_of_bytes(u, Seq::empty());
            assert(u32_be(u) + Seq::<u8>::empty() =~= u32_be(u));
            lemma_twos_complement(0, 0, 0, 0, 0, 0, v, 0);
        }
    }
}

impl RoundTrip for i64 {
    open spec fn round_trips(v: i64) -> bool {
        true
    }

    proof fn law_round_trip(v: i64, tail: Seq<u8>) {
        if -0x80 <= v <= 0x7f {
            let b = crate::codec::bigendian::u8_of(v as i8);
            lemma_coded_byte(FORMATCODE_SMALLLONG, b, tail);
            lemma_take_front(seq![b], tail);
            lemma_twos_complement(0, 0, 0, 0, v as i8, 0, 0, 0);
        } else {
            let u = crate::codec::bigendian::u64_of(v);
            lemma_coded(FORMATCODE_LONG, u64_be(u), tail);
            lemma_take_front(u64_be(u), tail);
            lemma_be_u64_of_bytes(u, Seq::empty());
            assert(u64_be(u) + Seq::<u8>::empty() =~= u64_be(u));
            lemma_twos_complement(0, 0, 0, 0, 0, 0, 0, v);
        }
    }
}

impl RoundTrip for FloatBits {
    open spec fn round_trips(v: FloatBits) -> bool {
        true
    }

    proof fn law_round_trip(v: FloatBits, tail: Seq<u8>) {
        lemma_coded(crate::codec::FORMATCODE_FLOAT, u32_be(v.0), tail);
        lemma_take_front(u32_be(v.0), tail);
        lemma_be_u32_of_bytes(v.0, Seq::empty());
        assert(u32_be(v.0) + Seq::<u8>::empty() =~= u32_be(v.0));
    }
}

impl RoundTrip for DoubleBits {
    open spec fn round_trips(v: DoubleBits) -> bool {
        true
    }

    proof fn law_round_trip(v: DoubleBits, tail: Seq<u8>) {
        lemma_coded(crate::codec::FORMATCODE_DOUBLE, u64_be(v.0), tail);
        lemma_take_front(u64_be(v.0), tail);
        lemma_be_u64_of_bytes(v.0, Seq::empty());
        assert(u64_be(v.0) + Seq::<u8>::empty() =~= u64_be(v.0));
    }
}

impl RoundTrip for char {
    open spec fn round_trips(v: char) -> bool {
        true
    }

    proof fn law_round_trip(v: char, tail: Seq<u8>) {
        let code = v as u32;
        lemma_coded(crate::codec::FORMATCODE_CHAR, u32_be(code), tail);
        lemma_take_front(u32_be(code), tail);
        lemma_be_u32_of_bytes(code, Seq::empty());
        assert(u32_be(code) + Seq::<u8>::empty() =~= u32_be(code));
        vstd::utf8::char_is_scalar(v);
        vstd::utf8::char_u32_cast(v, code);
    }
}

/// An instant of whole milliseconds is the instant of its milliseconds.
pub proof fn lemma_timestamp_of_millis(t: Timestamp)
    requires
        t.wf(),
        t.whole_millis(),
    ensures
        Timestamp::of_millis(t.millis()) == t,
{
    let sub = t.nanos as int / 1_000_000;
    assert(0 <= sub < 1000);
    assert(t.nanos as int == sub * 1_000_000);
    vstd::arithmetic::div_mod::lemma_fundamental_div_mod_converse(
        t.millis(),
        1000,
        t.seconds as int,
        sub,
    );
}

/// The instant of a number of milliseconds, also of a negative one: its
/// seconds are the number divided by a thousand and rounded down, its
/// nanoseconds count upwards from there and stay within the second, and
/// seconds and nanoseconds together give the number back. So it is an
/// instant that comes back from its encoding.
pub proof fn law_instant_of_millis(millis: i64)
    ensures
        ({
            let t = Timestamp::of_millis(millis as int);
            &&& t.seconds * 1000 <= millis < t.seconds * 1000 + 1000
            &&& t.nanos == (millis - t.seconds * 1000) * 1_000_000
            &&& t.wf()
            &&& t.whole_millis()
            &&& t.millis() == millis
            &&& <Timestamp as RoundTrip>::round_trips(t)
        }),
{
    let t = Timestamp::of_millis(millis as int);
    let q = millis as int / 1000;
    let r = millis as int % 1000;
    assert(millis == q * 1000 + r && 0 <= r < 1000);
    assert(t.seconds == q);
    assert(t.nanos == r * 1_000_000);
    assert(t.nanos as int / 1_000_000 == r);
}

impl RoundTrip for Timestamp {
    /// Instants of whole milliseconds: the wire holds no finer ones.
    open spec fn round_trips(v: Timestamp) -> bool {
        Self::encodable(v) && v.whole_millis()
    }

    proof fn law_round_trip(v: Timestamp, tail: Seq<u8>) {
        let m = v.millis() as i64;
        let u = crate::codec::bigendian::u64_of(m);
        lemma_coded(crate::codec::FORMATCODE_TIMESTAMP, u64_be(u), tail);
        lemma_take_front(u64_be(u), tail);
        lemma_be_u64_of_bytes(u, Seq::empty());
        assert(u64_be(u) + Seq::<u8>::empty() =~= u64_be(u));
        lemma_twos_complement(0, 0, 0, 0, 0, 0, 0, m);
        lemma_timestamp_of_millis(v);
    }
}

impl RoundTrip for Uuid {
    open spec fn round_trips(v: Seq<u8>) -> bool {
        v.len() == 16
    }

    proof fn law_round_trip(v: Seq<u8>, tail: Seq<u8>) {
        lemma_coded(crate::codec::FORMATCODE_UUID, v, tail);
        lemma_take_front(v, tail);
    }
}

impl RoundTrip for Binary {
    open spec fn round_trips(v: Seq<u8>) -> bool {
        Self::encodable(v)
    }

    proof fn law_round_trip(v: Seq<u8>, tail: Seq<u8>) {
        lemma_variable_round_trip(
            v,
            crate::codec::FORMATCODE_BINARY8,
            crate::codec::FORMATCODE_BINARY32,
            tail,
        );
    }
}

impl RoundTrip for ByteStr {
    open spec fn round_trips(v: Seq<char>) -> bool {
        Self::encodable(v)
    }

    proof fn law_round_trip(v: Seq<char>, tail: Seq<u8>) {
        lemma_variable_round_trip(
            encode_utf8(v),
            crate::codec::FORMATCODE_STRING8,
            crate::codec::FORMATCODE_STRING32,
            tail,
        );
        encode_utf8_valid_utf8(v);
        encode_utf8_decode_utf8(v);
    }
}

impl RoundTrip for Symbol {
    open spec fn round_trips(v: Seq<char>) -> bool {
        Self::encodable(v)
    }

    proof fn law_round_trip(v: Seq<char>, tail: Seq<u8>) {
        lemma_variable_round_trip(
            encode_utf8(v),
            crate::codec::FORMATCODE_SYMBOL8,
            crate::codec::FORMATCODE_SYMBOL32,
            tail,
        );
        encode_utf8_valid_utf8(v);
        encode_utf8_decode_utf8(v);
    }
}

impl<T: RoundTrip> RoundTrip for Option<T> {
    /// A value that is there comes back where its own encoding does not
    /// start with the null code, which stands for the value that is not.
    open spec fn round_trips(v: Option<T::V>) -> bool {
        match v {
            Some(x) => T::round_trips(x) && T::spec_encode(x)[0] != FORMATCODE_NULL,
            None => true,
        }
    }

    proof fn law_round_trip(v: Option<T::V>, tail: Seq<u8>) {
        match v {
            Some(x) => {
                T::law_round_trip(x, tail);
            },
            None => {
                lemma_code_alone(FORMATCODE_NULL, tail);
            },
        }
    }
}


/// The header of a compound is read back as the size and the count that it
/// was written for, and reading it leaves what follows it.
pub proof fn lemma_compound_header_round_trip(
    content_len: nat,
    count: nat,
    short: u8,
    long: u8,
    tail: Seq<u8>,
)
    requires
        compound_fits(content_len, count),
    ensures
        ({
            let header = spec_compound_header(content_len, count, short, long);
            let is_short = content_len + 1 <= 0xff && count <= 0xff;
            let read = CompoundHeader { size: content_len as u32, count: count as u32 };
            &&& header.len() >= 1
            &&& header[0] == if is_short {
                short
            } else {
                long
            }
            &&& match spec_decode_format_code(header + tail) {
                Ok((rest, _)) => if is_short {
                    spec_decode_compound8(rest) == Ok::<(Seq<u8>, CompoundHeader), Error>(
                        (tail, read),
                    )
                } else {
                    spec_decode_compound32(rest) == Ok::<(Seq<u8>, CompoundHeader), Error>(
                        (tail, read),
                    )
                },
                Err(_) => false,
            }
        }),
{
    let header = spec_compound_header(content_len, count, short, long);
    if content_len + 1 <= 0xff && count <= 0xff {
        let size = (content_len + 1) as u8;
        let n = count as u8;
        assert(header =~= seq![short] + seq![size, n]);
        lemma_coded(short, seq![size, n], tail);
        lemma_take_front(seq![size, n], tail);
    } else {
        let size = (content_len + 4) as u32;
        let n = count as u32;
        let fields = u32_be(size) + u32_be(n);
        assert(header =~= seq![long] + fields);
        lemma_coded(long, fields, tail);
        lemma_take_front(fields, tail);
        assert(fields.subrange(0, 4) =~= u32_be(size));
        assert(fields.subrange(4, 8) =~= u32_be(n));
        lemma_be_u32_of_bytes(size, Seq::empty());
        lemma_be_u32_of_bytes(n, Seq::empty());
        assert(u32_be(size) + Seq::<u8>::empty() =~= u32_be(size));
        assert(u32_be(n) + Seq::<u8>::empty() =~= u32_be(n));
    }
}


/// Two values with the same model have the same encoding: the bytes, and
/// with them the format code, are chosen by the value alone.
pub proof fn law_encoding_is_determined<T: Encode>(a: T, b: T)
    requires
        a.deep_view() == b.deep_view(),
    ensures
        T::spec_encode(a.deep_view()) == T::spec_encode(b.deep_view()),
{
}

/// The format code of a number: the code without a payload for zero, the
/// code with one byte for what fits a byte, and the full width for the
/// rest. Signed numbers have no code for zero.
pub proof fn law_canonical_codes(a: u32, b: u64, c: i32, d: i64, e: bool)
    ensures
        <u32 as Encode>::spec_encode(a)[0] == if a == 0 {
            FORMATCODE_UINT_0
        } else if a <= 0xff {
            FORMATCODE_SMALLUINT
        } else {
            FORMATCODE_UINT
        },
        <u64 as Encode>::spec_encode(b)[0] == if b == 0 {
            FORMATCODE_ULONG_0
        } else if b <= 0xff {
            FORMATCODE_SMALLULONG
        } else {
            FORMATCODE_ULONG
        },
        <i32 as Encode>::spec_encode(c)[0] == if -0x80 <= c <= 0x7f {
            FORMATCODE_SMALLINT
        } else {
            FORMATCODE_INT
        },
        <i64 as Encode>::spec_encode(d)[0] == if -0x80 <= d <= 0x7f {
            FORMATCODE_SMALLLONG
        } else {
            FORMATCODE_LONG
        },
        <bool as Encode>::spec_encode(e)[0] == if e {
            FORMATCODE_BOOLEAN_TRUE
        } else {
            FORMATCODE_BOOLEAN_FALSE
        },
{
}

/// No bytes that decode to a number are fewer than those of its encoding.
pub proof fn law_shortest_number(input: Seq<u8>)
    ensures
        <u32 as Decode>::spec_decode(input) matches Ok((rest, v)) ==> <u32 as Encode>::spec_encode(
            v,
        ).len() + rest.len() <= input.len(),
        <u64 as Decode>::spec_decode(input) matches Ok((rest, v)) ==> <u64 as Encode>::spec_encode(
            v,
        ).len() + rest.len() <= input.len(),
        <i32 as Decode>::spec_decode(input) matches Ok((rest, v)) ==> <i32 as Encode>::spec_encode(
            v,
        ).len() + rest.len() <= input.len(),
        <i64 as Decode>::spec_decode(input) matches Ok((rest, v)) ==> <i64 as Encode>::spec_encode(
            v,
        ).len() + rest.len() <= input.len(),
        <bool as Decode>::spec_decode(input) matches Ok((rest, v))
            ==> <bool as Encode>::spec_encode(v).len() + rest.len() <= input.len(),
{
    if input.len() >= 1 {
        let payload = input.subrange(1, input.len() as int);
        if payload.len() >= 4 {
            let v = crate::codec::bigendian::be_u32(payload.subrange(0, 4));
            assert(<u32 as Encode>::spec_encode(v).len() <= 5);
            assert(<i32 as Encode>::spec_encode(crate::codec::bigendian::i32_of(v)).len() <= 5);
        }
        if payload.len() >= 8 {
            let v = crate::codec::bigendian::be_u64(payload.subrange(0, 8));
            assert(<u64 as Encode>::spec_encode(v).len() <= 9);
            assert(<i64 as Encode>::spec_encode(crate::codec::bigendian::i64_of(v)).len() <= 9);
        }
    }
}

/// No bytes that decode to binary data, to a string or to a symbol are
/// fewer than those of its encoding: the one-byte length is taken where
/// the payload has at most 255 bytes.
pub proof fn law_shortest_variable(input: Seq<u8>)
    ensures
        <Binary as Decode>::spec_decode(input) matches Ok((rest, v))
            ==> <Binary as Encode>::spec_encode(v).len() + rest.len() <= input.len(),
        <ByteStr as Decode>::spec_decode(input) matches Ok((rest, v))
            ==> <ByteStr as Encode>::spec_encode(v).len() + rest.len() <= input.len(),
        <Symbol as Decode>::spec_decode(input) matches Ok((rest, v))
            ==> <Symbol as Encode>::spec_encode(v).len() + rest.len() <= input.len(),
{
    if let Ok((rest, v)) = <ByteStr as Decode>::spec_decode(input) {
        let fmt = input[0];
        let payload = input.subrange(1, input.len() as int);
        let bytes = spec_read_variable(
            payload,
            fmt,
            crate::codec::FORMATCODE_STRING8,
            crate::codec::FORMATCODE_STRING32,
        )->Ok_0.1;
        vstd::utf8::decode_utf8_encode_utf8(bytes);
    }
    if let Ok((rest, v)) = <Symbol as Decode>::spec_decode(input) {
        let fmt = input[0];
        let payload = input.subrange(1, input.len() as int);
        let bytes = spec_read_variable(
            payload,
            fmt,
            crate::codec::FORMATCODE_SYMBOL8,
            crate::codec::FORMATCODE_SYMBOL32,
        )->Ok_0.1;
        vstd::utf8::decode_utf8_encode_utf8(bytes);
    }
}


/// The header of a list is read back as the size and the count that it
/// was written for, and reading it leaves what follows it. A list without
/// elements has no bytes for them.
pub proof fn lemma_list_header_round_trip(content_len: nat, count: nat, tail: Seq<u8>)
    requires
        compound_fits(content_len, count),
        count == 0 ==> content_len == 0,
    ensures
        spec_list_header(content_len, count).len() >= 1,
        spec_list_header(content_len, count)[0] == FORMATCODE_LIST0 || spec_list_header(
            content_len,
            count,
        )[0] == FORMATCODE_LIST8 || spec_list_header(content_len, count)[0] == FORMATCODE_LIST32,
        match spec_decode_format_code(spec_list_header(content_len, count) + tail) {
            Ok((rest, fmt)) => spec_decode_list_header(rest, fmt) == Ok::<
                (Seq<u8>, CompoundHeader),
                Error,
            >((tail, CompoundHeader { size: content_len as u32, count: count as u32 })),
            Err(_) => false,
        },
{
    if count == 0 {
        lemma_code_alone(FORMATCODE_LIST0, tail);
    } else {
        lemma_compound_header_round_trip(
            content_len,
            count,
            FORMATCODE_LIST8,
            FORMATCODE_LIST32,
            tail,
        );
    }
}

} // verus!
