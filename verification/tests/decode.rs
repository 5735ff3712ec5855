use amqp1::codec::{Decode, Encode};
use amqp1::errors::Error;
use amqp1::types::{
    Binary, ByteStr, DoubleBits, FloatBits, Null, Symbol, Timestamp, Uuid, Variant,
};
use bytes::{BufMut, BytesMut};
use chrono::{DateTime, TimeZone, Utc};

const LOREM: &str = "Lorem ipsum dolor sit amet, consectetur adipiscing elit, sed do eiusmod \
tempor incididunt ut labore et dolore magna aliqua. Ut enim ad minim veniam, quis nostrud \
exercitation ullamco laboris nisi ut aliquip ex ea commodo consequat. Duis aute irure dolor in \
reprehenderit in voluptate velit esse cillum dolore eu fugiat nulla pariatur. Excepteur sint \
occaecat cupidatat non proident, sunt in culpa qui officia deserunt mollit anim id est laborum.";

fn empty() -> &'static [u8] {
    &[]
}

fn instant(datetime: DateTime<Utc>) -> Timestamp {
    Timestamp { seconds: datetime.timestamp(), nanos: datetime.timestamp_subsec_nanos() }
}

#[test]
fn test_null() {
    let mut b = BytesMut::with_capacity(0);
    Null.encode(&mut b);
    let t = Null::decode(&b);
    assert_eq!(Ok((empty(), Null)), t);
}

#[test]
fn test_bool_true() {
    let b1 = &mut BytesMut::with_capacity(0);
    b1.put_u8(0x41);
    assert_eq!(Ok((empty(), true)), bool::decode(b1));

    let b2 = &mut BytesMut::with_capacity(0);
    b2.put_u8(0x56);
    b2.put_u8(0x01);
    assert_eq!(Ok((empty(), true)), bool::decode(b2));
}

#[test]
fn test_bool_false() {
    let b1 = &mut BytesMut::with_capacity(0);
    b1.put_u8(0x42u8);
    assert_eq!(Ok((empty(), false)), bool::decode(b1));

    let b2 = &mut BytesMut::with_capacity(0);
    b2.put_u8(0x56);
    b2.put_u8(0x00);
    assert_eq!(Ok((empty(), false)), bool::decode(b2));
}

/// UTC with a precision of milliseconds. For example, 1311704463521
/// represents the moment 2011-07-26T18:21:03.521Z.
#[test]
fn test_timestamp() {
    let b1 = &mut BytesMut::with_capacity(0);
    let datetime = Utc.ymd(2011, 7, 26).and_hms_milli(18, 21, 3, 521);
    instant(datetime).encode(b1);
    assert_eq!(&b1[..], &[0x83, 0x00, 0x00, 0x01, 0x31, 0x67, 0xad, 0xb8, 0xa1][..]);

    let expected = Utc.ymd(2011, 7, 26).and_hms_milli(18, 21, 3, 521);
    assert_eq!(Ok((empty(), instant(expected))), Timestamp::decode(b1));
}

#[test]
fn test_timestamp_pre_unix() {
    let b1 = &mut BytesMut::with_capacity(0);
    let datetime = Utc.ymd(1968, 7, 26).and_hms_milli(18, 21, 3, 521);
    instant(datetime).encode(b1);
    assert_eq!(&b1[..], &[0x83, 0xff, 0xff, 0xff, 0xf5, 0x79, 0x6b, 0xbc, 0xa1][..]);

    let expected = Utc.ymd(1968, 7, 26).and_hms_milli(18, 21, 3, 521);
    assert_eq!(Ok((empty(), instant(expected))), Timestamp::decode(b1));
}

#[test]
fn variant_null() {
    let mut b = BytesMut::with_capacity(0);
    Variant::Null.encode(&mut b);
    let t = Variant::decode(&b);
    assert_eq!(Ok((empty(), Variant::Null)), t);
}

#[test]
fn variant_bool_true() {
    let b1 = &mut BytesMut::with_capacity(0);
    b1.put_u8(0x41);
    assert_eq!(Ok((empty(), Variant::Boolean(true))), Variant::decode(b1));

    let b2 = &mut BytesMut::with_capacity(0);
    b2.put_u8(0x56);
    b2.put_u8(0x01);
    assert_eq!(Ok((empty(), Variant::Boolean(true))), Variant::decode(b2));
}

#[test]
fn variant_bool_false() {
    let b1 = &mut BytesMut::with_capacity(0);
    b1.put_u8(0x42u8);
    assert_eq!(Ok((empty(), Variant::Boolean(false))), Variant::decode(b1));

    let b2 = &mut BytesMut::with_capacity(0);
    b2.put_u8(0x56);
    b2.put_u8(0x00);
    assert_eq!(Ok((empty(), Variant::Boolean(false))), Variant::decode(b2));
}

/// UTC with a precision of milliseconds. For example, 1311704463521
/// represents the moment 2011-07-26T18:21:03.521Z.
#[test]
fn variant_timestamp() {
    let b1 = &mut BytesMut::with_capacity(0);
    let datetime = Utc.ymd(2011, 7, 26).and_hms_milli(18, 21, 3, 521);
    Variant::Timestamp(instant(datetime)).encode(b1);

    let expected = Utc.ymd(2011, 7, 26).and_hms_milli(18, 21, 3, 521);
    assert_eq!(Ok((empty(), Variant::Timestamp(instant(expected)))), Variant::decode(b1));
}

#[test]
fn variant_timestamp_pre_unix() {
    let b1 = &mut BytesMut::with_capacity(0);
    let datetime = Utc.ymd(1968, 7, 26).and_hms_milli(18, 21, 3, 521);
    Variant::Timestamp(instant(datetime)).encode(b1);

    let expected = Utc.ymd(1968, 7, 26).and_hms_milli(18, 21, 3, 521);
    assert_eq!(Ok((empty(), Variant::Timestamp(instant(expected)))), Variant::decode(b1));
}

#[test]
fn option_i8() {
    let b1 = &mut BytesMut::with_capacity(0);
    Some(42i8).encode(b1);

    assert_eq!(Ok((empty(), Some(42))), Option::<i8>::decode(b1));

    let b2 = &mut BytesMut::with_capacity(0);
    let o1: Option<i8> = None;
    o1.encode(b2);

    assert_eq!(Ok((empty(), None)), Option::<i8>::decode(b2));
}

#[test]
fn option_string() {
    let b1 = &mut BytesMut::with_capacity(0);
    Some(ByteStr::from("hello")).encode(b1);

    assert_eq!(Ok((empty(), Some(ByteStr::from("hello")))), Option::<ByteStr>::decode(b1));

    let b2 = &mut BytesMut::with_capacity(0);
    let o1: Option<ByteStr> = None;
    o1.encode(b2);

    assert_eq!(Ok((empty(), None)), Option::<ByteStr>::decode(b2));
}

#[test]
fn decode_ubyte() {
    let b1 = &mut BytesMut::with_capacity(0);
    255_u8.encode(b1);
    assert_eq!(Ok((empty(), 255_u8)), u8::decode(b1));
}

#[test]
fn decode_ushort() {
    let b1 = &mut BytesMut::with_capacity(0);
    350_u16.encode(b1);
    assert_eq!(&b1[..], &[0x60, 0x01, 0x5e][..]);
    assert_eq!(Ok((empty(), 350_u16)), u16::decode(b1));
}

#[test]
fn decode_uint_zero() {
    let b1 = &mut BytesMut::with_capacity(0);
    0_u32.encode(b1);
    assert_eq!(&b1[..], &[0x43][..]);
    assert_eq!(Ok((empty(), 0_u32)), u32::decode(b1));
}

#[test]
fn decode_uint_small() {
    let b1 = &mut BytesMut::with_capacity(0);
    128_u32.encode(b1);
    assert_eq!(&b1[..], &[0x52, 0x80][..]);
    assert_eq!(Ok((empty(), 128_u32)), u32::decode(b1));
}

#[test]
fn decode_uint_big() {
    let b1 = &mut BytesMut::with_capacity(0);
    2147483647_u32.encode(b1);
    assert_eq!(&b1[..], &[0x70, 0x7f, 0xff, 0xff, 0xff][..]);
    assert_eq!(Ok((empty(), 2147483647_u32)), u32::decode(b1));
}

#[test]
fn decode_ulong_zero() {
    let b1 = &mut BytesMut::with_capacity(0);
    0_u64.encode(b1);
    assert_eq!(&b1[..], &[0x44][..]);
    assert_eq!(Ok((empty(), 0_u64)), u64::decode(b1));
}

#[test]
fn decode_ulong_small() {
    let b1 = &mut BytesMut::with_capacity(0);
    128_u64.encode(b1);
    assert_eq!(Ok((empty(), 128_u64)), u64::decode(b1));
}

#[test]
fn decode_ulong_big() {
    let b1 = &mut BytesMut::with_capacity(0);
    2147483649_u64.encode(b1);
    assert_eq!(&b1[..], &[0x80, 0, 0, 0, 0, 0x80, 0, 0, 1][..]);
    assert_eq!(Ok((empty(), 2147483649_u64)), u64::decode(b1));
}

#[test]
fn decode_byte() {
    let b1 = &mut BytesMut::with_capacity(0);
    (-128_i8).encode(b1);
    assert_eq!(&b1[..], &[0x51, 0x80][..]);
    assert_eq!(Ok((empty(), -128_i8)), i8::decode(b1));
}

#[test]
fn decode_short() {
    let b1 = &mut BytesMut::with_capacity(0);
    (-255_i16).encode(b1);
    assert_eq!(&b1[..], &[0x61, 0xff, 0x01][..]);
    assert_eq!(Ok((empty(), -255_i16)), i16::decode(b1));
}

#[test]
fn decode_int_zero() {
    let b1 = &mut BytesMut::with_capacity(0);
    0_i32.encode(b1);
    assert_eq!(&b1[..], &[0x54, 0x00][..]);
    assert_eq!(Ok((empty(), 0_i32)), i32::decode(b1));
}

#[test]
fn decode_int_small() {
    let b1 = &mut BytesMut::with_capacity(0);
    (-50000_i32).encode(b1);
    assert_eq!(&b1[..], &[0x71, 0xff, 0xff, 0x3c, 0xb0][..]);
    assert_eq!(Ok((empty(), -50000_i32)), i32::decode(b1));
}

#[test]
fn decode_int_neg() {
    let b1 = &mut BytesMut::with_capacity(0);
    (-128_i32).encode(b1);
    assert_eq!(&b1[..], &[0x54, 0x80][..]);
    assert_eq!(Ok((empty(), -128_i32)), i32::decode(b1));
}

#[test]
fn decode_long_zero() {
    let b1 = &mut BytesMut::with_capacity(0);
    0_i64.encode(b1);
    assert_eq!(Ok((empty(), 0_i64)), i64::decode(b1));
}

#[test]
fn decode_long_big() {
    let b1 = &mut BytesMut::with_capacity(0);
    (-2147483647_i64).encode(b1);
    assert_eq!(&b1[..], &[0x81, 0xff, 0xff, 0xff, 0xff, 0x80, 0x00, 0x00, 0x01][..]);
    assert_eq!(Ok((empty(), -2147483647_i64)), i64::decode(b1));
}

#[test]
fn decode_long_small() {
    let b1 = &mut BytesMut::with_capacity(0);
    (-128_i64).encode(b1);
    assert_eq!(&b1[..], &[0x55, 0x80][..]);
    assert_eq!(Ok((empty(), -128_i64)), i64::decode(b1));
}

#[test]
fn decode_float() {
    let b1 = &mut BytesMut::with_capacity(0);
    FloatBits(1.234_f32.to_bits()).encode(b1);
    let (rest, bits) = FloatBits::decode(b1).unwrap();
    assert_eq!(rest, empty());
    assert_eq!(f32::from_bits(bits.0), 1.234_f32);
}

#[test]
fn decode_double() {
    let b1 = &mut BytesMut::with_capacity(0);
    DoubleBits(1.234_f64.to_bits()).encode(b1);
    let (rest, bits) = DoubleBits::decode(b1).unwrap();
    assert_eq!(rest, empty());
    assert_eq!(f64::from_bits(bits.0), 1.234_f64);
}

#[test]
fn decode_char() {
    let b1 = &mut BytesMut::with_capacity(0);
    '💯'.encode(b1);
    assert_eq!(&b1[..], &[0x73, 0x00, 0x01, 0xf4, 0xaf][..]);
    assert_eq!(Ok((empty(), '💯')), char::decode(b1));
}

#[test]
fn decode_char_surrogate_is_refused() {
    let bytes = [0x73, 0x00, 0x00, 0xd8, 0x00];
    assert_eq!(Err(Error::InvalidChar(0xd800)), char::decode(&bytes));
}

#[test]
fn decode_uuid() {
    let b1 = &mut BytesMut::with_capacity(0);
    let bytes = [4, 54, 67, 12, 43, 2, 98, 76, 32, 50, 87, 5, 1, 33, 43, 87];
    Uuid::from_bytes(&bytes).expect("parse error").encode(b1);
    let parsed = uuid::Uuid::parse_str("0436430c2b02624c2032570501212b57").expect("parse error");
    assert_eq!(Ok((empty(), Uuid(*parsed.as_bytes()))), Uuid::decode(b1));
}

#[test]
fn decode_binary_short() {
    let b1 = &mut BytesMut::with_capacity(0);
    Binary::from_slice(&[4u8, 5u8][..]).encode(b1);
    assert_eq!(&b1[..], &[0xa0, 2, 4, 5][..]);
    assert_eq!(Ok((empty(), Binary::from_slice(&[4u8, 5u8][..]))), Binary::decode(b1));
}

#[test]
fn decode_binary_long() {
    let b1 = &mut BytesMut::with_capacity(0);
    Binary::from_slice(&[4u8; 500][..]).encode(b1);
    assert_eq!(&b1[..5], &[0xb0, 0, 0, 1, 0xf4][..]);
    assert_eq!(Ok((empty(), Binary::from_slice(&[4u8; 500][..]))), Binary::decode(b1));
}

#[test]
fn decode_string_short() {
    let b1 = &mut BytesMut::with_capacity(0);
    ByteStr::from("Hello there").encode(b1);
    assert_eq!(b1[0], 0xa1);
    assert_eq!(Ok((empty(), ByteStr::from("Hello there"))), ByteStr::decode(b1));
}

#[test]
fn decode_string_long() {
    let b1 = &mut BytesMut::with_capacity(0);
    ByteStr::from(LOREM).encode(b1);
    assert_eq!(b1[0], 0xb1);
    assert_eq!(Ok((empty(), ByteStr::from(LOREM))), ByteStr::decode(b1));
}

#[test]
fn decode_symbol_short() {
    let b1 = &mut BytesMut::with_capacity(0);
    Symbol::from("Hello there").encode(b1);
    assert_eq!(b1[0], 0xa3);
    assert_eq!(Ok((empty(), Symbol::from("Hello there"))), Symbol::decode(b1));
}

#[test]
fn decode_symbol_long() {
    let b1 = &mut BytesMut::with_capacity(0);
    Symbol::from(LOREM).encode(b1);
    assert_eq!(b1[0], 0xb3);
    assert_eq!(Ok((empty(), Symbol::from(LOREM))), Symbol::decode(b1));
}

#[test]
fn decode_string_that_is_not_utf8() {
    let bytes = [0xa1, 2, 0xc3, 0x28];
    assert_eq!(Err(Error::InvalidUtf8), ByteStr::decode(&bytes));
    let bytes = [0xa3, 1, 0xff];
    assert_eq!(Err(Error::InvalidUtf8), Symbol::decode(&bytes));
}

#[test]
fn decode_with_a_code_of_another_type() {
    assert_eq!(Err(Error::InvalidFormatCode(0x50)), u32::decode(&[0x50, 1]));
    assert_eq!(Err(Error::InvalidFormatCode(0x40)), u8::decode(&[0x40]));
    assert_eq!(Err(Error::InvalidFormatCode(0x44)), i64::decode(&[0x44]));
    assert_eq!(Err(Error::InvalidFormatCode(0xa1)), Symbol::decode(&[0xa1, 0]));
}

#[test]
fn decode_from_too_few_bytes() {
    assert_eq!(Err(Error::Incomplete(Some(1))), u8::decode(&[]));
    assert_eq!(Err(Error::Incomplete(Some(1))), u8::decode(&[0x50]));
    assert_eq!(Err(Error::Incomplete(Some(2))), u16::decode(&[0x60, 1]));
    assert_eq!(Err(Error::Incomplete(Some(4))), u32::decode(&[0x70, 1, 2, 3]));
    assert_eq!(Err(Error::Incomplete(Some(8))), u64::decode(&[0x80, 1, 2, 3, 4, 5, 6, 7]));
    assert_eq!(Err(Error::Incomplete(Some(16))), Uuid::decode(&[0x98, 1, 2, 3]));
    assert_eq!(Err(Error::Incomplete(Some(5))), Binary::decode(&[0xa0, 5, 1, 2, 3, 4]));
    assert_eq!(Err(Error::Incomplete(Some(256))), ByteStr::decode(&[0xb1, 0, 0, 1, 0, 65]));
}

#[test]
fn decode_leaves_what_follows() {
    let bytes = [0x52, 7, 0x41, 0x99];
    let (rest, value) = u32::decode(&bytes).unwrap();
    assert_eq!(value, 7);
    assert_eq!(rest, &[0x41, 0x99][..]);
    let (rest, value) = bool::decode(rest).unwrap();
    assert!(value);
    assert_eq!(rest, &[0x99][..]);
}
