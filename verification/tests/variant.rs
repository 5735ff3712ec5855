use amqp1::codec::variant::decode_variant;
use amqp1::codec::{decode_format_code, Encode};
use amqp1::errors::Error;
use amqp1::types::{
    Binary, ByteStr, DoubleBits, FloatBits, Symbol, Timestamp, Uuid, Variant, VariantMap,
};
use bytes::{BufMut, BytesMut};
use chrono::{DateTime, TimeZone, Utc};

const LOREM: &str = "Lorem ipsum dolor sit amet, consectetur adipiscing elit, sed do eiusmod \
tempor incididunt ut labore et dolore magna aliqua. Ut enim ad minim veniam, quis nostrud \
exercitation ullamco laboris nisi ut aliquip ex ea commodo consequat. Duis aute irure dolor in \
reprehenderit in voluptate velit esse cillum dolore eu fugiat nulla pariatur. Excepteur sint \
occaecat cupidatat non proident, sunt in culpa qui officia deserunt mollit anim id est laborum.";

/// Decodes a value that starts with its format code and has to fill the
/// whole input.
fn decode_whole(input: &[u8]) -> Result<Variant, Error> {
    let (input, fmt) = decode_format_code(input)?;
    let (rest, value) = decode_variant(input, fmt)?;
    assert!(rest.is_empty());
    Ok(value)
}

fn instant(datetime: DateTime<Utc>) -> Timestamp {
    Timestamp { seconds: datetime.timestamp(), nanos: datetime.timestamp_subsec_nanos() }
}

#[test]
fn null() {
    let mut b = BytesMut::with_capacity(0);
    Variant::Null.encode(&mut b);
    let t = decode_whole(&b);
    assert_eq!(Ok(Variant::Null), t);
}

#[test]
fn bool_true() {
    let b1 = &mut BytesMut::with_capacity(0);
    b1.put_u8(0x41);
    assert_eq!(Ok(Variant::Boolean(true)), decode_whole(b1));

    let b2 = &mut BytesMut::with_capacity(0);
    b2.put_u8(0x56);
    b2.put_u8(0x01);
    assert_eq!(Ok(Variant::Boolean(true)), decode_whole(b2));
}

#[test]
fn bool_false() {
    let b1 = &mut BytesMut::with_capacity(0);
    b1.put_u8(0x42u8);
    assert_eq!(Ok(Variant::Boolean(false)), decode_whole(b1));

    let b2 = &mut BytesMut::with_capacity(0);
    b2.put_u8(0x56);
    b2.put_u8(0x00);
    assert_eq!(Ok(Variant::Boolean(false)), decode_whole(b2));
}

#[test]
fn ubyte() {
    let b1 = &mut BytesMut::with_capacity(0);
    Variant::Ubyte(255).encode(b1);
    assert_eq!(Ok(Variant::Ubyte(255)), decode_whole(b1));
}

#[test]
fn ushort() {
    let b1 = &mut BytesMut::with_capacity(0);
    Variant::Ushort(350).encode(b1);
    assert_eq!(Ok(Variant::Ushort(350)), decode_whole(b1));
}

#[test]
fn uint() {
    let b1 = &mut BytesMut::with_capacity(0);
    Variant::Uint(0).encode(b1);
    assert_eq!(Ok(Variant::Uint(0)), decode_whole(b1));

    let b2 = &mut BytesMut::with_capacity(0);
    Variant::Uint(128).encode(b2);
    assert_eq!(Ok(Variant::Uint(128)), decode_whole(b2));

    let b3 = &mut BytesMut::with_capacity(0);
    Variant::Uint(2147483647).encode(b3);
    assert_eq!(Ok(Variant::Uint(2147483647)), decode_whole(b3));
}

#[test]
fn ulong() {
    let b1 = &mut BytesMut::with_capacity(0);
    Variant::Ulong(0).encode(b1);
    assert_eq!(Ok(Variant::Ulong(0)), decode_whole(b1));

    let b2 = &mut BytesMut::with_capacity(0);
    Variant::Ulong(128).encode(b2);
    assert_eq!(Ok(Variant::Ulong(128)), decode_whole(b2));

    let b3 = &mut BytesMut::with_capacity(0);
    Variant::Ulong(2147483649).encode(b3);
    assert_eq!(Ok(Variant::Ulong(2147483649)), decode_whole(b3));
}

#[test]
fn byte() {
    let b1 = &mut BytesMut::with_capacity(0);
    Variant::Byte(-128).encode(b1);
    assert_eq!(Ok(Variant::Byte(-128)), decode_whole(b1));
}

#[test]
fn short() {
    let b1 = &mut BytesMut::with_capacity(0);
    Variant::Short(-255).encode(b1);
    assert_eq!(Ok(Variant::Short(-255)), decode_whole(b1));
}

#[test]
fn int_variant() {
    let b1 = &mut BytesMut::with_capacity(0);
    Variant::Int(0).encode(b1);
    assert_eq!(Ok(Variant::Int(0)), decode_whole(b1));

    let b2 = &mut BytesMut::with_capacity(0);
    Variant::Int(-50000).encode(b2);
    assert_eq!(Ok(Variant::Int(-50000)), decode_whole(b2));

    let b3 = &mut BytesMut::with_capacity(0);
    Variant::Int(-128).encode(b3);
    assert_eq!(Ok(Variant::Int(-128)), decode_whole(b3));
}

#[test]
fn long() {
    let b1 = &mut BytesMut::with_capacity(0);
    Variant::Ulong(0).encode(b1);
    assert_eq!(Ok(Variant::Ulong(0)), decode_whole(b1));

    let b2 = &mut BytesMut::with_capacity(0);
    Variant::Long(-2147483647).encode(b2);
    assert_eq!(Ok(Variant::Long(-2147483647)), decode_whole(b2));

    let b3 = &mut BytesMut::with_capacity(0);
    Variant::Long(-128).encode(b3);
    assert_eq!(Ok(Variant::Long(-128)), decode_whole(b3));
}

#[test]
fn float() {
    let b1 = &mut BytesMut::with_capacity(0);
    Variant::Float(FloatBits(1.234_f32.to_bits())).encode(b1);
    assert_eq!(Ok(Variant::Float(FloatBits(1.234_f32.to_bits()))), decode_whole(b1));
}

#[test]
fn double() {
    let b1 = &mut BytesMut::with_capacity(0);
    Variant::Double(DoubleBits(1.234_f64.to_bits())).encode(b1);
    assert_eq!(Ok(Variant::Double(DoubleBits(1.234_f64.to_bits()))), decode_whole(b1));
}

#[test]
fn char() {
    let b1 = &mut BytesMut::with_capacity(0);
    Variant::Char('💯').encode(b1);
    assert_eq!(Ok(Variant::Char('💯')), decode_whole(b1));
}

/// UTC with a precision of milliseconds. For example, 1311704463521
/// represents the moment 2011-07-26T18:21:03.521Z.
#[test]
fn timestamp() {
    let b1 = &mut BytesMut::with_capacity(0);
    let datetime = Utc.ymd(2011, 7, 26).and_hms_milli(18, 21, 3, 521);
    Variant::Timestamp(instant(datetime)).encode(b1);

    let expected = Utc.ymd(2011, 7, 26).and_hms_milli(18, 21, 3, 521);
    assert_eq!(Ok(Variant::Timestamp(instant(expected))), decode_whole(b1));
}

#[test]
fn timestamp_pre_unix() {
    let b1 = &mut BytesMut::with_capacity(0);
    let datetime = Utc.ymd(1968, 7, 26).and_hms_milli(18, 21, 3, 521);
    Variant::Timestamp(instant(datetime)).encode(b1);

    let expected = Utc.ymd(1968, 7, 26).and_hms_milli(18, 21, 3, 521);
    assert_eq!(Ok(Variant::Timestamp(instant(expected))), decode_whole(b1));
}

#[test]
fn uuid() {
    let b1 = &mut BytesMut::with_capacity(0);
    let bytes = [4, 54, 67, 12, 43, 2, 98, 76, 32, 50, 87, 5, 1, 33, 43, 87];
    let u1 = Uuid::from_bytes(&bytes).expect("parse error");
    Variant::Uuid(u1).encode(b1);

    let parsed = uuid::Uuid::parse_str("0436430c2b02624c2032570501212b57").expect("parse error");
    let expected = Variant::Uuid(Uuid(*parsed.as_bytes()));
    assert_eq!(Ok(expected), decode_whole(b1));
}

#[test]
fn binary_short() {
    let b1 = &mut BytesMut::with_capacity(0);
    let bytes = [4u8, 54, 67, 12, 43, 2, 98, 76, 32, 50, 87, 5, 1, 33, 43, 87];
    Variant::Binary(Binary::from_slice(&bytes[..])).encode(b1);

    let expected = [4u8, 54, 67, 12, 43, 2, 98, 76, 32, 50, 87, 5, 1, 33, 43, 87];
    assert_eq!(Ok(Variant::Binary(Binary::from_slice(&expected[..]))), decode_whole(b1));
}

#[test]
fn binary_long() {
    let b1 = &mut BytesMut::with_capacity(0);
    let bytes = [4u8; 500];
    Variant::Binary(Binary::from_slice(&bytes[..])).encode(b1);

    let expected = [4u8; 500];
    assert_eq!(Ok(Variant::Binary(Binary::from_slice(&expected[..]))), decode_whole(b1));
}

#[test]
fn string_short() {
    let b1 = &mut BytesMut::with_capacity(0);
    Variant::String(ByteStr::from("Hello there")).encode(b1);

    assert_eq!(Ok(Variant::String(ByteStr::from("Hello there"))), decode_whole(b1));
}

#[test]
fn string_long() {
    let b1 = &mut BytesMut::with_capacity(0);
    let s1 = ByteStr::from(LOREM);
    Variant::String(s1).encode(b1);

    let expected = ByteStr::from(LOREM);
    assert_eq!(Ok(Variant::String(expected)), decode_whole(b1));
}

#[test]
fn symbol_short() {
    let b1 = &mut BytesMut::with_capacity(0);
    Variant::Symbol(Symbol::from("Hello there")).encode(b1);

    assert_eq!(Ok(Variant::Symbol(Symbol::from("Hello there"))), decode_whole(b1));
}

#[test]
fn symbol_long() {
    let b1 = &mut BytesMut::with_capacity(0);
    let s1 = Symbol::from(LOREM);
    Variant::Symbol(s1).encode(b1);

    let expected = Symbol::from(LOREM);
    assert_eq!(Ok(Variant::Symbol(expected)), decode_whole(b1));
}

fn sample_map() -> VariantMap {
    VariantMap::new(vec![
        (Variant::Symbol(Symbol::from("product")), Variant::String(ByteStr::from("broker"))),
        (Variant::Uint(7), Variant::Boolean(true)),
        (
            Variant::String(ByteStr::from("nested")),
            Variant::Mapping(VariantMap::new(vec![(Variant::Null, Variant::Long(-3))])),
        ),
    ])
}

#[test]
fn map_small() {
    let b1 = &mut BytesMut::with_capacity(0);
    Variant::Mapping(sample_map()).encode(b1);
    assert_eq!(b1[0], 0xc1);
    assert_eq!(b1[1] as usize, b1.len() - 2);
    assert_eq!(b1[2], 6);
    assert_eq!(Ok(Variant::Mapping(sample_map())), decode_whole(b1));
}

#[test]
fn map_empty() {
    let b1 = &mut BytesMut::with_capacity(0);
    Variant::Mapping(VariantMap::new(vec![])).encode(b1);
    assert_eq!(&b1[..], &[0xc1, 1, 0][..]);
    assert_eq!(Ok(Variant::Mapping(VariantMap::new(vec![]))), decode_whole(b1));
}

#[test]
fn map_large() {
    let mut entries = Vec::new();
    for i in 0..200u32 {
        entries.push((Variant::Uint(1000 + i), Variant::String(ByteStr::from("value"))));
    }
    let b1 = &mut BytesMut::with_capacity(0);
    Variant::Mapping(VariantMap::new(entries)).encode(b1);
    assert_eq!(b1[0], 0xd1);
    assert_eq!(&b1[5..9], &[0, 0, 1, 0x90][..]);
    let decoded = decode_whole(b1).unwrap();
    match decoded {
        Variant::Mapping(map) => {
            assert_eq!(map.len(), 200);
            assert_eq!(map.entries[199].0, Variant::Uint(1199));
        },
        other => panic!("not a map: {:?}", other),
    }
}

#[test]
fn map_with_an_odd_count_is_refused() {
    let bytes = [0xc1, 3, 1, 0x41, 0x41];
    assert_eq!(Err(Error::OddMapCount(1)), decode_whole(&bytes));
    let bytes = [0xd1, 0, 0, 0, 6, 0, 0, 0, 3, 0x41, 0x41];
    assert_eq!(Err(Error::OddMapCount(3)), decode_whole(&bytes));
}

#[test]
fn map_ends_where_its_size_says() {
    // Two entries are declared and decoded; the size covers one byte more,
    // which is skipped with the map.
    let bytes = [0xc1, 4, 2, 0x41, 0x42, 0x99, 0x43];
    let (input, fmt) = decode_format_code(&bytes).unwrap();
    let (rest, value) = decode_variant(input, fmt).unwrap();
    assert_eq!(rest, &[0x43][..]);
    assert_eq!(
        value,
        Variant::Mapping(VariantMap::new(vec![(Variant::Boolean(true), Variant::Boolean(false))]))
    );
}

#[test]
fn map_whose_size_exceeds_the_input_is_incomplete() {
    let bytes = [0xc1, 9, 2, 0x41, 0x42];
    assert_eq!(Err(Error::Incomplete(Some(8))), decode_whole(&bytes));
}

#[test]
fn codes_without_a_case_are_refused() {
    for code in [0x45u8, 0xc0, 0xd0, 0xe0, 0xf0, 0x74, 0x84, 0x94, 0x00] {
        assert_eq!(Err(Error::InvalidFormatCode(code)), decode_whole(&[code, 0, 0, 0, 0]));
    }
}
