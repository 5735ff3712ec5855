use amqp1::codec::{Decode, Encode};
use amqp1::types::{
    Binary, ByteStr, DoubleBits, FloatBits, List, Symbol, Timestamp, Uuid, Variant, VariantMap,
};
use bytes::BytesMut;

fn round_trip<T: Encode + Decode + PartialEq + std::fmt::Debug>(value: T, code: u8, len: usize) {
    let mut buf = BytesMut::with_capacity(0);
    value.encode(&mut buf);
    assert_eq!(buf[0], code, "{:?}", value);
    assert_eq!(buf.len(), len, "{:?}", value);
    assert_eq!(value.encoded_size(), len, "{:?}", value);
    buf.extend_from_slice(&[0xee]);
    let (rest, decoded) = T::decode(&buf).unwrap();
    assert_eq!(rest, &[0xee][..]);
    assert_eq!(decoded, value);
}

#[test]
fn unsigned_numbers_at_the_boundaries() {
    round_trip(0u8, 0x50, 2);
    round_trip(u8::MAX, 0x50, 2);
    round_trip(0u16, 0x60, 3);
    round_trip(255u16, 0x60, 3);
    round_trip(256u16, 0x60, 3);
    round_trip(u16::MAX, 0x60, 3);
    round_trip(0u32, 0x43, 1);
    round_trip(1u32, 0x52, 2);
    round_trip(255u32, 0x52, 2);
    round_trip(256u32, 0x70, 5);
    round_trip(u32::MAX, 0x70, 5);
    round_trip(0u64, 0x44, 1);
    round_trip(1u64, 0x53, 2);
    round_trip(255u64, 0x53, 2);
    round_trip(256u64, 0x80, 9);
    round_trip(u32::MAX as u64 + 1, 0x80, 9);
    round_trip(u64::MAX, 0x80, 9);
}

#[test]
fn signed_numbers_at_the_boundaries() {
    round_trip(0i8, 0x51, 2);
    round_trip(i8::MIN, 0x51, 2);
    round_trip(i8::MAX, 0x51, 2);
    round_trip(-1i8, 0x51, 2);
    round_trip(0i16, 0x61, 3);
    round_trip(i16::MIN, 0x61, 3);
    round_trip(i16::MAX, 0x61, 3);
    round_trip(-1i16, 0x61, 3);
    round_trip(0i32, 0x54, 2);
    round_trip(-1i32, 0x54, 2);
    round_trip(127i32, 0x54, 2);
    round_trip(128i32, 0x71, 5);
    round_trip(-128i32, 0x54, 2);
    round_trip(-129i32, 0x71, 5);
    round_trip(255i32, 0x71, 5);
    round_trip(256i32, 0x71, 5);
    round_trip(i32::MIN, 0x71, 5);
    round_trip(i32::MAX, 0x71, 5);
    round_trip(0i64, 0x55, 2);
    round_trip(-1i64, 0x55, 2);
    round_trip(127i64, 0x55, 2);
    round_trip(128i64, 0x81, 9);
    round_trip(-128i64, 0x55, 2);
    round_trip(-129i64, 0x81, 9);
    round_trip(i64::MIN, 0x81, 9);
    round_trip(i64::MAX, 0x81, 9);
}

#[test]
fn other_primitives_at_the_boundaries() {
    round_trip(true, 0x41, 1);
    round_trip(false, 0x42, 1);
    round_trip('\0', 0x73, 5);
    round_trip('\u{d7ff}', 0x73, 5);
    round_trip('\u{e000}', 0x73, 5);
    round_trip(char::MAX, 0x73, 5);
    round_trip(FloatBits(0), 0x72, 5);
    round_trip(FloatBits(f32::NAN.to_bits()), 0x72, 5);
    round_trip(FloatBits((-0.0f32).to_bits()), 0x72, 5);
    round_trip(FloatBits(u32::MAX), 0x72, 5);
    round_trip(DoubleBits(f64::INFINITY.to_bits()), 0x82, 9);
    round_trip(DoubleBits(f64::MIN_POSITIVE.to_bits()), 0x82, 9);
    round_trip(DoubleBits(u64::MAX), 0x82, 9);
    round_trip(Uuid([0; 16]), 0x98, 17);
    round_trip(Uuid([0xff; 16]), 0x98, 17);
    round_trip(Timestamp { seconds: 0, nanos: 0 }, 0x83, 9);
    round_trip(Timestamp { seconds: -1, nanos: 999_000_000 }, 0x83, 9);
    round_trip(Timestamp { seconds: -9223372036854776, nanos: 192_000_000 }, 0x83, 9);
    round_trip(Timestamp { seconds: 9223372036854775, nanos: 807_000_000 }, 0x83, 9);
}

#[test]
fn numbers_of_equal_value_and_unequal_bits_differ() {
    assert_ne!(FloatBits(0.0f32.to_bits()), FloatBits((-0.0f32).to_bits()));
    assert_eq!(FloatBits(f32::NAN.to_bits()), FloatBits(f32::NAN.to_bits()));
    assert_ne!(
        Variant::Double(DoubleBits(0.0f64.to_bits())),
        Variant::Double(DoubleBits((-0.0f64).to_bits()))
    );
}

#[test]
fn variable_width_at_the_boundaries() {
    round_trip(Binary::from_slice(&[]), 0xa0, 2);
    round_trip(Binary::from_slice(&[7; 255]), 0xa0, 257);
    round_trip(Binary::from_slice(&[7; 256]), 0xb0, 261);
    round_trip(ByteStr::from(""), 0xa1, 2);
    round_trip(ByteStr::from("a".repeat(255).as_str()), 0xa1, 257);
    round_trip(ByteStr::from("a".repeat(256).as_str()), 0xb1, 261);
    // The width goes by the bytes, not by the characters.
    round_trip(ByteStr::from("é".repeat(127).as_str()), 0xa1, 256);
    round_trip(ByteStr::from("é".repeat(128).as_str()), 0xb1, 261);
    round_trip(Symbol::from(""), 0xa3, 2);
    round_trip(Symbol::from("s".repeat(255).as_str()), 0xa3, 257);
    round_trip(Symbol::from("s".repeat(256).as_str()), 0xb3, 261);
}

#[test]
fn maps_at_the_boundaries() {
    // 126 entries of two bytes take 252 bytes: with the count byte the size
    // is 253, and the count of 252 fits a byte too.
    let entries = |n: usize| {
        VariantMap::new((0..n).map(|_| (Variant::Boolean(true), Variant::Null)).collect())
    };
    round_trip(Variant::Mapping(entries(126)), 0xc1, 3 + 252);
    round_trip(Variant::Mapping(entries(127)), 0xc1, 3 + 254);
    // 128 entries count 256 elements, which takes the long header.
    round_trip(Variant::Mapping(entries(128)), 0xd1, 9 + 256);
    // 64 entries of four bytes take 256 bytes, which takes the long header.
    let wide = VariantMap::new((0..64).map(|_| (Variant::Ubyte(1), Variant::Ubyte(2))).collect());
    round_trip(wide, 0xd1, 9 + 256);
    let narrow =
        VariantMap::new((0..63).map(|_| (Variant::Ubyte(1), Variant::Ubyte(2))).collect());
    round_trip(narrow, 0xc1, 3 + 252);
}

#[test]
fn copies_are_equal() {
    let map = VariantMap::new(vec![
        (Variant::Symbol(Symbol::from("k")), Variant::String(ByteStr::from("v"))),
        (Variant::Binary(Binary::from_slice(&[1])), Variant::Uuid(Uuid([3; 16]))),
        (Variant::Mapping(VariantMap::new(vec![])), Variant::Char('x')),
    ]);
    let copy = map.clone();
    assert_eq!(copy, map);
    let value = Variant::Mapping(map);
    assert_eq!(value.clone(), value);
    let list = List(vec![value, Variant::Long(-1)]);
    assert_eq!(list.clone(), list);
}

#[test]
fn same_values_are_equal_values() {
    let values = vec![
        Variant::Null,
        Variant::Boolean(true),
        Variant::Boolean(false),
        Variant::Uint(0),
        Variant::Ulong(0),
        Variant::Int(0),
        Variant::Float(FloatBits(0.0f32.to_bits())),
        Variant::Float(FloatBits((-0.0f32).to_bits())),
        Variant::Double(DoubleBits(f64::NAN.to_bits())),
        Variant::Char('a'),
        Variant::Timestamp(Timestamp { seconds: 1, nanos: 0 }),
        Variant::Timestamp(Timestamp { seconds: 1, nanos: 1 }),
        Variant::Uuid(Uuid([1; 16])),
        Variant::Uuid(Uuid([2; 16])),
        Variant::Binary(Binary::from_slice(&[1, 2])),
        Variant::Binary(Binary::from_slice(&[1, 3])),
        Variant::Binary(Binary::from_slice(&[1])),
        Variant::String(ByteStr::from("a")),
        Variant::Symbol(Symbol::from("a")),
        Variant::Symbol(Symbol::from("b")),
        Variant::Mapping(VariantMap::new(vec![])),
        Variant::Mapping(VariantMap::new(vec![(Variant::Null, Variant::Uint(1))])),
        Variant::Mapping(VariantMap::new(vec![(Variant::Null, Variant::Uint(2))])),
        Variant::Mapping(VariantMap::new(vec![
            (Variant::Null, Variant::Uint(1)),
            (Variant::Null, Variant::Uint(2)),
        ])),
        Variant::Mapping(VariantMap::new(vec![
            (Variant::Null, Variant::Uint(2)),
            (Variant::Null, Variant::Uint(1)),
        ])),
    ];
    for (i, a) in values.iter().enumerate() {
        for (j, b) in values.iter().enumerate() {
            assert_eq!(a.same_as(b), i == j, "{:?} and {:?}", a, b);
            assert_eq!(a == b, i == j, "{:?} and {:?}", a, b);
        }
        assert!(a.same_as(&a.clone()));
    }
    assert!(ByteStr::from("x").same_as(&ByteStr::from("x")));
    assert!(!ByteStr::from("x").same_as(&ByteStr::from("y")));
}
