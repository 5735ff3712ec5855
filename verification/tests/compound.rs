use amqp1::codec::decode::{
    datetime_from_millis, decode_array_header, decode_compound32, decode_compound8, decode_items,
    decode_list_header, decode_map_header, read_bytes_u32, read_bytes_u8, read_i8, read_u8,
};
use amqp1::codec::encode::{millis_from_datetime, try_encode};
use amqp1::codec::{decode_format_code, ArrayEncode, Decode, DecodeFormatted, Encode};
use amqp1::errors::Error;
use amqp1::protocol::CompoundHeader;
use amqp1::types::{Binary, ByteStr, List, Multiple, Symbol, Timestamp, Variant};
use bytes::BytesMut;

fn empty() -> &'static [u8] {
    &[]
}

fn encoded<T: Encode>(value: &T) -> Vec<u8> {
    let mut buf = BytesMut::with_capacity(0);
    value.encode(&mut buf);
    assert_eq!(buf.len(), value.encoded_size());
    assert_eq!(value.size_within(buf.len()), Some(buf.len()));
    if buf.len() > 0 {
        assert_eq!(value.size_within(buf.len() - 1), None);
    }
    buf.to_vec()
}

#[test]
fn format_code_is_the_first_byte() {
    assert_eq!(decode_format_code(&[0x70, 1, 2]), Ok((&[1u8, 2][..], 0x70)));
    assert_eq!(decode_format_code(&[]), Err(Error::Incomplete(Some(1))));
    assert_eq!(read_u8(&[0xff, 1]), Ok((&[1u8][..], 255)));
    assert_eq!(read_i8(&[0xff, 1]), Ok((&[1u8][..], -1)));
    assert_eq!(read_i8(&[0x80]), Ok((empty(), -128)));
    assert_eq!(read_i8(&[0x7f]), Ok((empty(), 127)));
    assert_eq!(read_u8(&[]), Err(Error::Incomplete(Some(1))));
    assert_eq!(read_bytes_u8(&[2, 7, 8, 9]), Ok((&[9u8][..], &[7u8, 8][..])));
    assert_eq!(read_bytes_u8(&[3, 7, 8]), Err(Error::Incomplete(Some(3))));
    assert_eq!(read_bytes_u32(&[0, 0, 0, 1, 7, 8]), Ok((&[8u8][..], &[7u8][..])));
    assert_eq!(read_bytes_u32(&[0, 0, 1]), Err(Error::Incomplete(Some(4))));
}

#[test]
fn compound_headers() {
    assert_eq!(CompoundHeader::empty(), CompoundHeader { size: 0, count: 0 });
    assert_eq!(
        decode_compound8(&[5, 2, 9]),
        Ok((&[9u8][..], CompoundHeader { size: 4, count: 2 }))
    );
    assert_eq!(decode_compound8(&[1, 0]), Ok((empty(), CompoundHeader { size: 0, count: 0 })));
    assert_eq!(decode_compound8(&[0, 0]), Err(Error::InvalidCompoundSize(0)));
    assert_eq!(decode_compound8(&[5]), Err(Error::Incomplete(Some(2))));
    assert_eq!(
        decode_compound32(&[0, 0, 1, 4, 0, 0, 0, 3, 9]),
        Ok((&[9u8][..], CompoundHeader { size: 256, count: 3 }))
    );
    assert_eq!(decode_compound32(&[0, 0, 0, 3, 0, 0, 0, 0]), Err(Error::InvalidCompoundSize(3)));
    assert_eq!(decode_compound32(&[0, 0, 0, 3, 0, 0, 0]), Err(Error::Incomplete(Some(8))));
}

#[test]
fn list_map_and_array_headers() {
    assert_eq!(
        decode_list_header(&[7, 7], 0x45),
        Ok((&[7u8, 7][..], CompoundHeader { size: 0, count: 0 }))
    );
    assert_eq!(
        decode_list_header(&[3, 1, 7], 0xc0),
        Ok((&[7u8][..], CompoundHeader { size: 2, count: 1 }))
    );
    assert_eq!(
        decode_list_header(&[0, 0, 0, 4, 0, 0, 0, 0], 0xd0),
        Ok((empty(), CompoundHeader { size: 0, count: 0 }))
    );
    assert_eq!(decode_list_header(&[3, 1, 7], 0xc1), Err(Error::InvalidFormatCode(0xc1)));
    assert_eq!(
        decode_map_header(&[3, 2, 7], 0xc1),
        Ok((&[7u8][..], CompoundHeader { size: 2, count: 2 }))
    );
    assert_eq!(decode_map_header(&[3, 1, 7], 0xc1), Err(Error::OddMapCount(1)));
    assert_eq!(
        decode_map_header(&[0, 0, 0, 4, 0, 0, 0, 5], 0xd1),
        Err(Error::OddMapCount(5))
    );
    assert_eq!(decode_map_header(&[3, 2, 7], 0xc0), Err(Error::InvalidFormatCode(0xc0)));
    assert_eq!(
        decode_array_header(&[3, 2, 7], 0xe0),
        Ok((&[7u8][..], CompoundHeader { size: 2, count: 2 }))
    );
    assert_eq!(decode_array_header(&[3, 2, 7], 0x45), Err(Error::InvalidFormatCode(0x45)));
}

#[test]
fn array_of_numbers() {
    let values: Vec<u32> = vec![1, 0, 70000];
    let bytes = encoded(&values);
    assert_eq!(
        bytes,
        vec![0xe0, 14, 3, 0x70, 0, 0, 0, 1, 0, 0, 0, 0, 0, 1, 0x11, 0x70]
    );
    assert_eq!(Vec::<u32>::decode(&bytes), Ok((empty(), values)));
    assert_eq!(<u32 as ArrayEncode>::ARRAY_FORMAT_CODE, 0x70);
    // The elements of an array may come in any encoding of their type.
    let small = [0xe0, 4, 2, 0x52, 7, 9];
    assert_eq!(Vec::<u32>::decode(&small), Ok((empty(), vec![7, 9])));
    let zeros = [0xe0, 2, 3, 0x43, 0x99];
    assert_eq!(Vec::<u32>::decode(&zeros), Ok((&[0x99u8][..], vec![0, 0, 0])));
}

#[test]
fn array_of_symbols() {
    let values = vec![Symbol::from("a"), Symbol::from("bc")];
    let bytes = encoded(&values);
    assert_eq!(
        bytes,
        vec![0xe0, 13, 2, 0xb3, 0, 0, 0, 1, b'a', 0, 0, 0, 2, b'b', b'c']
    );
    assert_eq!(Vec::<Symbol>::decode(&bytes), Ok((empty(), values)));
    let none: Vec<Symbol> = vec![];
    let bytes = encoded(&none);
    assert_eq!(bytes, vec![0xe0, 2, 0, 0xb3]);
    assert_eq!(Vec::<Symbol>::decode(&bytes), Ok((empty(), none)));
}

#[test]
fn array_with_a_long_header() {
    let values: Vec<u8> = (0..=255u8).chain(0..10u8).collect();
    let bytes = encoded(&values);
    assert_eq!(&bytes[..10], &[0xf0, 0, 0, 1, 15, 0, 0, 1, 10, 0x50][..]);
    assert_eq!(bytes.len(), 10 + 266);
    assert_eq!(Vec::<u8>::decode(&bytes), Ok((empty(), values)));
    let strings = vec![ByteStr::from("x"); 3];
    assert_eq!(Vec::<ByteStr>::decode(&encoded(&strings)), Ok((empty(), strings)));
    let blobs = vec![Binary::from_slice(&[1, 2]), Binary::from_slice(&[])];
    assert_eq!(Vec::<Binary>::decode(&encoded(&blobs)), Ok((empty(), blobs)));
    let longs: Vec<u64> = vec![u64::MAX, 0, 1 << 40];
    assert_eq!(Vec::<u64>::decode(&encoded(&longs)), Ok((empty(), longs)));
    let shorts: Vec<u16> = vec![u16::MAX, 0, 256];
    assert_eq!(Vec::<u16>::decode(&encoded(&shorts)), Ok((empty(), shorts)));
}

#[test]
fn array_that_is_cut_short() {
    // No format code for the elements.
    assert_eq!(Vec::<u32>::decode(&[0xe0, 1, 0]), Err(Error::Incomplete(Some(1))));
    // Fewer elements than the count says.
    assert_eq!(Vec::<u32>::decode(&[0xe0, 4, 3, 0x52, 7, 9]), Err(Error::Incomplete(Some(1))));
    // A size that the input does not hold.
    assert_eq!(Vec::<u32>::decode(&[0xe0, 9, 1, 0x52, 7]), Err(Error::Incomplete(Some(8))));
    // Elements of another type.
    assert_eq!(Vec::<u32>::decode(&[0xe0, 3, 1, 0x50, 7]), Err(Error::InvalidFormatCode(0x50)));
    assert_eq!(Vec::<u32>::decode(&[0xc0, 3, 1, 0x52, 7]), Err(Error::InvalidFormatCode(0xc0)));
    assert_eq!(
        decode_items::<u8>(&[1, 2, 3], 0x50, 4),
        Err(Error::Incomplete(Some(1)))
    );
    assert_eq!(decode_items::<u8>(&[1, 2, 3], 0x50, 2), Ok((&[3u8][..], vec![1, 2])));
}

#[test]
fn multiple_is_one_value_or_an_array() {
    let one = Multiple(vec![Symbol::from("en-US")]);
    let bytes = encoded(&one);
    assert_eq!(bytes, vec![0xa3, 5, b'e', b'n', b'-', b'U', b'S']);
    assert_eq!(Multiple::<Symbol>::decode(&bytes), Ok((empty(), one)));
    let two = Multiple(vec![Symbol::from("a"), Symbol::from("b")]);
    let bytes = encoded(&two);
    assert_eq!(bytes[0], 0xe0);
    assert_eq!(two.len(), 2);
    assert_eq!(two.iter().map(|s| s.as_str()).collect::<Vec<_>>(), vec!["a", "b"]);
    assert_eq!(Multiple::<Symbol>::decode(&bytes), Ok((empty(), two)));
    let none: Multiple<Symbol> = Multiple(vec![]);
    let bytes = encoded(&none);
    assert_eq!(bytes, vec![0xe0, 2, 0, 0xb3]);
    assert_eq!(Multiple::<Symbol>::decode(&bytes), Ok((empty(), none)));
    // An array of one is read as one value too.
    let array_of_one = [0xe0, 4, 1, 0xa3, 1, b'x'];
    assert_eq!(
        Multiple::<Symbol>::decode(&array_of_one),
        Ok((empty(), Multiple(vec![Symbol::from("x")])))
    );
}

#[test]
fn list_of_variants() {
    let list = List(vec![Variant::Null, Variant::Uint(3)]);
    assert_eq!(list.len(), 2);
    assert_eq!(list.iter().count(), 2);
    assert_eq!(list.iter().next(), Some(&Variant::Null));
}

#[test]
fn option_is_null_or_the_value() {
    let absent: Option<u32> = None;
    assert_eq!(encoded(&absent), vec![0x40]);
    assert_eq!(encoded(&Some(0u32)), vec![0x43]);
    assert_eq!(Option::<u32>::decode(&[0x40, 1]), Ok((&[1u8][..], None)));
    assert_eq!(Option::<u32>::decode(&[0x43, 1]), Ok((&[1u8][..], Some(0))));
    assert_eq!(Option::<u32>::decode(&[0x50, 1]), Err(Error::InvalidFormatCode(0x50)));
    assert_eq!(Option::<u32>::decode_with_format(&[7], 0x52), Ok((empty(), Some(7))));
}

#[test]
fn millis_before_and_behind_the_epoch() {
    assert_eq!(datetime_from_millis(0), Timestamp { seconds: 0, nanos: 0 });
    assert_eq!(datetime_from_millis(1), Timestamp { seconds: 0, nanos: 1_000_000 });
    assert_eq!(datetime_from_millis(999), Timestamp { seconds: 0, nanos: 999_000_000 });
    assert_eq!(datetime_from_millis(1000), Timestamp { seconds: 1, nanos: 0 });
    assert_eq!(datetime_from_millis(-1), Timestamp { seconds: -1, nanos: 999_000_000 });
    assert_eq!(datetime_from_millis(-999), Timestamp { seconds: -1, nanos: 1_000_000 });
    assert_eq!(datetime_from_millis(-1000), Timestamp { seconds: -1, nanos: 0 });
    assert_eq!(datetime_from_millis(-1001), Timestamp { seconds: -2, nanos: 999_000_000 });
    assert_eq!(
        datetime_from_millis(-45207536479),
        Timestamp { seconds: -45207537, nanos: 521_000_000 }
    );
    assert_eq!(
        datetime_from_millis(i64::MIN),
        Timestamp { seconds: -9223372036854776, nanos: 192_000_000 }
    );
    assert_eq!(
        datetime_from_millis(i64::MAX),
        Timestamp { seconds: 9223372036854775, nanos: 807_000_000 }
    );
    for millis in [0, 1, -1, 999, -999, 1000, -1000, -45207536479, i64::MIN, i64::MAX] {
        let instant = datetime_from_millis(millis);
        assert_eq!(millis_from_datetime(&instant), millis);
        assert_eq!(Timestamp::decode(&encoded(&instant)), Ok((empty(), instant)));
    }
    // What is finer than a millisecond does not go over the wire.
    let fine = Timestamp { seconds: -1, nanos: 999_999_999 };
    assert_eq!(millis_from_datetime(&fine), -1);
    assert_eq!(
        Timestamp::decode(&encoded(&fine)),
        Ok((empty(), Timestamp { seconds: -1, nanos: 999_000_000 }))
    );
}

#[test]
fn values_without_an_encoding_are_refused() {
    let mut buf = BytesMut::with_capacity(0);
    buf.extend_from_slice(&[1, 2]);
    // Nanoseconds that do not stay within their second.
    let broken = Timestamp { seconds: 0, nanos: 1_000_000_000 };
    assert_eq!(broken.size_within(100), None);
    assert_eq!(try_encode(&broken, &mut buf), Err(Error::Unencodable));
    assert_eq!(&buf[..], &[1, 2][..]);
    // Milliseconds that do not fit 64 bits.
    let late = Timestamp { seconds: i64::MAX, nanos: 0 };
    assert_eq!(try_encode(&late, &mut buf), Err(Error::Unencodable));
    assert_eq!(try_encode(&Variant::Timestamp(late), &mut buf), Err(Error::Unencodable));
    assert_eq!(&buf[..], &[1, 2][..]);
    assert_eq!(try_encode(&Variant::Uint(300), &mut buf), Ok(()));
    assert_eq!(&buf[..], &[1, 2, 0x70, 0, 0, 1, 0x2c][..]);
    assert_eq!(try_encode(&Some(ByteStr::from("é")), &mut buf), Ok(()));
    assert_eq!(&buf[7..], &[0xa1, 2, 0xc3, 0xa9][..]);
}
