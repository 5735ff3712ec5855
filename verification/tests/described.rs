use amqp1::codec::described::{
    decode_default_field, decode_optional_field, decode_required_field, DescribedList,
};
use amqp1::codec::{Decode, DecodeFormatted, Encode};
use amqp1::errors::Error;
use amqp1::protocol::open::{DEFAULT_CHANNEL_MAX, DEFAULT_MAX_FRAME_SIZE};
use amqp1::protocol::{Described, Open};
use amqp1::types::{ByteStr, Multiple, Symbol, Variant, VariantMap};
use bytes::BytesMut;

fn empty() -> &'static [u8] {
    &[]
}

fn encoded<T: Encode>(value: &T) -> Vec<u8> {
    let mut buf = BytesMut::with_capacity(0);
    value.encode(&mut buf);
    assert_eq!(buf.len(), value.encoded_size());
    buf.to_vec()
}

#[test]
fn open_example_round_trip() {
    let mut open = Open::new(ByteStr::from("c1"));
    open.max_frame_size = 65535;
    open.channel_max = 65535;
    let bytes = encoded(&open);
    assert_eq!(
        bytes,
        vec![
            0x00, 0x53, 0x10, 0xc0, 0x0e, 0x04, 0xa1, 0x02, b'c', b'1', 0x40, 0x70, 0x00, 0x00,
            0xff, 0xff, 0x60, 0xff, 0xff,
        ]
    );
    let (rest, decoded) = Open::decode(&bytes).unwrap();
    assert_eq!(rest, empty());
    assert_eq!(decoded, open);
    assert_eq!(decoded.container_id, ByteStr::from("c1"));
    assert_eq!(decoded.hostname, None);
    assert_eq!(decoded.max_frame_size, 65535);
    assert_eq!(decoded.channel_max, 65535);
    assert_eq!(decoded.idle_time_out, None);
    assert_eq!(decoded.outgoing_locales, None);
    assert_eq!(decoded.incoming_locales, None);
    assert_eq!(decoded.offered_capabilities, None);
    assert_eq!(decoded.desired_capabilities, None);
    assert_eq!(decoded.properties, None);
}

#[test]
fn open_with_every_field_round_trips() {
    let open = Open {
        container_id: ByteStr::from("container"),
        hostname: Some(ByteStr::from("example.org")),
        max_frame_size: 0,
        channel_max: 7,
        idle_time_out: Some(30000),
        outgoing_locales: Some(Multiple(vec![Symbol::from("en-US")])),
        incoming_locales: Some(Multiple(vec![Symbol::from("en-US"), Symbol::from("de")])),
        offered_capabilities: Some(Multiple(vec![])),
        desired_capabilities: None,
        properties: Some(VariantMap::new(vec![(
            Variant::Symbol(Symbol::from("product")),
            Variant::String(ByteStr::from("test")),
        )])),
    };
    let bytes = encoded(&open);
    assert_eq!(&bytes[..6], &[0x00, 0x53, 0x10, 0xc0, (bytes.len() - 5) as u8, 10][..]);
    let (rest, decoded) = Open::decode(&bytes).unwrap();
    assert_eq!(rest, empty());
    assert_eq!(decoded, open);
}

#[test]
fn open_leaves_trailing_absent_fields_out() {
    let mut open = Open::new(ByteStr::from("c"));
    assert_eq!(open.field_count(), 4);
    open.idle_time_out = Some(1);
    assert_eq!(open.field_count(), 5);
    open.offered_capabilities = Some(Multiple(vec![Symbol::from("x")]));
    assert_eq!(open.field_count(), 8);
    let bytes = encoded(&open);
    assert_eq!(bytes[5], 8);
    // The two absent fields in front of the last one that is there are
    // written as null.
    let (_, decoded) = Open::decode(&bytes).unwrap();
    assert_eq!(decoded, open);
    assert_eq!(decoded.outgoing_locales, None);
    assert_eq!(decoded.incoming_locales, None);
}

#[test]
fn open_fills_omitted_fields_from_defaults() {
    let bytes = [0x00, 0x53, 0x10, 0xc0, 0x05, 0x01, 0xa1, 0x02, b'c', b'1'];
    let (rest, decoded) = Open::decode(&bytes).unwrap();
    assert_eq!(rest, empty());
    assert_eq!(decoded, Open::new(ByteStr::from("c1")));
    assert_eq!(decoded.max_frame_size, 4294967295);
    assert_eq!(decoded.max_frame_size, DEFAULT_MAX_FRAME_SIZE);
    assert_eq!(decoded.channel_max, 65535);
    assert_eq!(decoded.channel_max, DEFAULT_CHANNEL_MAX);
}

#[test]
fn open_takes_the_default_for_a_null_field() {
    let bytes = [0x00, 0x53, 0x10, 0xc0, 0x07, 0x03, 0xa1, 0x02, b'c', b'1', 0x40, 0x40];
    let (rest, decoded) = Open::decode(&bytes).unwrap();
    assert_eq!(rest, empty());
    assert_eq!(decoded.hostname, None);
    assert_eq!(decoded.max_frame_size, 4294967295);
}

#[test]
fn open_without_its_mandatory_field_is_refused() {
    let bytes = [0x00, 0x53, 0x10, 0x45];
    assert_eq!(Err(Error::RequiredFieldOmitted("container_id")), Open::decode(&bytes));
    let bytes = [0x00, 0x53, 0x10, 0xc0, 0x01, 0x00];
    assert_eq!(Err(Error::RequiredFieldOmitted("container_id")), Open::decode(&bytes));
    // A null in the place of the mandatory field is no string.
    let bytes = [0x00, 0x53, 0x10, 0xc0, 0x02, 0x01, 0x40];
    assert_eq!(Err(Error::InvalidFormatCode(0x40)), Open::decode(&bytes));
}

#[test]
fn open_is_known_by_code_and_by_name() {
    let mut bytes = vec![0x00, 0xa3, 14];
    bytes.extend_from_slice(b"amqp:open:list");
    bytes.extend_from_slice(&[0xc0, 0x05, 0x01, 0xa1, 0x02, b'c', b'1']);
    let (rest, decoded) = Open::decode(&bytes).unwrap();
    assert_eq!(rest, empty());
    assert_eq!(decoded, Open::new(ByteStr::from("c1")));

    let long = [0x00, 0x80, 0, 0, 0, 0, 0, 0, 0, 0x10, 0xc0, 0x05, 0x01, 0xa1, 0x02, b'c', b'1'];
    assert_eq!(Open::decode(&long).unwrap().1, Open::new(ByteStr::from("c1")));

    let open = Open::new(ByteStr::from("c1"));
    assert_eq!(open.descriptor_name(), "amqp:open:list");
    assert_eq!(open.descriptor_domain(), 0);
    assert_eq!(open.descriptor_code(), 0x10);
}

#[test]
fn unknown_descriptor_is_refused() {
    let bytes = [0x00, 0x53, 0x11, 0xc0, 0x05, 0x01, 0xa1, 0x02, b'c', b'1'];
    assert_eq!(Err(Error::InvalidDescriptor), Open::decode(&bytes));
    let bytes = [0x00, 0x80, 0, 0, 0, 1, 0, 0, 0, 0x10, 0xc0, 0x05, 0x01, 0xa1, 0x02, b'c', b'1'];
    assert_eq!(Err(Error::InvalidDescriptor), Open::decode(&bytes));
    let mut bytes = vec![0x00, 0xa3, 15];
    bytes.extend_from_slice(b"amqp:begin:list");
    bytes.extend_from_slice(&[0xc0, 0x05, 0x01, 0xa1, 0x02, b'c', b'1']);
    assert_eq!(Err(Error::InvalidDescriptor), Open::decode(&bytes));
    // What is no described value at all is refused by its format code.
    assert_eq!(Err(Error::InvalidFormatCode(0xc0)), Open::decode(&[0xc0, 1, 0]));
    // A descriptor has to be a number or a symbol.
    assert_eq!(Err(Error::InvalidFormatCode(0xa1)), Open::decode(&[0x00, 0xa1, 0]));
}

#[test]
fn omitted_fields_by_kind() {
    let input = [0x52u8, 9];
    assert_eq!(decode_optional_field::<u32>(&input, 0), Ok((&input[..], 0, None)));
    assert_eq!(decode_default_field::<u32>(&input, 0, 77), Ok((&input[..], 0, 77)));
    assert_eq!(
        decode_required_field::<u32>(&input, 0, "handle"),
        Err(Error::RequiredFieldOmitted("handle"))
    );
    assert_eq!(decode_optional_field::<u32>(&input, 3), Ok((empty(), 2, Some(9))));
    assert_eq!(decode_default_field::<u32>(&input, 3, 77), Ok((empty(), 2, 9)));
    assert_eq!(decode_required_field::<u32>(&input, 1, "handle"), Ok((empty(), 0, 9)));
    let null = [0x40u8];
    assert_eq!(decode_optional_field::<u32>(&null, 1), Ok((empty(), 0, None)));
    assert_eq!(decode_default_field::<u32>(&null, 1, 77), Ok((empty(), 0, 77)));
    assert_eq!(
        decode_required_field::<u32>(&null, 1, "handle"),
        Err(Error::InvalidFormatCode(0x40))
    );
}

#[test]
fn list_of_an_open_may_stand_alone() {
    let bytes = [0xc0, 0x05, 0x01, 0xa1, 0x02, b'c', b'1', 0x99];
    let (rest, open) = Open::decode_list(&bytes[1..], bytes[0]).unwrap();
    assert_eq!(rest, &[0x99][..]);
    assert_eq!(open, Open::new(ByteStr::from("c1")));
    assert_eq!(
        Open::decode_with_format(&bytes[1..], bytes[0]),
        Err(Error::InvalidFormatCode(0xc0))
    );
}
