use amqp1::codec::{Decode, Encode};
use amqp1::errors::Error;
use amqp1::framing::{decode_frame, encode_frame, AmqpFrame, Frame, Performative};
use amqp1::protocol::{
    AmqpError, Close, Described, Detach, End, ErrorCondition, ErrorInfo, Flow, LinkError,
};
use amqp1::types::{Binary, ByteStr, Symbol, Variant, VariantMap};
use bytes::BytesMut;

fn encoded<T: Encode>(value: &T) -> Vec<u8> {
    let mut buf = BytesMut::with_capacity(0);
    value.encode(&mut buf);
    assert_eq!(buf.len(), value.encoded_size());
    assert_eq!(value.size_within(buf.len()), Some(buf.len()));
    assert_eq!(value.size_within(buf.len() - 1), None);
    buf.to_vec()
}

fn through_a_frame(performative: Performative) -> Frame {
    let frame = Frame::Amqp(AmqpFrame::new(2, performative, Binary::from_slice(&[])));
    let mut buf = BytesMut::with_capacity(0);
    encode_frame(&frame, &mut buf);
    let decoded = decode_frame(&buf).unwrap();
    assert_eq!(decoded, frame);
    decoded
}

fn flow() -> Flow {
    Flow {
        next_incoming_id: None,
        incoming_window: 100,
        next_outgoing_id: 1,
        outgoing_window: 300,
        handle: None,
        delivery_count: None,
        link_credit: None,
        available: None,
        drain: false,
        echo: false,
        properties: None,
    }
}

#[test]
fn close_without_an_error_is_an_empty_list() {
    let close = Close { error: None };
    assert_eq!(encoded(&close), vec![0x00, 0x53, 0x18, 0x45]);
    assert_eq!(Close::decode(&[0x00, 0x53, 0x18, 0x45]), Ok((&[][..], Close { error: None })));
    // The same list with a header of its own, and with a null for the error.
    assert_eq!(Close::decode(&[0x00, 0x53, 0x18, 0xc0, 1, 0]).unwrap().1, close);
    assert_eq!(Close::decode(&[0x00, 0x53, 0x18, 0xc0, 2, 1, 0x40]).unwrap().1, close);
    assert_eq!(encoded(&End { error: None }), vec![0x00, 0x53, 0x17, 0x45]);
    assert_eq!(close.descriptor_name(), "amqp:close:list");
    assert_eq!(close.descriptor_code(), 0x18);
    through_a_frame(Performative::Close(close));
    through_a_frame(Performative::End(End { error: None }));
}

#[test]
fn close_with_an_error() {
    let error = ErrorInfo {
        condition: ErrorCondition::AmqpError(AmqpError::NotAllowed),
        description: Some(ByteStr::from("no")),
        info: None,
    };
    let close = Close { error: Some(error) };
    let bytes = encoded(&close);
    let mut expected = vec![0x00, 0x53, 0x18, 0xc0, 29, 1, 0x00, 0x53, 0x1d, 0xc0, 23, 2, 0xa3, 16];
    expected.extend_from_slice(b"amqp:not-allowed");
    expected.extend_from_slice(&[0xa1, 2, b'n', b'o']);
    assert_eq!(bytes, expected);
    assert_eq!(Close::decode(&bytes), Ok((&[][..], close)));
    let error = ErrorInfo {
        condition: ErrorCondition::Custom(Symbol::from("example:custom")),
        description: None,
        info: Some(VariantMap::new(vec![(Variant::Symbol(Symbol::from("k")), Variant::Uint(1))])),
    };
    through_a_frame(Performative::End(End { error: Some(error) }));
}

#[test]
fn error_needs_its_condition() {
    assert_eq!(
        ErrorInfo::decode(&[0x00, 0x53, 0x1d, 0x45]),
        Err(Error::RequiredFieldOmitted("condition"))
    );
    assert_eq!(
        ErrorInfo::decode(&[0x00, 0x53, 0x1d, 0xc0, 2, 1, 0x40]),
        Err(Error::InvalidFormatCode(0x40))
    );
    // A described value in the place of the error that is no error.
    assert_eq!(
        Close::decode(&[0x00, 0x53, 0x18, 0xc0, 5, 1, 0x00, 0x53, 0x10, 0x45]),
        Err(Error::InvalidDescriptor)
    );
}

#[test]
fn detach_closes_or_not() {
    let detach = Detach { handle: 7, closed: false, error: None };
    assert_eq!(encoded(&detach), vec![0x00, 0x53, 0x16, 0xc0, 4, 2, 0x52, 7, 0x42]);
    let (_, decoded) = Detach::decode(&[0x00, 0x53, 0x16, 0xc0, 3, 1, 0x43]).unwrap();
    assert_eq!(decoded, Detach { handle: 0, closed: false, error: None });
    let closing = Detach {
        handle: 300,
        closed: true,
        error: Some(ErrorInfo {
            condition: ErrorCondition::LinkError(LinkError::DetachForced),
            description: None,
            info: None,
        }),
    };
    through_a_frame(Performative::Detach(closing));
    through_a_frame(Performative::Detach(detach));
    assert_eq!(
        Detach::decode(&[0x00, 0x53, 0x16, 0x45]),
        Err(Error::RequiredFieldOmitted("handle"))
    );
}

#[test]
fn flow_of_a_session_and_of_a_link() {
    let session = flow();
    let bytes = encoded(&session);
    assert_eq!(
        bytes,
        vec![
            0x00, 0x53, 0x13, 0xc0, 17, 10, 0x40, 0x52, 100, 0x52, 1, 0x70, 0, 0, 1, 0x2c, 0x40,
            0x40, 0x40, 0x40, 0x42, 0x42,
        ]
    );
    assert_eq!(Flow::decode(&bytes), Ok((&[][..], session)));
    let mut link = flow();
    link.next_incoming_id = Some(5);
    link.handle = Some(0);
    link.delivery_count = Some(9);
    link.link_credit = Some(1000);
    link.available = Some(0);
    link.drain = true;
    link.echo = true;
    link.properties = Some(VariantMap::new(vec![]));
    assert_eq!(encoded(&link)[5], 11);
    through_a_frame(Performative::Flow(link));
    // A list that ends behind the mandatory fields takes the defaults.
    let short = [0x00, 0x53, 0x13, 0xc0, 5, 4, 0x40, 0x43, 0x43, 0x43];
    let (_, decoded) = Flow::decode(&short).unwrap();
    assert!(!decoded.drain);
    assert!(!decoded.echo);
    assert_eq!(decoded.handle, None);
    let shorter = [0x00, 0x53, 0x13, 0xc0, 4, 3, 0x40, 0x43, 0x43];
    assert_eq!(Flow::decode(&shorter), Err(Error::RequiredFieldOmitted("outgoing_window")));
}
