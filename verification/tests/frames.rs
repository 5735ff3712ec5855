use amqp1::codec::{Decode, Encode};
use amqp1::errors::Error;
use amqp1::framing::{
    decode_frame, decode_frame_header, encode_frame, AmqpFrame, Frame, Performative, SaslFrame,
    SaslFrameBody, FRAME_TYPE_AMQP, FRAME_TYPE_SASL, HEADER_LEN,
};
use amqp1::io::{Codec, DecodeState};
use amqp1::protocol::begin::DEFAULT_HANDLE_MAX;
use amqp1::protocol::{
    decode_protocol_header, encode_protocol_header, Begin, Open, ProtocolId, SaslChallenge,
    SaslCode, SaslInit, SaslMechanisms, SaslOutcome, SaslResponse, PROTOCOL_HEADER_LEN,
};
use amqp1::types::{Binary, ByteStr, Multiple, Symbol, Variant, VariantMap};
use bytes::BytesMut;

fn open_frame() -> Frame {
    let mut open = Open::new(ByteStr::from("c1"));
    open.max_frame_size = 65535;
    open.channel_max = 65535;
    Frame::Amqp(AmqpFrame::new(3, Performative::Open(open), Binary::from_slice(&[9, 8, 7])))
}

fn encoded(frame: &Frame) -> Vec<u8> {
    let mut buf = BytesMut::with_capacity(0);
    encode_frame(frame, &mut buf);
    buf.to_vec()
}

#[test]
fn protocol_header_by_protocol() {
    assert_eq!(decode_protocol_header(b"AMQP\x00\x01\x00\x00"), Ok(ProtocolId::Amqp));
    assert_eq!(decode_protocol_header(b"AMQP\x01\x01\x00\x00"), Ok(ProtocolId::AmqpTls));
    assert_eq!(decode_protocol_header(b"AMQP\x02\x01\x00\x00"), Ok(ProtocolId::AmqpSasl));
    assert_eq!(decode_protocol_header(b"AMQP\x02\x01\x00\x00and more"), Ok(ProtocolId::AmqpSasl));
    for id in [ProtocolId::Amqp, ProtocolId::AmqpTls, ProtocolId::AmqpSasl] {
        let mut buf = BytesMut::with_capacity(0);
        encode_protocol_header(id, &mut buf);
        assert_eq!(buf.len(), PROTOCOL_HEADER_LEN);
        assert_eq!(decode_protocol_header(&buf), Ok(id));
    }
}

#[test]
fn protocol_header_that_is_wrong() {
    assert_eq!(decode_protocol_header(b"AMQP\x00\x01\x00"), Err(Error::Incomplete(Some(8))));
    assert_eq!(decode_protocol_header(b""), Err(Error::Incomplete(Some(8))));
    assert_eq!(decode_protocol_header(b"HTTP\x00\x01\x00\x00"), Err(Error::InvalidProtocolHeader));
    assert_eq!(decode_protocol_header(b"AMQQ\x00\x01\x00\x00"), Err(Error::InvalidProtocolHeader));
    assert_eq!(decode_protocol_header(b"AMQP\x00\x01\x00\x01"), Err(Error::IncompatibleVersion));
    assert_eq!(decode_protocol_header(b"AMQP\x00\x00\x09\x01"), Err(Error::IncompatibleVersion));
    assert_eq!(decode_protocol_header(b"AMQP\x03\x01\x00\x00"), Err(Error::UnknownProtocolId(3)));
    // The version is looked at before the protocol.
    assert_eq!(decode_protocol_header(b"AMQP\x03\x02\x00\x00"), Err(Error::IncompatibleVersion));
}

#[test]
fn frame_bytes_are_those_of_the_wire() {
    let bytes = encoded(&open_frame());
    assert_eq!(
        bytes,
        vec![
            0, 0, 0, 30, 2, 0, 0, 3, 0x00, 0x53, 0x10, 0xc0, 0x0e, 0x04, 0xa1, 0x02, b'c', b'1',
            0x40, 0x70, 0x00, 0x00, 0xff, 0xff, 0x60, 0xff, 0xff, 9, 8, 7,
        ]
    );
    assert_eq!(decode_frame(&bytes), Ok(open_frame()));
}

#[test]
fn frame_fed_byte_by_byte() {
    let bytes = encoded(&open_frame());
    let mut codec = Codec::new();
    let mut buf = BytesMut::with_capacity(0);
    buf.extend_from_slice(b"AMQP\x00\x01\x00\x00");
    assert_eq!(codec.decode(&mut buf), Ok(None));
    assert_eq!(codec.state(), DecodeState::FrameHeader);
    assert_eq!(codec.protocol_id(), Some(ProtocolId::Amqp));
    assert_eq!(buf.len(), 0);
    for (i, byte) in bytes.iter().enumerate() {
        buf.extend_from_slice(&[*byte]);
        let result = codec.decode(&mut buf);
        if i + 1 < bytes.len() {
            assert_eq!(result, Ok(None), "after {} bytes", i + 1);
            assert_eq!(buf.len(), i + 1);
            if i + 1 < HEADER_LEN {
                assert_eq!(codec.state(), DecodeState::FrameHeader);
            } else {
                assert_eq!(codec.state(), DecodeState::Frame(bytes.len()));
            }
        } else {
            assert_eq!(result, Ok(Some(open_frame())));
            assert_eq!(buf.len(), 0);
            assert_eq!(codec.state(), DecodeState::FrameHeader);
        }
    }
}

#[test]
fn seven_bytes_of_a_header_are_not_enough() {
    let mut codec = Codec::new();
    let mut buf = BytesMut::with_capacity(0);
    buf.extend_from_slice(b"AMQP\x00\x01\x00\x00");
    buf.extend_from_slice(&[0, 0, 0, 4, 1, 0, 0]);
    assert_eq!(codec.decode(&mut buf), Ok(None));
    assert_eq!(buf.len(), 7);
    assert_eq!(codec.decode(&mut buf), Ok(None));
    assert_eq!(buf.len(), 7);
}

#[test]
fn protocol_header_is_waited_for() {
    let mut codec = Codec::new();
    let mut buf = BytesMut::with_capacity(0);
    assert_eq!(codec.decode(&mut buf), Ok(None));
    buf.extend_from_slice(b"AMQP\x02\x01\x00");
    assert_eq!(codec.decode(&mut buf), Ok(None));
    assert_eq!(codec.state(), DecodeState::ProtocolHeader);
    assert_eq!(codec.protocol_id(), None);
    assert_eq!(buf.len(), 7);
    buf.extend_from_slice(b"\x00");
    assert_eq!(codec.decode(&mut buf), Ok(None));
    assert_eq!(codec.state(), DecodeState::FrameHeader);
    assert_eq!(codec.protocol_id(), Some(ProtocolId::AmqpSasl));
}

#[test]
fn protocol_header_that_is_wrong_fails_the_decoder() {
    let mut codec = Codec::new();
    let mut buf = BytesMut::with_capacity(0);
    buf.extend_from_slice(b"AMQP\x00\x02\x00\x00rest");
    assert_eq!(codec.decode(&mut buf), Err(Error::IncompatibleVersion));
    assert_eq!(&buf[..], b"rest");
    assert_eq!(codec.state(), DecodeState::ProtocolHeader);
}

fn decoder_behind_the_protocol_header() -> (Codec, BytesMut) {
    let mut codec = Codec::new();
    let mut buf = BytesMut::with_capacity(0);
    buf.extend_from_slice(b"AMQP\x00\x01\x00\x00");
    assert_eq!(codec.decode(&mut buf), Ok(None));
    (codec, buf)
}

#[test]
fn frame_header_with_a_size_below_eight_is_invalid() {
    let (mut codec, mut buf) = decoder_behind_the_protocol_header();
    buf.extend_from_slice(&[0, 0, 0, 4, 2, 0, 0, 0]);
    assert_eq!(codec.decode(&mut buf), Err(Error::InvalidFrame));
    assert_eq!(buf.len(), 8);

    let (mut codec, mut buf) = decoder_behind_the_protocol_header();
    buf.extend_from_slice(&[0, 0, 0, 4, 2, 0, 0, 0, 1, 2, 3, 4, 5, 6, 7, 8, 9, 10]);
    assert_eq!(codec.decode(&mut buf), Err(Error::InvalidFrame));

    let (mut codec, mut buf) = decoder_behind_the_protocol_header();
    buf.extend_from_slice(&[0, 0, 0, 7, 2, 0, 0, 0]);
    assert_eq!(codec.decode(&mut buf), Err(Error::InvalidFrame));
}

#[test]
fn frame_header_with_a_data_offset_below_two_is_invalid() {
    let (mut codec, mut buf) = decoder_behind_the_protocol_header();
    buf.extend_from_slice(&[0, 0, 0, 30, 1, 0, 0, 0]);
    assert_eq!(codec.decode(&mut buf), Err(Error::InvalidFrame));
    assert_eq!(buf.len(), 8);

    let (mut codec, mut buf) = decoder_behind_the_protocol_header();
    let mut bytes = encoded(&open_frame());
    bytes[4] = 0;
    buf.extend_from_slice(&bytes);
    buf.extend_from_slice(&[1, 2, 3]);
    assert_eq!(codec.decode(&mut buf), Err(Error::InvalidFrame));
}

#[test]
fn two_frames_in_one_buffer() {
    let (mut codec, mut buf) = decoder_behind_the_protocol_header();
    let bytes = encoded(&open_frame());
    buf.extend_from_slice(&bytes);
    buf.extend_from_slice(&bytes);
    buf.extend_from_slice(&bytes[..5]);
    assert_eq!(codec.decode(&mut buf), Ok(Some(open_frame())));
    assert_eq!(buf.len(), bytes.len() + 5);
    assert_eq!(codec.decode(&mut buf), Ok(Some(open_frame())));
    assert_eq!(buf.len(), 5);
    assert_eq!(codec.decode(&mut buf), Ok(None));
    assert_eq!(buf.len(), 5);
}

#[test]
fn extended_header_is_skipped() {
    let mut bytes = vec![0, 0, 0, 0, 3, 0, 0, 5, 0xaa, 0xbb, 0xcc, 0xdd];
    let mut open = BytesMut::with_capacity(0);
    Open::new(ByteStr::from("x")).encode(&mut open);
    bytes.extend_from_slice(&open);
    bytes[3] = bytes.len() as u8;
    let frame = decode_frame(&bytes).unwrap();
    match frame {
        Frame::Amqp(amqp) => {
            assert_eq!(amqp.channel_id(), 5);
            assert_eq!(amqp.performative(), &Performative::Open(Open::new(ByteStr::from("x"))));
            assert_eq!(amqp.body(), &Binary::from_slice(&[]));
        },
        other => panic!("not an AMQP frame: {:?}", other),
    }
}

#[test]
fn frame_header_behind_the_size() {
    assert_eq!(decode_frame_header(&[2, 0, 1, 2, 0x77], FRAME_TYPE_AMQP), Ok((&[0x77u8][..], 258)));
    assert_eq!(decode_frame_header(&[2, 1, 0, 0], FRAME_TYPE_SASL), Ok((&[][..], 0)));
    assert_eq!(
        decode_frame_header(&[2, 1, 0, 0], FRAME_TYPE_AMQP),
        Err(Error::UnexpectedFrameType(1))
    );
    assert_eq!(decode_frame_header(&[1, 0, 0, 0], FRAME_TYPE_AMQP), Err(Error::InvalidFrame));
    assert_eq!(decode_frame_header(&[2, 0, 0], FRAME_TYPE_AMQP), Err(Error::Incomplete(Some(4))));
    assert_eq!(
        decode_frame_header(&[4, 0, 0, 0, 1, 2], FRAME_TYPE_AMQP),
        Err(Error::Incomplete(Some(12)))
    );
}

#[test]
fn frame_of_an_unknown_type_or_kind() {
    let mut bytes = encoded(&open_frame());
    bytes[5] = 7;
    assert_eq!(decode_frame(&bytes), Err(Error::UnexpectedFrameType(7)));
    let mut bytes = encoded(&open_frame());
    bytes[10] = 0x12;
    assert_eq!(decode_frame(&bytes), Err(Error::InvalidDescriptor));
    // Under the descriptor of another performative the fields do not fit.
    bytes[10] = 0x11;
    assert_eq!(decode_frame(&bytes), Err(Error::InvalidFormatCode(0xa1)));
    assert_eq!(decode_frame(&[0, 0, 0, 7, 2, 0, 0]), Err(Error::InvalidFrame));
    // A frame that ends in the middle of its performative cannot be helped
    // by more input: the decoder has taken it off the buffer.
    let (mut codec, mut buf) = decoder_behind_the_protocol_header();
    buf.extend_from_slice(&[0, 0, 0, 10, 2, 0, 0, 0, 0x00, 0x53]);
    assert_eq!(codec.decode(&mut buf), Err(Error::Incomplete(Some(1))));
    assert_eq!(buf.len(), 0);
    assert_eq!(codec.state(), DecodeState::FrameHeader);
}

#[test]
fn sasl_frames_round_trip() {
    let frames = vec![
        SaslFrameBody::SaslMechanisms(SaslMechanisms {
            sasl_server_mechanisms: Multiple(vec![Symbol::from("PLAIN"), Symbol::from("ANONYMOUS")]),
        }),
        SaslFrameBody::SaslMechanisms(SaslMechanisms {
            sasl_server_mechanisms: Multiple(vec![Symbol::from("PLAIN")]),
        }),
        SaslFrameBody::SaslInit(SaslInit {
            mechanism: Symbol::from("PLAIN"),
            initial_response: Some(Binary::from_slice(b"\x00user\x00secret")),
            hostname: None,
        }),
        SaslFrameBody::SaslInit(SaslInit {
            mechanism: Symbol::from("ANONYMOUS"),
            initial_response: None,
            hostname: Some(ByteStr::from("example.org")),
        }),
        SaslFrameBody::SaslChallenge(SaslChallenge { challenge: Binary::from_slice(&[1, 2, 3]) }),
        SaslFrameBody::SaslResponse(SaslResponse { response: Binary::from_slice(&[]) }),
        SaslFrameBody::SaslOutcome(SaslOutcome { code: SaslCode::Success, additional_data: None }),
        SaslFrameBody::SaslOutcome(SaslOutcome {
            code: SaslCode::SysTemp,
            additional_data: Some(Binary::from_slice(&[1, 2])),
        }),
    ];
    for body in frames {
        let frame = Frame::Sasl(SaslFrame::new(body));
        let bytes = encoded(&frame);
        assert_eq!(bytes[3] as usize, bytes.len());
        assert_eq!(&bytes[4..8], &[2, 1, 0, 0][..]);
        assert_eq!(decode_frame(&bytes), Ok(frame));
    }
}

#[test]
fn sasl_outcome_bytes() {
    let frame = Frame::Sasl(SaslFrame::new(SaslFrameBody::SaslOutcome(SaslOutcome {
        code: SaslCode::Auth,
        additional_data: None,
    })));
    let bytes = encoded(&frame);
    assert_eq!(bytes, vec![0, 0, 0, 16, 2, 1, 0, 0, 0x00, 0x53, 0x44, 0xc0, 0x03, 0x01, 0x50, 0x01]);
    // An outcome that is none of the five.
    let mut unknown = bytes.clone();
    unknown[15] = 9;
    assert_eq!(decode_frame(&unknown), Err(Error::UnknownOption));
    // A SASL frame has to end with its performative.
    let mut longer = bytes.clone();
    longer.push(0);
    longer[3] = 17;
    assert_eq!(decode_frame(&longer), Err(Error::TrailingBytes));
    // The list of an outcome needs its code.
    let short = [0, 0, 0, 12, 2, 1, 0, 0, 0x00, 0x53, 0x44, 0x45];
    assert_eq!(decode_frame(&short), Err(Error::RequiredFieldOmitted("code")));
}

#[test]
fn sasl_frames_through_the_decoder() {
    let mut codec = Codec::new();
    let mut buf = BytesMut::with_capacity(0);
    buf.extend_from_slice(b"AMQP\x02\x01\x00\x00");
    let frame = Frame::Sasl(SaslFrame::new(SaslFrameBody::SaslInit(SaslInit {
        mechanism: Symbol::from("PLAIN"),
        initial_response: None,
        hostname: None,
    })));
    encode_frame(&frame, &mut buf);
    assert_eq!(codec.decode(&mut buf), Ok(Some(frame)));
    assert_eq!(codec.protocol_id(), Some(ProtocolId::AmqpSasl));
    assert_eq!(buf.len(), 0);
}

fn begin() -> Begin {
    Begin {
        remote_channel: None,
        next_outgoing_id: 1,
        incoming_window: 2048,
        outgoing_window: 0,
        handle_max: DEFAULT_HANDLE_MAX,
        offered_capabilities: None,
        desired_capabilities: None,
        properties: None,
    }
}

#[test]
fn begin_frame_round_trips() {
    let frame = Frame::Amqp(AmqpFrame::new(
        1,
        Performative::Begin(begin()),
        Binary::from_slice(&[]),
    ));
    let bytes = encoded(&frame);
    assert_eq!(
        bytes,
        vec![
            0, 0, 0, 28, 2, 0, 0, 1, 0x00, 0x53, 0x11, 0xc0, 0x0f, 0x05, 0x40, 0x52, 1, 0x70, 0, 0,
            8, 0, 0x43, 0x70, 0xff, 0xff, 0xff, 0xff,
        ]
    );
    assert_eq!(decode_frame(&bytes), Ok(frame));

    let mut full = begin();
    full.remote_channel = Some(7);
    full.handle_max = 15;
    full.desired_capabilities = Some(Multiple(vec![Symbol::from("a"), Symbol::from("b")]));
    full.properties = Some(VariantMap::new(vec![(Variant::Uint(1), Variant::Null)]));
    let frame = Frame::Amqp(AmqpFrame::new(
        65535,
        Performative::Begin(full),
        Binary::from_slice(b"payload"),
    ));
    let bytes = encoded(&frame);
    assert_eq!(bytes[13], 8);
    assert_eq!(decode_frame(&bytes), Ok(frame));
}

#[test]
fn begin_needs_its_mandatory_fields() {
    // Fields behind the ones that the list holds are defaulted or missed.
    let one = [0x00, 0x53, 0x11, 0xc0, 0x02, 0x01, 0x40];
    assert_eq!(Begin::decode(&one), Err(Error::RequiredFieldOmitted("next_outgoing_id")));
    let three = [0x00, 0x53, 0x11, 0xc0, 0x06, 0x03, 0x40, 0x52, 1, 0x52, 2];
    assert_eq!(Begin::decode(&three), Err(Error::RequiredFieldOmitted("outgoing_window")));
    let four = [0x00, 0x53, 0x11, 0xc0, 0x07, 0x04, 0x60, 0, 9, 0x43, 0x43, 0x43];
    let (rest, decoded) = Begin::decode(&four).unwrap();
    assert!(rest.is_empty());
    assert_eq!(decoded.remote_channel, Some(9));
    assert_eq!(decoded.handle_max, 4294967295);
    assert_eq!(decoded.properties, None);
    // An `Open` is no `Begin`.
    let open = [0x00, 0x53, 0x10, 0xc0, 0x05, 0x01, 0xa1, 0x02, b'c', b'1'];
    assert_eq!(Begin::decode(&open), Err(Error::InvalidDescriptor));
    assert_eq!(
        Performative::decode(&open),
        Ok((&[][..], Performative::Open(Open::new(ByteStr::from("c1")))))
    );
}

#[test]
fn codec_encodes_what_it_decodes() {
    let mut codec = Codec::new();
    let mut buf = BytesMut::with_capacity(0);
    buf.extend_from_slice(b"AMQP\x00\x01\x00\x00");
    assert_eq!(codec.encode(&open_frame(), &mut buf), Ok(()));
    assert_eq!(buf.len(), 8 + 30);
    assert_eq!(codec.decode(&mut buf), Ok(Some(open_frame())));
    assert_eq!(buf.len(), 0);
}
