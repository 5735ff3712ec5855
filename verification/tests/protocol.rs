use amqp1::codec::{Decode, Encode};
use amqp1::errors::Error;
use amqp1::protocol::{
    AmqpError, AnnotationKey, ConnectionError, DistributionMode, ErrorCondition, LinkError,
    MessageId, SaslCode, SessionError,
};
use amqp1::types::{Binary, ByteStr, Descriptor, Symbol, Uuid};
use bytes::BytesMut;

fn empty() -> &'static [u8] {
    &[]
}

fn encoded<T: Encode>(value: &T) -> Vec<u8> {
    let mut buf = BytesMut::with_capacity(0);
    value.encode(&mut buf);
    assert_eq!(buf.len(), value.encoded_size());
    assert_eq!(value.size_within(buf.len()), Some(buf.len()));
    buf.to_vec()
}

#[test]
fn error_condition_by_name() {
    let cases = vec![
        ("amqp:internal-error", ErrorCondition::AmqpError(AmqpError::InternalError)),
        ("amqp:not-found", ErrorCondition::AmqpError(AmqpError::NotFound)),
        ("amqp:frame-size-too-small", ErrorCondition::AmqpError(AmqpError::FrameSizeTooSmall)),
        ("amqp:connection:forced", ErrorCondition::ConnectionError(ConnectionError::ConnectionForced)),
        ("amqp:connection:redirect", ErrorCondition::ConnectionError(ConnectionError::Redirect)),
        ("amqp:session:errant-link", ErrorCondition::SessionError(SessionError::ErrantLink)),
        ("amqp:link:stolen", ErrorCondition::LinkError(LinkError::Stolen)),
        ("amqp:link:redirect", ErrorCondition::LinkError(LinkError::Redirect)),
        ("com.example:broken", ErrorCondition::Custom(Symbol::from("com.example:broken"))),
        ("", ErrorCondition::Custom(Symbol::from(""))),
    ];
    for (name, condition) in cases {
        let bytes = encoded(&Symbol::from(name));
        assert_eq!(ErrorCondition::decode(&bytes), Ok((empty(), condition.clone())), "{}", name);
        assert_eq!(encoded(&condition), bytes, "{}", name);
    }
    assert_eq!(ErrorCondition::decode(&[0xa1, 0]), Err(Error::InvalidFormatCode(0xa1)));
}

#[test]
fn choices_refuse_what_is_no_option() {
    let bytes = encoded(&Symbol::from("amqp:link:stolen"));
    assert_eq!(LinkError::decode(&bytes), Ok((empty(), LinkError::Stolen)));
    assert_eq!(AmqpError::decode(&bytes), Err(Error::UnknownOption));
    assert_eq!(SessionError::decode(&bytes), Err(Error::UnknownOption));
    assert_eq!(ConnectionError::decode(&bytes), Err(Error::UnknownOption));
    assert_eq!(LinkError::try_from(&Symbol::from("amqp:link:stolen!")), Err(Error::UnknownOption));
    assert_eq!(AmqpError::try_from(&Symbol::from("amqp:not-allowed")), Ok(AmqpError::NotAllowed));
    assert_eq!(AmqpError::NotAllowed.name(), "amqp:not-allowed");
    assert_eq!(encoded(&SessionError::HandleInUse), encoded(&Symbol::from("amqp:session:handle-in-use")));
    assert_eq!(encoded(&ConnectionError::FramingError)[0], 0xa3);
}

#[test]
fn sasl_code_by_number() {
    let codes = [
        (0u8, SaslCode::Success),
        (1, SaslCode::Auth),
        (2, SaslCode::Sys),
        (3, SaslCode::SysPerm),
        (4, SaslCode::SysTemp),
    ];
    for (number, code) in codes {
        assert_eq!(SaslCode::try_from(number), Ok(code));
        assert_eq!(code.value(), number);
        assert_eq!(encoded(&code), vec![0x50, number]);
        assert_eq!(SaslCode::decode(&[0x50, number]), Ok((empty(), code)));
    }
    assert_eq!(SaslCode::try_from(5), Err(Error::UnknownOption));
    assert_eq!(SaslCode::decode(&[0x50, 255]), Err(Error::UnknownOption));
    assert_eq!(SaslCode::decode(&[0x52, 0]), Err(Error::InvalidFormatCode(0x52)));
}

#[test]
fn distribution_mode_by_name() {
    let cases = vec![
        ("move", DistributionMode::Move),
        ("copy", DistributionMode::Copy),
        ("Move", DistributionMode::Custom(Symbol::from("Move"))),
        ("mov", DistributionMode::Custom(Symbol::from("mov"))),
    ];
    for (name, mode) in cases {
        let bytes = encoded(&Symbol::from(name));
        assert_eq!(DistributionMode::decode(&bytes), Ok((empty(), mode.clone())));
        assert_eq!(encoded(&mode), bytes);
    }
}

#[test]
fn message_id_of_each_kind() {
    let ids = vec![
        MessageId::Ulong(0),
        MessageId::Ulong(200),
        MessageId::Ulong(u64::MAX),
        MessageId::Uuid(Uuid([7; 16])),
        MessageId::Binary(Binary::from_slice(&[1, 2, 3])),
        MessageId::String(ByteStr::from("id-1")),
    ];
    for id in ids {
        let bytes = encoded(&id);
        assert_eq!(MessageId::decode(&bytes), Ok((empty(), id)));
    }
    assert_eq!(encoded(&MessageId::Ulong(0)), vec![0x44]);
    assert_eq!(MessageId::decode(&[0xa3, 0]), Err(Error::InvalidFormatCode(0xa3)));
    assert_eq!(MessageId::decode(&[0x52, 0]), Err(Error::InvalidFormatCode(0x52)));
}

#[test]
fn descriptor_is_a_number_or_a_symbol() {
    assert_eq!(Descriptor::decode(&[0x53, 0x10]), Ok((empty(), Descriptor::Ulong(0x10))));
    assert_eq!(
        Descriptor::decode(&[0x80, 0, 0, 0, 1, 0, 0, 0, 2]),
        Ok((empty(), Descriptor::Ulong(0x1_0000_0002)))
    );
    assert_eq!(
        Descriptor::decode(&[0xa3, 1, b'x', 9]),
        Ok((&[9u8][..], Descriptor::Symbol(Symbol::from("x"))))
    );
    assert_eq!(
        Descriptor::decode(&[0xb3, 0, 0, 0, 1, b'x']),
        Ok((empty(), Descriptor::Symbol(Symbol::from("x"))))
    );
    assert_eq!(Descriptor::decode(&[0x44]), Err(Error::InvalidFormatCode(0x44)));
    assert_eq!(Descriptor::decode(&[0xa1, 0]), Err(Error::InvalidFormatCode(0xa1)));
    assert_eq!(AnnotationKey::Ulong(1), AnnotationKey::Ulong(1));
    assert_ne!(AnnotationKey::Ulong(1), AnnotationKey::Symbol(Symbol::from("1")));
}

#[test]
fn errors_say_what_they_are() {
    assert!(Error::Incomplete(Some(3)).is_incomplete());
    assert!(Error::Incomplete(None).is_incomplete());
    assert!(!Error::InvalidFrame.is_incomplete());
    assert!(!Error::RequiredFieldOmitted("handle").is_incomplete());
    assert_eq!(Error::InvalidProtocolHeader.description(), "protocol header is invalid");
    assert_eq!(Error::IncompatibleVersion.description(), "protocol version is incompatible");
    assert_eq!(Error::UnknownProtocolId(9).description(), "unknown protocol id");
    assert_eq!(Error::TrailingBytes.description(), "bytes left unparsed at the frame trail");
    assert_eq!(
        Error::Incomplete(Some(8)).description(),
        "more data required during frame parsing"
    );
    assert_eq!(Error::InvalidFormatCode(1).description(), "invalid format code");
    assert_eq!(Error::Unencodable.description(), "value cannot be encoded");
}
