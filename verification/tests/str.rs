use amqp1::types::{ByteStr, Symbol};

#[test]
fn slice() {
    let a = ByteStr::from("hello");
    let b = a.slice(1, 5);
    assert_eq!(ByteStr::from("ello"), b);
}

#[test]
fn as_str() {
    let a = ByteStr::from("hello");
    assert_eq!("hello", a.as_str());
}

#[test]
fn slice_to_keeps_the_front() {
    let a = ByteStr::from("grüße");
    assert_eq!(a.len(), 7);
    assert_eq!(ByteStr::from("grü"), a.slice_to(4));
    assert_eq!(ByteStr::from("üß"), a.slice(2, 6));
    assert_eq!(a.as_bytes(), "grüße".as_bytes());
}

#[test]
fn from_utf8_checks_the_bytes() {
    assert_eq!(ByteStr::from_utf8(b"caf\xc3\xa9"), Some(ByteStr::from("café")));
    assert_eq!(ByteStr::from_utf8(b"caf\xc3"), None);
    assert_eq!(Symbol::from_utf8(b"amqp:open:list"), Some(Symbol::from_static("amqp:open:list")));
    assert_eq!(Symbol::from_utf8(b"\xff"), None);
    assert_eq!(Symbol::from("abc").as_str(), "abc");
    assert_eq!(Symbol::from("abc").len(), 3);
}
