use vstd::prelude::*;

verus! {

/// Why a value or a frame could not be decoded.
///
/// `Incomplete` asks for more input and can be retried on a longer buffer;
/// every other kind is final for the value or frame at hand.
#[derive(Debug, Clone, Copy, PartialEq, Eq)]
pub enum Error {
    /// The format code is none of those the target type is encoded with.
    InvalidFormatCode(u8),
    /// The descriptor of a described value names no entry of the catalog.
    InvalidDescriptor,
    /// The input ends before the value does. Holds the number of bytes that
    /// the step that failed needs in front of it, where that is known.
    Incomplete(Option<usize>),
    /// A frame header whose size or data offset is below the minimum.
    InvalidFrame,
    /// The payload of a string or symbol is not UTF-8.
    InvalidUtf8,
    /// The four bytes of a char are no Unicode scalar value.
    InvalidChar(u32),
    /// A list ended before a mandatory field that has no default.
    RequiredFieldOmitted(&'static str),
    /// The value is none of the options of the choice type it was read for.
    UnknownOption,
    /// A map header that declares an odd number of elements.
    OddMapCount(u32),
    /// A compound header whose size is smaller than its own count field.
    InvalidCompoundSize(u32),
    /// The first bytes of a connection are not the protocol's name.
    InvalidProtocolHeader,
    /// The protocol header names a version other than 1.0.0.
    IncompatibleVersion,
    /// The protocol header names no known protocol.
    UnknownProtocolId(u8),
    /// The frame is of another type than the one that was asked for.
    UnexpectedFrameType(u8),
    /// A frame holds bytes after its last decoded part.
    TrailingBytes,
    /// The value has no encoding, or none that the buffer has room for: a
    /// length in it does not fit the field that the wire has for it.
    Unencodable,
}


impl Error {
    /// The input ended too early: the same call may succeed on a longer
    /// buffer. Every other error is final.
    pub open spec fn spec_is_incomplete(self) -> bool {
        self is Incomplete
    }

    /// Whether the error asks for more input.
    pub fn is_incomplete(&self) -> (r: bool)
        ensures
            r == self.spec_is_incomplete(),
    {
        match self {
            Error::Incomplete(_) => true,
            _ => false,
        }
    }

    /// What the error says, in words.
    pub open spec fn spec_description(self) -> Seq<char> {
        match self {
            Error::InvalidFormatCode(_) => "invalid format code"@,
            Error::InvalidDescriptor => "invalid descriptor"@,
            Error::Incomplete(_) => "more data required during frame parsing"@,
            Error::InvalidFrame => "invalid frame"@,
            Error::InvalidUtf8 => "text is not UTF-8"@,
            Error::InvalidChar(_) => "invalid value converting to char"@,
            Error::RequiredFieldOmitted(_) => "required field was omitted"@,
            Error::UnknownOption => "unknown option"@,
            Error::OddMapCount(_) => "odd number of map elements"@,
            Error::InvalidCompoundSize(_) => "invalid size of a compound value"@,
            Error::InvalidProtocolHeader => "protocol header is invalid"@,
            Error::IncompatibleVersion => "protocol version is incompatible"@,
            Error::UnknownProtocolId(_) => "unknown protocol id"@,
            Error::UnexpectedFrameType(_) => "unexpected frame type"@,
            Error::TrailingBytes => "bytes left unparsed at the frame trail"@,
            Error::Unencodable => "value cannot be encoded"@,
        }
    }

    /// What the error says, in words.
    pub fn description(&self) -> (text: &'static str)
        ensures
            text@ == self.spec_description(),
    {
        match self {
            Error::InvalidFormatCode(_) => "invalid format code",
            Error::InvalidDescriptor => "invalid descriptor",
            Error::Incomplete(_) => "more data required during frame parsing",
            Error::InvalidFrame => "invalid frame",
            Error::InvalidUtf8 => "text is not UTF-8",
            Error::InvalidChar(_) => "invalid value converting to char",
            Error::RequiredFieldOmitted(_) => "required field was omitted",
            Error::UnknownOption => "unknown option",
            Error::OddMapCount(_) => "odd number of map elements",
            Error::InvalidCompoundSize(_) => "invalid size of a compound value",
            Error::InvalidProtocolHeader => "protocol header is invalid",
            Error::IncompatibleVersion => "protocol version is incompatible",
            Error::UnknownProtocolId(_) => "unknown protocol id",
            Error::UnexpectedFrameType(_) => "unexpected frame type",
            Error::TrailingBytes => "bytes left unparsed at the frame trail",
            Error::Unencodable => "value cannot be encoded",
        }
    }
}

} // verus!
