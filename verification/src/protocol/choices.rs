//! Choice types: values from a closed set, which the wire holds as
//! symbols or as numbers. A symbol or number that stands for none of the
//! options of the type it is read for is an error.

use vstd::prelude::*;
use bytes::BytesMut;
use crate::buffer::buf_bytes;
use crate::errors::Error;
use crate::codec::described::symbol_is;
use crate::codec::{DecodeFormatted, Decoded, Encode, RoundTrip};
use crate::types::Symbol;

verus! {

/// The option that a decoded symbol or number stands for, or the error of
/// an unknown option.
pub open spec fn spec_choice<B, C>(d: Decoded<B>, option_of: spec_fn(B) -> Option<C>) -> Decoded<C> {
    match d {
        Ok((rest, base)) => match option_of(base) {
            Some(option) => Ok((rest, option)),
            None => Err(Error::UnknownOption),
        },
        Err(e) => Err(e),
    }
}

/// A condition that any part of the protocol may report.
#[derive(Debug, Clone, Copy, PartialEq, Eq)]
pub enum AmqpError {
    /// `amqp:internal-error`
    InternalError,
    /// `amqp:not-found`
    NotFound,
    /// `amqp:unauthorized-access`
    UnauthorizedAccess,
    /// `amqp:decode-error`
    DecodeError,
    /// `amqp:resource-limit-exceeded`
    ResourceLimitExceeded,
    /// `amqp:not-allowed`
    NotAllowed,
    /// `amqp:invalid-field`
    InvalidField,
    /// `amqp:not-implemented`
    NotImplemented,
    /// `amqp:resource-locked`
    ResourceLocked,
    /// `amqp:precondition-failed`
    PreconditionFailed,
    /// `amqp:resource-deleted`
    ResourceDeleted,
    /// `amqp:illegal-state`
    IllegalState,
    /// `amqp:frame-size-too-small`
    FrameSizeTooSmall,
}

impl DeepView for AmqpError {
    type V = AmqpError;

    open spec fn deep_view(&self) -> AmqpError {
        *self
    }
}

impl AmqpError {
    /// The symbol that stands for the option.
    pub open spec fn spec_name(self) -> Seq<char> {
        match self {
            AmqpError::InternalError => "amqp:internal-error"@,
            AmqpError::NotFound => "amqp:not-found"@,
            AmqpError::UnauthorizedAccess => "amqp:unauthorized-access"@,
            AmqpError::DecodeError => "amqp:decode-error"@,
            AmqpError::ResourceLimitExceeded => "amqp:resource-limit-exceeded"@,
            AmqpError::NotAllowed => "amqp:not-allowed"@,
            AmqpError::InvalidField => "amqp:invalid-field"@,
            AmqpError::NotImplemented => "amqp:not-implemented"@,
            AmqpError::ResourceLocked => "amqp:resource-locked"@,
            AmqpError::PreconditionFailed => "amqp:precondition-failed"@,
            AmqpError::ResourceDeleted => "amqp:resource-deleted"@,
            AmqpError::IllegalState => "amqp:illegal-state"@,
            AmqpError::FrameSizeTooSmall => "amqp:frame-size-too-small"@,
        }
    }

    /// The name of every option is short.
    pub proof fn lemma_name_fits(self)
        ensures
            vstd::utf8::encode_utf8(self.spec_name()).len() <= 0xff,
    {
        match self {
            AmqpError::InternalError => {
                reveal_strlit("amqp:internal-error");
                assert(vstd::utf8::is_ascii_chars("amqp:internal-error"@));
                vstd::utf8::is_ascii_chars_encode_utf8("amqp:internal-error"@);
            },
            AmqpError::NotFound => {
                reveal_strlit("amqp:not-found");
                assert(vstd::utf8::is_ascii_chars("amqp:not-found"@));
                vstd::utf8::is_ascii_chars_encode_utf8("amqp:not-found"@);
            },
            AmqpError::UnauthorizedAccess => {
                reveal_strlit("amqp:unauthorized-access");
                assert(vstd::utf8::is_ascii_chars("amqp:unauthorized-access"@));
                vstd::utf8::is_ascii_chars_encode_utf8("amqp:unauthorized-access"@);
            },
            AmqpError::DecodeError => {
                reveal_strlit("amqp:decode-error");
                assert(vstd::utf8::is_ascii_chars("amqp:decode-error"@));
                vstd::utf8::is_ascii_chars_encode_utf8("amqp:decode-error"@);
            },
            AmqpError::ResourceLimitExceeded => {
                reveal_strlit("amqp:resource-limit-exceeded");
                assert(vstd::utf8::is_ascii_chars("amqp:resource-limit-exceeded"@));
                vstd::utf8::is_ascii_chars_encode_utf8("amqp:resource-limit-exceeded"@);
            },
            AmqpError::NotAllowed => {
                reveal_strlit("amqp:not-allowed");
                assert(vstd::utf8::is_ascii_chars("amqp:not-allowed"@));
                vstd::utf8::is_ascii_chars_encode_utf8("amqp:not-allowed"@);
            },
            AmqpError::InvalidField => {
                reveal_strlit("amqp:invalid-field");
                assert(vstd::utf8::is_ascii_chars("amqp:invalid-field"@));
                vstd::utf8::is_ascii_chars_encode_utf8("amqp:invalid-field"@);
            },
            AmqpError::NotImplemented => {
                reveal_strlit("amqp:not-implemented");
                assert(vstd::utf8::is_ascii_chars("amqp:not-implemented"@));
                vstd::utf8::is_ascii_chars_encode_utf8("amqp:not-implemented"@);
            },
            AmqpError::ResourceLocked => {
                reveal_strlit("amqp:resource-locked");
                assert(vstd::utf8::is_ascii_chars("amqp:resource-locked"@));
                vstd::utf8::is_ascii_chars_encode_utf8("amqp:resource-locked"@);
            },
            AmqpError::PreconditionFailed => {
                reveal_strlit("amqp:precondition-failed");
                assert(vstd::utf8::is_ascii_chars("amqp:precondition-failed"@));
                vstd::utf8::is_ascii_chars_encode_utf8("amqp:precondition-failed"@);
            },
            AmqpError::ResourceDeleted => {
                reveal_strlit("amqp:resource-deleted");
                assert(vstd::utf8::is_ascii_chars("amqp:resource-deleted"@));
                vstd::utf8::is_ascii_chars_encode_utf8("amqp:resource-deleted"@);
            },
            AmqpError::IllegalState => {
                reveal_strlit("amqp:illegal-state");
                assert(vstd::utf8::is_ascii_chars("amqp:illegal-state"@));
                vstd::utf8::is_ascii_chars_encode_utf8("amqp:illegal-state"@);
            },
            AmqpError::FrameSizeTooSmall => {
                reveal_strlit("amqp:frame-size-too-small");
                assert(vstd::utf8::is_ascii_chars("amqp:frame-size-too-small"@));
                vstd::utf8::is_ascii_chars_encode_utf8("amqp:frame-size-too-small"@);
            },
        }
    }

    pub fn name(self) -> (name: &'static str)
        ensures
            name@ == self.spec_name(),
    {
        match self {
            AmqpError::InternalError => "amqp:internal-error",
            AmqpError::NotFound => "amqp:not-found",
            AmqpError::UnauthorizedAccess => "amqp:unauthorized-access",
            AmqpError::DecodeError => "amqp:decode-error",
            AmqpError::ResourceLimitExceeded => "amqp:resource-limit-exceeded",
            AmqpError::NotAllowed => "amqp:not-allowed",
            AmqpError::InvalidField => "amqp:invalid-field",
            AmqpError::NotImplemented => "amqp:not-implemented",
            AmqpError::ResourceLocked => "amqp:resource-locked",
            AmqpError::PreconditionFailed => "amqp:precondition-failed",
            AmqpError::ResourceDeleted => "amqp:resource-deleted",
            AmqpError::IllegalState => "amqp:illegal-state",
            AmqpError::FrameSizeTooSmall => "amqp:frame-size-too-small",
        }
    }

    /// The option that a symbol names, if it names one.
    pub open spec fn spec_try_from(name: Seq<char>) -> Option<AmqpError> {
        if name == "amqp:internal-error"@ {
            Some(AmqpError::InternalError)
        }         else if name == "amqp:not-found"@ {
            Some(AmqpError::NotFound)
        }         else if name == "amqp:unauthorized-access"@ {
            Some(AmqpError::UnauthorizedAccess)
        }         else if name == "amqp:decode-error"@ {
            Some(AmqpError::DecodeError)
        }         else if name == "amqp:resource-limit-exceeded"@ {
            Some(AmqpError::ResourceLimitExceeded)
        }         else if name == "amqp:not-allowed"@ {
            Some(AmqpError::NotAllowed)
        }         else if name == "amqp:invalid-field"@ {
            Some(AmqpError::InvalidField)
        }         else if name == "amqp:not-implemented"@ {
            Some(AmqpError::NotImplemented)
        }         else if name == "amqp:resource-locked"@ {
            Some(AmqpError::ResourceLocked)
        }         else if name == "amqp:precondition-failed"@ {
            Some(AmqpError::PreconditionFailed)
        }         else if name == "amqp:resource-deleted"@ {
            Some(AmqpError::ResourceDeleted)
        }         else if name == "amqp:illegal-state"@ {
            Some(AmqpError::IllegalState)
        }         else if name == "amqp:frame-size-too-small"@ {
            Some(AmqpError::FrameSizeTooSmall)
        } else {
            None
        }
    }

    pub fn try_from(v: &Symbol) -> (r: Result<AmqpError, Error>)
        ensures
            r == match Self::spec_try_from(v@) {
                Some(option) => Ok::<AmqpError, Error>(option),
                None => Err::<AmqpError, Error>(Error::UnknownOption),
            },
    {
        if symbol_is(v, "amqp:internal-error") {
            Ok(AmqpError::InternalError)
        }         else if symbol_is(v, "amqp:not-found") {
            Ok(AmqpError::NotFound)
        }         else if symbol_is(v, "amqp:unauthorized-access") {
            Ok(AmqpError::UnauthorizedAccess)
        }         else if symbol_is(v, "amqp:decode-error") {
            Ok(AmqpError::DecodeError)
        }         else if symbol_is(v, "amqp:resource-limit-exceeded") {
            Ok(AmqpError::ResourceLimitExceeded)
        }         else if symbol_is(v, "amqp:not-allowed") {
            Ok(AmqpError::NotAllowed)
        }         else if symbol_is(v, "amqp:invalid-field") {
            Ok(AmqpError::InvalidField)
        }         else if symbol_is(v, "amqp:not-implemented") {
            Ok(AmqpError::NotImplemented)
        }         else if symbol_is(v, "amqp:resource-locked") {
            Ok(AmqpError::ResourceLocked)
        }         else if symbol_is(v, "amqp:precondition-failed") {
            Ok(AmqpError::PreconditionFailed)
        }         else if symbol_is(v, "amqp:resource-deleted") {
            Ok(AmqpError::ResourceDeleted)
        }         else if symbol_is(v, "amqp:illegal-state") {
            Ok(AmqpError::IllegalState)
        }         else if symbol_is(v, "amqp:frame-size-too-small") {
            Ok(AmqpError::FrameSizeTooSmall)
        } else {
            Err(Error::UnknownOption)
        }
    }
}

impl DecodeFormatted for AmqpError {
    open spec fn spec_decode_with_format(input: Seq<u8>, fmt: u8) -> Decoded<AmqpError> {
        spec_choice(
            Symbol::spec_decode_with_format(input, fmt),
            |name: Seq<char>| AmqpError::spec_try_from(name),
        )
    }

    proof fn decoding_leaves_suffix(input: Seq<u8>, fmt: u8) {
        Symbol::decoding_leaves_suffix(input, fmt);
    }

    fn decode_with_format<'a>(input: &'a [u8], fmt: u8) -> (r: Result<(&'a [u8], Self), Error>) {
        let (rest, base) = Symbol::decode_with_format(input, fmt)?;
        let option = AmqpError::try_from(&base)?;
        Ok((rest, option))
    }
}

impl Encode for AmqpError {
    open spec fn encodable(v: AmqpError) -> bool {
        true
    }

    open spec fn spec_encode(v: AmqpError) -> Seq<u8> {
        <Symbol as Encode>::spec_encode(v.spec_name())
    }

    fn encoded_size(&self) -> (n: usize) {
        proof {
            self.lemma_name_fits();
        }
        Symbol::from_static(self.name()).encoded_size()
    }

    fn size_within(&self, limit: usize) -> (size: Option<usize>) {
        proof {
            self.lemma_name_fits();
        }
        let n = self.encoded_size();
        if n <= limit {
            Some(n)
        } else {
            None
        }
    }

    fn encode(&self, buf: &mut BytesMut) {
        proof {
            self.lemma_name_fits();
        }
        Symbol::from_static(self.name()).encode(buf)
    }
}

/// A condition that ends a connection.
#[derive(Debug, Clone, Copy, PartialEq, Eq)]
pub enum ConnectionError {
    /// `amqp:connection:forced`
    ConnectionForced,
    /// `amqp:connection:framing-error`
    FramingError,
    /// `amqp:connection:redirect`
    Redirect,
}

impl DeepView for ConnectionError {
    type V = ConnectionError;

    open spec fn deep_view(&self) -> ConnectionError {
        *self
    }
}

impl ConnectionError {
    /// The symbol that stands for the option.
    pub open spec fn spec_name(self) -> Seq<char> {
        match self {
            ConnectionError::ConnectionForced => "amqp:connection:forced"@,
            ConnectionError::FramingError => "amqp:connection:framing-error"@,
            ConnectionError::Redirect => "amqp:connection:redirect"@,
        }
    }

    /// The name of every option is short.
    pub proof fn lemma_name_fits(self)
        ensures
            vstd::utf8::encode_utf8(self.spec_name()).len() <= 0xff,
    {
        match self {
            ConnectionError::ConnectionForced => {
                reveal_strlit("amqp:connection:forced");
                assert(vstd::utf8::is_ascii_chars("amqp:connection:forced"@));
                vstd::utf8::is_ascii_chars_encode_utf8("amqp:connection:forced"@);
            },
            ConnectionError::FramingError => {
                reveal_strlit("amqp:connection:framing-error");
                assert(vstd::utf8::is_ascii_chars("amqp:connection:framing-error"@));
                vstd::utf8::is_ascii_chars_encode_utf8("amqp:connection:framing-error"@);
            },
            ConnectionError::Redirect => {
                reveal_strlit("amqp:connection:redirect");
                assert(vstd::utf8::is_ascii_chars("amqp:connection:redirect"@));
                vstd::utf8::is_ascii_chars_encode_utf8("amqp:connection:redirect"@);
            },
        }
    }

    pub fn name(self) -> (name: &'static str)
        ensures
            name@ == self.spec_name(),
    {
        match self {
            ConnectionError::ConnectionForced => "amqp:connection:forced",
            ConnectionError::FramingError => "amqp:connection:framing-error",
            ConnectionError::Redirect => "amqp:connection:redirect",
        }
    }

    /// The option that a symbol names, if it names one.
    pub open spec fn spec_try_from(name: Seq<char>) -> Option<ConnectionError> {
        if name == "amqp:connection:forced"@ {
            Some(ConnectionError::ConnectionForced)
        }         else if name == "amqp:connection:framing-error"@ {
            Some(ConnectionError::FramingError)
        }         else if name == "amqp:connection:redirect"@ {
            Some(ConnectionError::Redirect)
        } else {
            None
        }
    }

    pub fn try_from(v: &Symbol) -> (r: Result<ConnectionError, Error>)
        ensures
            r == match Self::spec_try_from(v@) {
                Some(option) => Ok::<ConnectionError, Error>(option),
                None => Err::<ConnectionError, Error>(Error::UnknownOption),
            },
    {
        if symbol_is(v, "amqp:connection:forced") {
            Ok(ConnectionError::ConnectionForced)
        }         else if symbol_is(v, "amqp:connection:framing-error") {
            Ok(ConnectionError::FramingError)
        }         else if symbol_is(v, "amqp:connection:redirect") {
            Ok(ConnectionError::Redirect)
        } else {
            Err(Error::UnknownOption)
        }
    }
}

impl DecodeFormatted for ConnectionError {
    open spec fn spec_decode_with_format(input: Seq<u8>, fmt: u8) -> Decoded<ConnectionError> {
        spec_choice(
            Symbol::spec_decode_with_format(input, fmt),
            |name: Seq<char>| ConnectionError::spec_try_from(name),
        )
    }

    proof fn decoding_leaves_suffix(input: Seq<u8>, fmt: u8) {
        Symbol::decoding_leaves_suffix(input, fmt);
    }

    fn decode_with_format<'a>(input: &'a [u8], fmt: u8) -> (r: Result<(&'a [u8], Self), Error>) {
        let (rest, base) = Symbol::decode_with_format(input, fmt)?;
        let option = ConnectionError::try_from(&base)?;
        Ok((rest, option))
    }
}

impl Encode for ConnectionError {
    open spec fn encodable(v: ConnectionError) -> bool {
        true
    }

    open spec fn spec_encode(v: ConnectionError) -> Seq<u8> {
        <Symbol as Encode>::spec_encode(v.spec_name())
    }

    fn encoded_size(&self) -> (n: usize) {
        proof {
            self.lemma_name_fits();
        }
        Symbol::from_static(self.name()).encoded_size()
    }

    fn size_within(&self, limit: usize) -> (size: Option<usize>) {
        proof {
            self.lemma_name_fits();
        }
        let n = self.encoded_size();
        if n <= limit {
            Some(n)
        } else {
            None
        }
    }

    fn encode(&self, buf: &mut BytesMut) {
        proof {
            self.lemma_name_fits();
        }
        Symbol::from_static(self.name()).encode(buf)
    }
}

/// A condition that ends a session.
#[derive(Debug, Clone, Copy, PartialEq, Eq)]
pub enum SessionError {
    /// `amqp:session:window-violation`
    WindowViolation,
    /// `amqp:session:errant-link`
    ErrantLink,
    /// `amqp:session:handle-in-use`
    HandleInUse,
    /// `amqp:session:unattached-handle`
    UnattachedHandle,
}

impl DeepView for SessionError {
    type V = SessionError;

    open spec fn deep_view(&self) -> SessionError {
        *self
    }
}

impl SessionError {
    /// The symbol that stands for the option.
    pub open spec fn spec_name(self) -> Seq<char> {
        match self {
            SessionError::WindowViolation => "amqp:session:window-violation"@,
            SessionError::ErrantLink => "amqp:session:errant-link"@,
            SessionError::HandleInUse => "amqp:session:handle-in-use"@,
            SessionError::UnattachedHandle => "amqp:session:unattached-handle"@,
        }
    }

    /// The name of every option is short.
    pub proof fn lemma_name_fits(self)
        ensures
            vstd::utf8::encode_utf8(self.spec_name()).len() <= 0xff,
    {
        match self {
            SessionError::WindowViolation => {
                reveal_strlit("amqp:session:window-violation");
                assert(vstd::utf8::is_ascii_chars("amqp:session:window-violation"@));
                vstd::utf8::is_ascii_chars_encode_utf8("amqp:session:window-violation"@);
            },
            SessionError::ErrantLink => {
                reveal_strlit("amqp:session:errant-link");
                assert(vstd::utf8::is_ascii_chars("amqp:session:errant-link"@));
                vstd::utf8::is_ascii_chars_encode_utf8("amqp:session:errant-link"@);
            },
            SessionError::HandleInUse => {
                reveal_strlit("amqp:session:handle-in-use");
                assert(vstd::utf8::is_ascii_chars("amqp:session:handle-in-use"@));
                vstd::utf8::is_ascii_chars_encode_utf8("amqp:session:handle-in-use"@);
            },
            SessionError::UnattachedHandle => {
                reveal_strlit("amqp:session:unattached-handle");
                assert(vstd::utf8::is_ascii_chars("amqp:session:unattached-handle"@));
                vstd::utf8::is_ascii_chars_encode_utf8("amqp:session:unattached-handle"@);
            },
        }
    }

    pub fn name(self) -> (name: &'static str)
        ensures
            name@ == self.spec_name(),
    {
        match self {
            SessionError::WindowViolation => "amqp:session:window-violation",
            SessionError::ErrantLink => "amqp:session:errant-link",
            SessionError::HandleInUse => "amqp:session:handle-in-use",
            SessionError::UnattachedHandle => "amqp:session:unattached-handle",
        }
    }

    /// The option that a symbol names, if it names one.
    pub open spec fn spec_try_from(name: Seq<char>) -> Option<SessionError> {
        if name == "amqp:session:window-violation"@ {
            Some(SessionError::WindowViolation)
        }         else if name == "amqp:session:errant-link"@ {
            Some(SessionError::ErrantLink)
        }         else if name == "amqp:session:handle-in-use"@ {
            Some(SessionError::HandleInUse)
        }         else if name == "amqp:session:unattached-handle"@ {
            Some(SessionError::UnattachedHandle)
        } else {
            None
        }
    }

    pub fn try_from(v: &Symbol) -> (r: Result<SessionError, Error>)
        ensures
            r == match Self::spec_try_from(v@) {
                Some(option) => Ok::<SessionError, Error>(option),
                None => Err::<SessionError, Error>(Error::UnknownOption),
            },
    {
        if symbol_is(v, "amqp:session:window-violation") {
            Ok(SessionError::WindowViolation)
        }         else if symbol_is(v, "amqp:session:errant-link") {
            Ok(SessionError::ErrantLink)
        }         else if symbol_is(v, "amqp:session:handle-in-use") {
            Ok(SessionError::HandleInUse)
        }         else if symbol_is(v, "amqp:session:unattached-handle") {
            Ok(SessionError::UnattachedHandle)
        } else {
            Err(Error::UnknownOption)
        }
    }
}

impl DecodeFormatted for SessionError {
    open spec fn spec_decode_with_format(input: Seq<u8>, fmt: u8) -> Decoded<SessionError> {
        spec_choice(
            Symbol::spec_decode_with_format(input, fmt),
            |name: Seq<char>| SessionError::spec_try_from(name),
        )
    }

    proof fn decoding_leaves_suffix(input: Seq<u8>, fmt: u8) {
        Symbol::decoding_leaves_suffix(input, fmt);
    }

    fn decode_with_format<'a>(input: &'a [u8], fmt: u8) -> (r: Result<(&'a [u8], Self), Error>) {
        let (rest, base) = Symbol::decode_with_format(input, fmt)?;
        let option = SessionError::try_from(&base)?;
        Ok((rest, option))
    }
}

impl Encode for SessionError {
    open spec fn encodable(v: SessionError) -> bool {
        true
    }

    open spec fn spec_encode(v: SessionError) -> Seq<u8> {
        <Symbol as Encode>::spec_encode(v.spec_name())
    }

    fn encoded_size(&self) -> (n: usize) {
        proof {
            self.lemma_name_fits();
        }
        Symbol::from_static(self.name()).encoded_size()
    }

    fn size_within(&self, limit: usize) -> (size: Option<usize>) {
        proof {
            self.lemma_name_fits();
        }
        let n = self.encoded_size();
        if n <= limit {
            Some(n)
        } else {
            None
        }
    }

    fn encode(&self, buf: &mut BytesMut) {
        proof {
            self.lemma_name_fits();
        }
        Symbol::from_static(self.name()).encode(buf)
    }
}

/// A condition that ends a link.
#[derive(Debug, Clone, Copy, PartialEq, Eq)]
pub enum LinkError {
    /// `amqp:link:detach-forced`
    DetachForced,
    /// `amqp:link:transfer-limit-exceeded`
    TransferLimitExceeded,
    /// `amqp:link:message-size-exceeded`
    MessageSizeExceeded,
    /// `amqp:link:redirect`
    Redirect,
    /// `amqp:link:stolen`
    Stolen,
}

impl DeepView for LinkError {
    type V = LinkError;

    open spec fn deep_view(&self) -> LinkError {
        *self
    }
}

impl LinkError {
    /// The symbol that stands for the option.
    pub open spec fn spec_name(self) -> Seq<char> {
        match self {
            LinkError::DetachForced => "amqp:link:detach-forced"@,
            LinkError::TransferLimitExceeded => "amqp:link:transfer-limit-exceeded"@,
            LinkError::MessageSizeExceeded => "amqp:link:message-size-exceeded"@,
            LinkError::Redirect => "amqp:link:redirect"@,
            LinkError::Stolen => "amqp:link:stolen"@,
        }
    }

    /// The name of every option is short.
    pub proof fn lemma_name_fits(self)
        ensures
            vstd::utf8::encode_utf8(self.spec_name()).len() <= 0xff,
    {
        match self {
            LinkError::DetachForced => {
                reveal_strlit("amqp:link:detach-forced");
                assert(vstd::utf8::is_ascii_chars("amqp:link:detach-forced"@));
                vstd::utf8::is_ascii_chars_encode_utf8("amqp:link:detach-forced"@);
            },
            LinkError::TransferLimitExceeded => {
                reveal_strlit("amqp:link:transfer-limit-exceeded");
                assert(vstd::utf8::is_ascii_chars("amqp:link:transfer-limit-exceeded"@));
                vstd::utf8::is_ascii_chars_encode_utf8("amqp:link:transfer-limit-exceeded"@);
            },
            LinkError::MessageSizeExceeded => {
                reveal_strlit("amqp:link:message-size-exceeded");
                assert(vstd::utf8::is_ascii_chars("amqp:link:message-size-exceeded"@));
                vstd::utf8::is_ascii_chars_encode_utf8("amqp:link:message-size-exceeded"@);
            },
            LinkError::Redirect => {
                reveal_strlit("amqp:link:redirect");
                assert(vstd::utf8::is_ascii_chars("amqp:link:redirect"@));
                vstd::utf8::is_ascii_chars_encode_utf8("amqp:link:redirect"@);
            },
            LinkError::Stolen => {
                reveal_strlit("amqp:link:stolen");
                assert(vstd::utf8::is_ascii_chars("amqp:link:stolen"@));
                vstd::utf8::is_ascii_chars_encode_utf8("amqp:link:stolen"@);
            },
        }
    }

    pub fn name(self) -> (name: &'static str)
        ensures
            name@ == self.spec_name(),
    {
        match self {
            LinkError::DetachForced => "amqp:link:detach-forced",
            LinkError::TransferLimitExceeded => "amqp:link:transfer-limit-exceeded",
            LinkError::MessageSizeExceeded => "amqp:link:message-size-exceeded",
            LinkError::Redirect => "amqp:link:redirect",
            LinkError::Stolen => "amqp:link:stolen",
        }
    }

    /// The option that a symbol names, if it names one.
    pub open spec fn spec_try_from(name: Seq<char>) -> Option<LinkError> {
        if name == "amqp:link:detach-forced"@ {
            Some(LinkError::DetachForced)
        }         else if name == "amqp:link:transfer-limit-exceeded"@ {
            Some(LinkError::TransferLimitExceeded)
        }         else if name == "amqp:link:message-size-exceeded"@ {
            Some(LinkError::MessageSizeExceeded)
        }         else if name == "amqp:link:redirect"@ {
            Some(LinkError::Redirect)
        }         else if name == "amqp:link:stolen"@ {
            Some(LinkError::Stolen)
        } else {
            None
        }
    }

    pub fn try_from(v: &Symbol) -> (r: Result<LinkError, Error>)
        ensures
            r == match Self::spec_try_from(v@) {
                Some(option) => Ok::<LinkError, Error>(option),
                None => Err::<LinkError, Error>(Error::UnknownOption),
            },
    {
        if symbol_is(v, "amqp:link:detach-forced") {
            Ok(LinkError::DetachForced)
        }         else if symbol_is(v, "amqp:link:transfer-limit-exceeded") {
            Ok(LinkError::TransferLimitExceeded)
        }         else if symbol_is(v, "amqp:link:message-size-exceeded") {
            Ok(LinkError::MessageSizeExceeded)
        }         else if symbol_is(v, "amqp:link:redirect") {
            Ok(LinkError::Redirect)
        }         else if symbol_is(v, "amqp:link:stolen") {
            Ok(LinkError::Stolen)
        } else {
            Err(Error::UnknownOption)
        }
    }
}

impl DecodeFormatted for LinkError {
    open spec fn spec_decode_with_format(input: Seq<u8>, fmt: u8) -> Decoded<LinkError> {
        spec_choice(
            Symbol::spec_decode_with_format(input, fmt),
            |name: Seq<char>| LinkError::spec_try_from(name),
        )
    }

    proof fn decoding_leaves_suffix(input: Seq<u8>, fmt: u8) {
        Symbol::decoding_leaves_suffix(input, fmt);
    }

    fn decode_with_format<'a>(input: &'a [u8], fmt: u8) -> (r: Result<(&'a [u8], Self), Error>) {
        let (rest, base) = Symbol::decode_with_format(input, fmt)?;
        let option = LinkError::try_from(&base)?;
        Ok((rest, option))
    }
}

impl Encode for LinkError {
    open spec fn encodable(v: LinkError) -> bool {
        true
    }

    open spec fn spec_encode(v: LinkError) -> Seq<u8> {
        <Symbol as Encode>::spec_encode(v.spec_name())
    }

    fn encoded_size(&self) -> (n: usize) {
        proof {
            self.lemma_name_fits();
        }
        Symbol::from_static(self.name()).encoded_size()
    }

    fn size_within(&self, limit: usize) -> (size: Option<usize>) {
        proof {
            self.lemma_name_fits();
        }
        let n = self.encoded_size();
        if n <= limit {
            Some(n)
        } else {
            None
        }
    }

    fn encode(&self, buf: &mut BytesMut) {
        proof {
            self.lemma_name_fits();
        }
        Symbol::from_static(self.name()).encode(buf)
    }
}

/// The condition of an error: one that the protocol defines, or one of
/// the application's own.
#[derive(Debug, Clone, PartialEq, Eq)]
pub enum ErrorCondition {
    AmqpError(AmqpError),
    ConnectionError(ConnectionError),
    SessionError(SessionError),
    LinkError(LinkError),
    Custom(Symbol),
}

/// The model of an `ErrorCondition`.
pub enum ErrorConditionView {
    AmqpError(AmqpError),
    ConnectionError(ConnectionError),
    SessionError(SessionError),
    LinkError(LinkError),
    Custom(Seq<char>),
}

impl DeepView for ErrorCondition {
    type V = ErrorConditionView;

    open spec fn deep_view(&self) -> ErrorConditionView {
        match self {
            ErrorCondition::AmqpError(e) => ErrorConditionView::AmqpError(*e),
            ErrorCondition::ConnectionError(e) => ErrorConditionView::ConnectionError(*e),
            ErrorCondition::SessionError(e) => ErrorConditionView::SessionError(*e),
            ErrorCondition::LinkError(e) => ErrorConditionView::LinkError(*e),
            ErrorCondition::Custom(name) => ErrorConditionView::Custom(name.deep_view()),
        }
    }
}

/// The condition that a symbol names: the first of the protocol's own
/// that goes by that name, and a custom condition where none does.
pub open spec fn spec_error_condition(name: Seq<char>) -> ErrorConditionView {
    if let Some(e) = AmqpError::spec_try_from(name) {
        ErrorConditionView::AmqpError(e)
    } else if let Some(e) = ConnectionError::spec_try_from(name) {
        ErrorConditionView::ConnectionError(e)
    } else if let Some(e) = SessionError::spec_try_from(name) {
        ErrorConditionView::SessionError(e)
    } else if let Some(e) = LinkError::spec_try_from(name) {
        ErrorConditionView::LinkError(e)
    } else {
        ErrorConditionView::Custom(name)
    }
}

impl DecodeFormatted for ErrorCondition {
    open spec fn spec_decode_with_format(input: Seq<u8>, fmt: u8) -> Decoded<ErrorConditionView> {
        crate::codec::decode::map_decoded(
            Symbol::spec_decode_with_format(input, fmt),
            |name: Seq<char>| spec_error_condition(name),
        )
    }

    proof fn decoding_leaves_suffix(input: Seq<u8>, fmt: u8) {
        Symbol::decoding_leaves_suffix(input, fmt);
    }

    fn decode_with_format<'a>(input: &'a [u8], fmt: u8) -> (r: Result<(&'a [u8], Self), Error>) {
        let (rest, result) = Symbol::decode_with_format(input, fmt)?;
        if let Ok(e) = AmqpError::try_from(&result) {
            return Ok((rest, ErrorCondition::AmqpError(e)));
        }
        if let Ok(e) = ConnectionError::try_from(&result) {
            return Ok((rest, ErrorCondition::ConnectionError(e)));
        }
        if let Ok(e) = SessionError::try_from(&result) {
            return Ok((rest, ErrorCondition::SessionError(e)));
        }
        if let Ok(e) = LinkError::try_from(&result) {
            return Ok((rest, ErrorCondition::LinkError(e)));
        }
        Ok((rest, ErrorCondition::Custom(result)))
    }
}

/// How a node hands a message to the links that read from it.
#[derive(Debug, Clone, PartialEq, Eq)]
pub enum DistributionMode {
    Move,
    Copy,
    Custom(Symbol),
}

/// The model of a `DistributionMode`.
pub enum DistributionModeView {
    Move,
    Copy,
    Custom(Seq<char>),
}

impl DeepView for DistributionMode {
    type V = DistributionModeView;

    open spec fn deep_view(&self) -> DistributionModeView {
        match self {
            DistributionMode::Move => DistributionModeView::Move,
            DistributionMode::Copy => DistributionModeView::Copy,
            DistributionMode::Custom(name) => DistributionModeView::Custom(name.deep_view()),
        }
    }
}

/// The mode that a symbol names.
pub open spec fn spec_distribution_mode(name: Seq<char>) -> DistributionModeView {
    if name == "move"@ {
        DistributionModeView::Move
    } else if name == "copy"@ {
        DistributionModeView::Copy
    } else {
        DistributionModeView::Custom(name)
    }
}

impl DecodeFormatted for DistributionMode {
    open spec fn spec_decode_with_format(input: Seq<u8>, fmt: u8) -> Decoded<DistributionModeView> {
        crate::codec::decode::map_decoded(
            Symbol::spec_decode_with_format(input, fmt),
            |name: Seq<char>| spec_distribution_mode(name),
        )
    }

    proof fn decoding_leaves_suffix(input: Seq<u8>, fmt: u8) {
        Symbol::decoding_leaves_suffix(input, fmt);
    }

    fn decode_with_format<'a>(input: &'a [u8], fmt: u8) -> (r: Result<(&'a [u8], Self), Error>) {
        let (rest, result) = Symbol::decode_with_format(input, fmt)?;
        let mode = if symbol_is(&result, "move") {
            DistributionMode::Move
        } else if symbol_is(&result, "copy") {
            DistributionMode::Copy
        } else {
            DistributionMode::Custom(result)
        };
        Ok((rest, mode))
    }
}


/// The names of the conditions of the protocol are all different: no two
/// of them agree in their length and in their seventh character.
pub proof fn lemma_condition_names()
    ensures
        "amqp:internal-error"@.len() == 19 && "amqp:internal-error"@[6] == 'n',
        "amqp:not-found"@.len() == 14 && "amqp:not-found"@[6] == 'o',
        "amqp:unauthorized-access"@.len() == 24 && "amqp:unauthorized-access"@[6] == 'n',
        "amqp:decode-error"@.len() == 17 && "amqp:decode-error"@[6] == 'e',
        "amqp:resource-limit-exceeded"@.len() == 28 && "amqp:resource-limit-exceeded"@[6] == 'e',
        "amqp:not-allowed"@.len() == 16 && "amqp:not-allowed"@[6] == 'o',
        "amqp:invalid-field"@.len() == 18 && "amqp:invalid-field"@[6] == 'n',
        "amqp:not-implemented"@.len() == 20 && "amqp:not-implemented"@[6] == 'o',
        "amqp:resource-locked"@.len() == 20 && "amqp:resource-locked"@[6] == 'e',
        "amqp:precondition-failed"@.len() == 24 && "amqp:precondition-failed"@[6] == 'r',
        "amqp:resource-deleted"@.len() == 21 && "amqp:resource-deleted"@[6] == 'e',
        "amqp:illegal-state"@.len() == 18 && "amqp:illegal-state"@[6] == 'l',
        "amqp:frame-size-too-small"@.len() == 25 && "amqp:frame-size-too-small"@[6] == 'r',
        "amqp:connection:forced"@.len() == 22 && "amqp:connection:forced"@[6] == 'o',
        "amqp:connection:framing-error"@.len() == 29 && "amqp:connection:framing-error"@[6] == 'o',
        "amqp:connection:redirect"@.len() == 24 && "amqp:connection:redirect"@[6] == 'o',
        "amqp:session:window-violation"@.len() == 29 && "amqp:session:window-violation"@[6] == 'e',
        "amqp:session:errant-link"@.len() == 24 && "amqp:session:errant-link"@[6] == 'e',
        "amqp:session:handle-in-use"@.len() == 26 && "amqp:session:handle-in-use"@[6] == 'e',
        "amqp:session:unattached-handle"@.len() == 30 && "amqp:session:unattached-handle"@[6] == 'e',
        "amqp:link:detach-forced"@.len() == 23 && "amqp:link:detach-forced"@[6] == 'i',
        "amqp:link:transfer-limit-exceeded"@.len() == 33 && "amqp:link:transfer-limit-exceeded"@[6] == 'i',
        "amqp:link:message-size-exceeded"@.len() == 31 && "amqp:link:message-size-exceeded"@[6] == 'i',
        "amqp:link:redirect"@.len() == 18 && "amqp:link:redirect"@[6] == 'i',
        "amqp:link:stolen"@.len() == 16 && "amqp:link:stolen"@[6] == 'i',
{
    reveal_strlit("amqp:internal-error");
    reveal_strlit("amqp:not-found");
    reveal_strlit("amqp:unauthorized-access");
    reveal_strlit("amqp:decode-error");
    reveal_strlit("amqp:resource-limit-exceeded");
    reveal_strlit("amqp:not-allowed");
    reveal_strlit("amqp:invalid-field");
    reveal_strlit("amqp:not-implemented");
    reveal_strlit("amqp:resource-locked");
    reveal_strlit("amqp:precondition-failed");
    reveal_strlit("amqp:resource-deleted");
    reveal_strlit("amqp:illegal-state");
    reveal_strlit("amqp:frame-size-too-small");
    reveal_strlit("amqp:connection:forced");
    reveal_strlit("amqp:connection:framing-error");
    reveal_strlit("amqp:connection:redirect");
    reveal_strlit("amqp:session:window-violation");
    reveal_strlit("amqp:session:errant-link");
    reveal_strlit("amqp:session:handle-in-use");
    reveal_strlit("amqp:session:unattached-handle");
    reveal_strlit("amqp:link:detach-forced");
    reveal_strlit("amqp:link:transfer-limit-exceeded");
    reveal_strlit("amqp:link:message-size-exceeded");
    reveal_strlit("amqp:link:redirect");
    reveal_strlit("amqp:link:stolen");
}

impl RoundTrip for AmqpError {
    open spec fn round_trips(v: AmqpError) -> bool {
        true
    }

    proof fn law_round_trip(v: AmqpError, tail: Seq<u8>) {
        v.lemma_name_fits();
        lemma_condition_names();
        <Symbol as RoundTrip>::law_round_trip(v.spec_name(), tail);
    }
}

impl RoundTrip for ConnectionError {
    open spec fn round_trips(v: ConnectionError) -> bool {
        true
    }

    proof fn law_round_trip(v: ConnectionError, tail: Seq<u8>) {
        v.lemma_name_fits();
        lemma_condition_names();
        <Symbol as RoundTrip>::law_round_trip(v.spec_name(), tail);
    }
}

impl RoundTrip for SessionError {
    open spec fn round_trips(v: SessionError) -> bool {
        true
    }

    proof fn law_round_trip(v: SessionError, tail: Seq<u8>) {
        v.lemma_name_fits();
        lemma_condition_names();
        <Symbol as RoundTrip>::law_round_trip(v.spec_name(), tail);
    }
}

impl RoundTrip for LinkError {
    open spec fn round_trips(v: LinkError) -> bool {
        true
    }

    proof fn law_round_trip(v: LinkError, tail: Seq<u8>) {
        v.lemma_name_fits();
        lemma_condition_names();
        <Symbol as RoundTrip>::law_round_trip(v.spec_name(), tail);
    }
}

impl RoundTrip for ErrorCondition {
    /// The conditions of the protocol, and the custom conditions whose
    /// name can be encoded and is none of the protocol's: under such a
    /// name the condition of the protocol would come back.
    open spec fn round_trips(v: ErrorConditionView) -> bool {
        v matches ErrorConditionView::Custom(name) ==> <Symbol as Encode>::encodable(name)
            && spec_error_condition(name) == v
    }

    proof fn law_round_trip(v: ErrorConditionView, tail: Seq<u8>) {
        lemma_condition_names();
        match v {
            ErrorConditionView::AmqpError(e) => {
                e.lemma_name_fits();
                <Symbol as RoundTrip>::law_round_trip(e.spec_name(), tail);
            },
            ErrorConditionView::ConnectionError(e) => {
                e.lemma_name_fits();
                <Symbol as RoundTrip>::law_round_trip(e.spec_name(), tail);
            },
            ErrorConditionView::SessionError(e) => {
                e.lemma_name_fits();
                <Symbol as RoundTrip>::law_round_trip(e.spec_name(), tail);
            },
            ErrorConditionView::LinkError(e) => {
                e.lemma_name_fits();
                <Symbol as RoundTrip>::law_round_trip(e.spec_name(), tail);
            },
            ErrorConditionView::Custom(name) => {
                <Symbol as RoundTrip>::law_round_trip(name, tail);
            },
        }
    }
}

impl ErrorCondition {
    /// The symbol that stands for the condition.
    pub open spec fn spec_name(v: ErrorConditionView) -> Seq<char> {
        match v {
            ErrorConditionView::AmqpError(e) => e.spec_name(),
            ErrorConditionView::ConnectionError(e) => e.spec_name(),
            ErrorConditionView::SessionError(e) => e.spec_name(),
            ErrorConditionView::LinkError(e) => e.spec_name(),
            ErrorConditionView::Custom(name) => name,
        }
    }
}

impl Encode for ErrorCondition {
    /// A custom condition can be encoded where its name can; the
    /// conditions of the protocol always can.
    open spec fn encodable(v: ErrorConditionView) -> bool {
        v matches ErrorConditionView::Custom(name) ==> <Symbol as Encode>::encodable(name)
    }

    open spec fn spec_encode(v: ErrorConditionView) -> Seq<u8> {
        <Symbol as Encode>::spec_encode(ErrorCondition::spec_name(v))
    }

    fn encoded_size(&self) -> (n: usize) {
        match self {
            ErrorCondition::AmqpError(e) => e.encoded_size(),
            ErrorCondition::ConnectionError(e) => e.encoded_size(),
            ErrorCondition::SessionError(e) => e.encoded_size(),
            ErrorCondition::LinkError(e) => e.encoded_size(),
            ErrorCondition::Custom(name) => name.encoded_size(),
        }
    }

    fn size_within(&self, limit: usize) -> (size: Option<usize>) {
        match self {
            ErrorCondition::AmqpError(e) => e.size_within(limit),
            ErrorCondition::ConnectionError(e) => e.size_within(limit),
            ErrorCondition::SessionError(e) => e.size_within(limit),
            ErrorCondition::LinkError(e) => e.size_within(limit),
            ErrorCondition::Custom(name) => name.size_within(limit),
        }
    }

    fn encode(&self, buf: &mut BytesMut) {
        match self {
            ErrorCondition::AmqpError(e) => e.encode(buf),
            ErrorCondition::ConnectionError(e) => e.encode(buf),
            ErrorCondition::SessionError(e) => e.encode(buf),
            ErrorCondition::LinkError(e) => e.encode(buf),
            ErrorCondition::Custom(name) => name.encode(buf),
        }
    }
}

impl DistributionMode {
    /// The symbol that stands for the mode.
    pub open spec fn spec_name(v: DistributionModeView) -> Seq<char> {
        match v {
            DistributionModeView::Move => "move"@,
            DistributionModeView::Copy => "copy"@,
            DistributionModeView::Custom(name) => name,
        }
    }
}

impl DistributionMode {
    /// The names of the protocol's modes are short.
    pub proof fn lemma_names_fit()
        ensures
            vstd::utf8::encode_utf8("move"@).len() <= 0xff,
            vstd::utf8::encode_utf8("copy"@).len() <= 0xff,
    {
        reveal_strlit("move");
        reveal_strlit("copy");
        assert(vstd::utf8::is_ascii_chars("move"@));
        assert(vstd::utf8::is_ascii_chars("copy"@));
        vstd::utf8::is_ascii_chars_encode_utf8("move"@);
        vstd::utf8::is_ascii_chars_encode_utf8("copy"@);
    }
}

impl RoundTrip for DistributionMode {
    /// The modes of the protocol, and the custom modes whose name can be
    /// encoded and is none of the protocol's.
    open spec fn round_trips(v: DistributionModeView) -> bool {
        v matches DistributionModeView::Custom(name) ==> <Symbol as Encode>::encodable(name)
            && spec_distribution_mode(name) == v
    }

    proof fn law_round_trip(v: DistributionModeView, tail: Seq<u8>) {
        DistributionMode::lemma_names_fit();
        reveal_strlit("move");
        reveal_strlit("copy");
        assert("move"@[0] != "copy"@[0]);
        <Symbol as RoundTrip>::law_round_trip(DistributionMode::spec_name(v), tail);
    }
}

impl Encode for DistributionMode {
    /// A custom mode can be encoded where its name can; the modes of the
    /// protocol always can.
    open spec fn encodable(v: DistributionModeView) -> bool {
        v matches DistributionModeView::Custom(name) ==> <Symbol as Encode>::encodable(name)
    }

    open spec fn spec_encode(v: DistributionModeView) -> Seq<u8> {
        <Symbol as Encode>::spec_encode(DistributionMode::spec_name(v))
    }

    fn encoded_size(&self) -> (n: usize) {
        proof {
            DistributionMode::lemma_names_fit();
        }
        match self {
            DistributionMode::Move => Symbol::from_static("move").encoded_size(),
            DistributionMode::Copy => Symbol::from_static("copy").encoded_size(),
            DistributionMode::Custom(name) => name.encoded_size(),
        }
    }

    fn size_within(&self, limit: usize) -> (size: Option<usize>) {
        proof {
            DistributionMode::lemma_names_fit();
        }
        match self {
            DistributionMode::Move => Symbol::from_static("move").size_within(limit),
            DistributionMode::Copy => Symbol::from_static("copy").size_within(limit),
            DistributionMode::Custom(name) => name.size_within(limit),
        }
    }

    fn encode(&self, buf: &mut BytesMut) {
        proof {
            DistributionMode::lemma_names_fit();
        }
        match self {
            DistributionMode::Move => Symbol::from_static("move").encode(buf),
            DistributionMode::Copy => Symbol::from_static("copy").encode(buf),
            DistributionMode::Custom(name) => name.encode(buf),
        }
    }
}


/// How an authentication ended.
#[derive(Debug, Clone, Copy, PartialEq, Eq)]
pub enum SaslCode {
    /// The connection is authenticated.
    Success,
    /// The credentials were refused.
    Auth,
    /// The server failed.
    Sys,
    /// The server failed and will fail again.
    SysPerm,
    /// The server failed for now.
    SysTemp,
}

impl DeepView for SaslCode {
    type V = SaslCode;

    open spec fn deep_view(&self) -> SaslCode {
        *self
    }
}

impl SaslCode {
    /// The number that stands for the option.
    pub open spec fn spec_value(self) -> u8 {
        match self {
            SaslCode::Success => 0,
            SaslCode::Auth => 1,
            SaslCode::Sys => 2,
            SaslCode::SysPerm => 3,
            SaslCode::SysTemp => 4,
        }
    }

    pub fn value(self) -> (value: u8)
        ensures
            value == self.spec_value(),
    {
        match self {
            SaslCode::Success => 0,
            SaslCode::Auth => 1,
            SaslCode::Sys => 2,
            SaslCode::SysPerm => 3,
            SaslCode::SysTemp => 4,
        }
    }

    /// The option that a number stands for, if it stands for one.
    pub open spec fn spec_try_from(value: u8) -> Option<SaslCode> {
        if value == 0 {
            Some(SaslCode::Success)
        } else if value == 1 {
            Some(SaslCode::Auth)
        } else if value == 2 {
            Some(SaslCode::Sys)
        } else if value == 3 {
            Some(SaslCode::SysPerm)
        } else if value == 4 {
            Some(SaslCode::SysTemp)
        } else {
            None
        }
    }

    pub fn try_from(value: u8) -> (r: Result<SaslCode, Error>)
        ensures
            r == match Self::spec_try_from(value) {
                Some(option) => Ok::<SaslCode, Error>(option),
                None => Err::<SaslCode, Error>(Error::UnknownOption),
            },
    {
        match value {
            0 => Ok(SaslCode::Success),
            1 => Ok(SaslCode::Auth),
            2 => Ok(SaslCode::Sys),
            3 => Ok(SaslCode::SysPerm),
            4 => Ok(SaslCode::SysTemp),
            _ => Err(Error::UnknownOption),
        }
    }
}

impl DecodeFormatted for SaslCode {
    open spec fn spec_decode_with_format(input: Seq<u8>, fmt: u8) -> Decoded<SaslCode> {
        spec_choice(
            u8::spec_decode_with_format(input, fmt),
            |value: u8| SaslCode::spec_try_from(value),
        )
    }

    proof fn decoding_leaves_suffix(input: Seq<u8>, fmt: u8) {
        u8::decoding_leaves_suffix(input, fmt);
    }

    fn decode_with_format<'a>(input: &'a [u8], fmt: u8) -> (r: Result<(&'a [u8], Self), Error>) {
        let (rest, base) = u8::decode_with_format(input, fmt)?;
        let option = SaslCode::try_from(base)?;
        Ok((rest, option))
    }
}

impl Encode for SaslCode {
    open spec fn encodable(v: SaslCode) -> bool {
        true
    }

    open spec fn spec_encode(v: SaslCode) -> Seq<u8> {
        <u8 as Encode>::spec_encode(v.spec_value())
    }

    fn encoded_size(&self) -> (n: usize) {
        self.value().encoded_size()
    }

    fn size_within(&self, limit: usize) -> (size: Option<usize>) {
        let n = self.encoded_size();
        if n <= limit {
            Some(n)
        } else {
            None
        }
    }

    fn encode(&self, buf: &mut BytesMut) {
        self.value().encode(buf)
    }
}

impl RoundTrip for SaslCode {
    open spec fn round_trips(v: SaslCode) -> bool {
        true
    }

    proof fn law_round_trip(v: SaslCode, tail: Seq<u8>) {
        u8::law_round_trip(v.spec_value(), tail);
    }
}

} // verus!
