//! The performatives that end what the others began, and the error that
//! they may carry.

use vstd::prelude::*;
use bytes::BytesMut;
use crate::buffer::{buf_bytes, BUF_MAX};
use crate::errors::Error;
use crate::codec::decode::{decode_list_header, lemma_suffix_of_suffix, spec_decode_list_header};
use crate::codec::described::{
    decode_default_field, decode_described, decode_optional_field, decode_required_field,
    described_encoded_size, described_size_within, descriptor_code, encode_described,
    encode_field, field_encoded_size, field_size_within, lemma_default_field_round_trip,
    lemma_described_leaves_suffix, lemma_described_round_trip, lemma_field_leaves_suffix,
    lemma_optional_field_round_trip, lemma_required_field_round_trip, spec_decode_default_field,
    spec_decode_described, spec_decode_optional_field, spec_decode_required_field,
    spec_encode_described, spec_encode_field, fields_left, left_of, DescribedList,
};
use crate::codec::encode::{compound_fits, list_header_size, put_list_header, spec_list_header};
use crate::codec::laws::lemma_list_header_round_trip;
use crate::codec::{DecodeFormatted, Decoded, Encode, RoundTrip};
use crate::protocol::Described;
use crate::codec::described::lemma_no_field_no_bytes;
use crate::protocol::choices::{ErrorCondition, ErrorConditionView};
use crate::types::{ByteStr, VariantMap, VariantView};

verus! {

/// What went wrong, for the peer to read: the condition, and what there is to
/// say about it.
#[derive(Debug, PartialEq, Eq)]
pub struct ErrorInfo {
    pub condition: ErrorCondition,
    pub description: Option<ByteStr>,
    pub info: Option<VariantMap>,
}

/// The model of an `ErrorInfo`.
pub struct ErrorInfoView {
    pub condition: ErrorConditionView,
    pub description: Option<Seq<char>>,
    pub info: Option<Seq<(VariantView, VariantView)>>,
}

impl DeepView for ErrorInfo {
    type V = ErrorInfoView;

    open spec fn deep_view(&self) -> ErrorInfoView {
        ErrorInfoView {
            condition: self.condition.deep_view(),
            description: self.description.deep_view(),
            info: self.info.deep_view(),
        }
    }
}

impl Described for ErrorInfo {
    open spec fn spec_descriptor_name() -> Seq<char> {
        "amqp:error:list"@
    }

    open spec fn spec_descriptor_domain() -> u32 {
        0
    }

    open spec fn spec_descriptor_code() -> u32 {
        0x1d
    }

    fn descriptor_name(&self) -> (name: &'static str) {
        "amqp:error:list"
    }

    fn descriptor_domain(&self) -> (domain: u32) {
        0
    }

    fn descriptor_code(&self) -> (code: u32) {
        0x1d
    }
}

impl ErrorInfo {
    /// The fields of an `ErrorInfo`, from a list that holds `count` of them.
    #[verifier::opaque]
    pub open spec fn spec_decode_fields(input: Seq<u8>, count: nat) -> Decoded<ErrorInfoView> {
        match spec_decode_required_field::<ErrorCondition>(input, count, "condition") {
            Ok((input, count, condition)) => match spec_decode_optional_field::<ByteStr>(
                input,
                count,
            ) {
                Ok((input, count, description)) => match spec_decode_optional_field::<VariantMap>(
                    input,
                    count,
                ) {
                    Ok((input, _, info)) => Ok((input, ErrorInfoView { condition, description, info })),
                    Err(e) => Err(e),
                },
                Err(e) => Err(e),
            },
            Err(e) => Err(e),
        }
    }

    /// The number of fields that the list holds: all up to the last one
    /// that is there.
    pub open spec fn spec_field_count(v: ErrorInfoView) -> nat {
        if v.info is Some {
            3
        } else if v.description is Some {
            2
        } else {
            1
        }
    }

    /// The number of fields that the list of the value holds.
    pub fn field_count(&self) -> (count: u32)
        ensures
            count == Self::spec_field_count(self.deep_view()),
    {
        if self.info.is_some() {
            3
        } else if self.description.is_some() {
            2
        } else {
            1
        }
    }

    /// The bytes of the fields in a list of `count` fields.
    pub open spec fn spec_encode_fields(v: ErrorInfoView, count: nat) -> Seq<u8> {
        spec_encode_field::<ErrorCondition>(v.condition, count)
            + spec_encode_field::<Option<ByteStr>>(v.description, fields_left(count, 1))
            + spec_encode_field::<Option<VariantMap>>(v.info, fields_left(count, 2))
    }

    /// The values that have an encoding: every field has one, and the
    /// fields fit the header of the list.
    pub open spec fn fits(v: ErrorInfoView) -> bool {
        &&& <ErrorCondition as Encode>::encodable(v.condition)
        &&& <Option<ByteStr> as Encode>::encodable(v.description)
        &&& <Option<VariantMap> as Encode>::encodable(v.info)
        &&& compound_fits(
            Self::spec_encode_fields(v, Self::spec_field_count(v)).len(),
            Self::spec_field_count(v),
        )
    }

    /// The values that decoding gives back as they went in.
    pub open spec fn comes_back(v: ErrorInfoView) -> bool {
        &&& Self::fits(v)
        &&& <ErrorCondition as RoundTrip>::round_trips(v.condition)
        &&& <Option<ByteStr> as RoundTrip>::round_trips(v.description)
        &&& <Option<VariantMap> as RoundTrip>::round_trips(v.info)
    }

    /// The fields come back from their bytes.
    pub proof fn lemma_fields_round_trip(v: ErrorInfoView, count: nat, tail: Seq<u8>)
        requires
            <ErrorCondition as RoundTrip>::round_trips(v.condition),
            <Option<ByteStr> as RoundTrip>::round_trips(v.description),
            <Option<VariantMap> as RoundTrip>::round_trips(v.info),
            count == Self::spec_field_count(v),
        ensures
            Self::spec_decode_fields(Self::spec_encode_fields(v, count) + tail, count) == Ok::<
                (Seq<u8>, ErrorInfoView),
                Error,
            >((tail, v)),
    {
        reveal(ErrorInfo::spec_decode_fields);
        let e0 = spec_encode_field::<ErrorCondition>(v.condition, count);
        let e1 = spec_encode_field::<Option<ByteStr>>(v.description, fields_left(count, 1));
        let e2 = spec_encode_field::<Option<VariantMap>>(v.info, fields_left(count, 2));
        let t2 = e2 + tail;
        let t1 = e1 + t2;
        assert(Self::spec_encode_fields(v, count) + tail =~= e0 + t1);
        lemma_required_field_round_trip::<ErrorCondition>(v.condition, "condition", count, t1);
        lemma_optional_field_round_trip::<ByteStr>(v.description, fields_left(count, 1), t2);
        lemma_optional_field_round_trip::<VariantMap>(v.info, fields_left(count, 2), tail);
    }
}

impl DescribedList for ErrorInfo {
    fn descriptor() -> (d: (u64, &'static str)) {
        (descriptor_code(0, 0x1d), "amqp:error:list")
    }

    open spec fn spec_decode_list(input: Seq<u8>, fmt: u8) -> Decoded<ErrorInfoView> {
        match spec_decode_list_header(input, fmt) {
            Ok((rest, header)) => Self::spec_decode_fields(rest, header.count as nat),
            Err(e) => Err(e),
        }
    }

    proof fn list_leaves_suffix(input: Seq<u8>, fmt: u8) {
        reveal(ErrorInfo::spec_decode_fields);
        if let Ok((r0, header)) = spec_decode_list_header(input, fmt) {
            let c0 = header.count as nat;
            lemma_field_leaves_suffix::<ErrorCondition>(r0, c0, arbitrary(), "condition");
            if let Ok((r1, c1, _)) = spec_decode_required_field::<ErrorCondition>(
                r0,
                c0,
                "condition",
            ) {
                lemma_suffix_of_suffix(r1, r0, input);
                lemma_field_leaves_suffix::<ByteStr>(r1, c1, arbitrary(), "description");
                if let Ok((r2, c2, _)) = spec_decode_optional_field::<ByteStr>(r1, c1) {
                    lemma_suffix_of_suffix(r2, r1, input);
                    lemma_field_leaves_suffix::<VariantMap>(r2, c2, arbitrary(), "info");
                    if let Ok((r3, c3, _)) = spec_decode_optional_field::<VariantMap>(r2, c2) {
                        lemma_suffix_of_suffix(r3, r2, input);
                    }
                }
            }
        }
    }

    fn decode_list<'a>(input: &'a [u8], fmt: u8) -> (r: Result<(&'a [u8], ErrorInfo), Error>) {
        proof {
            reveal(ErrorInfo::spec_decode_fields);
        }
        let (input, header) = decode_list_header(input, fmt)?;
        let count: u32 = header.count;
        let (input, count, condition) = decode_required_field::<ErrorCondition>(
            input,
            count,
            "condition",
        )?;
        let (input, count, description) = decode_optional_field::<ByteStr>(input, count)?;
        let (input, _, info) = decode_optional_field::<VariantMap>(input, count)?;
        Ok((input, ErrorInfo { condition, description, info }))
    }

    open spec fn list_encodable(v: ErrorInfoView) -> bool {
        ErrorInfo::fits(v)
    }

    open spec fn spec_encode_list(v: ErrorInfoView) -> Seq<u8> {
        spec_list_header(
            Self::spec_encode_fields(v, Self::spec_field_count(v)).len(),
            Self::spec_field_count(v),
        ) + Self::spec_encode_fields(v, Self::spec_field_count(v))
    }

    fn list_encoded_size(&self) -> (n: usize) {
        let count: u32 = self.field_count();
        let n0 = field_encoded_size::<ErrorCondition>(&self.condition, count);
        let n1 = field_encoded_size::<Option<ByteStr>>(&self.description, left_of(count, 1));
        let n2 = field_encoded_size::<Option<VariantMap>>(&self.info, left_of(count, 2));
        let content_len = n0 + n1 + n2;
        list_header_size(content_len, count) + content_len
    }

    fn list_size_within(&self, limit: usize) -> (size: Option<usize>) {
        let count: u32 = self.field_count();
        let ghost v = self.deep_view();
        let ghost e0 = spec_encode_field::<ErrorCondition>(v.condition, count as nat);
        let ghost e1 = spec_encode_field::<Option<ByteStr>>(
            v.description,
            fields_left(count as nat, 1),
        );
        let ghost e2 = spec_encode_field::<Option<VariantMap>>(
            v.info,
            fields_left(count as nat, 2),
        );
        assert(Self::spec_encode_fields(v, count as nat) == e0 + e1 + e2);
        assert((e0 + e1 + e2).len() == e0.len() + e1.len() + e2.len());
        let most: usize = if limit < 0xffff_fffb {
            limit
        } else {
            0xffff_fffb
        };
        let n0 = match field_size_within::<ErrorCondition>(&self.condition, count, most) {
            Some(n) => n,
            None => {
                return None;
            },
        };
        assert(n0 == e0.len());
        let n1 = match field_size_within::<Option<ByteStr>>(
            &self.description,
            left_of(count, 1),
            most - n0,
        ) {
            Some(n) => n,
            None => {
                return None;
            },
        };
        assert(n1 == e1.len());
        let n2 = match field_size_within::<Option<VariantMap>>(
            &self.info,
            left_of(count, 2),
            most - n0 - n1,
        ) {
            Some(n) => n,
            None => {
                return None;
            },
        };
        assert(n2 == e2.len());
        let content_len = n0 + n1 + n2;
        let header: usize = list_header_size(content_len, count);
        if limit - content_len < header {
            None
        } else {
            Some(content_len + header)
        }
    }

    fn encode_list(&self, buf: &mut BytesMut) {
        let count: u32 = self.field_count();
        let ghost v = self.deep_view();
        let ghost e0 = spec_encode_field::<ErrorCondition>(v.condition, count as nat);
        let ghost e1 = spec_encode_field::<Option<ByteStr>>(
            v.description,
            fields_left(count as nat, 1),
        );
        let ghost e2 = spec_encode_field::<Option<VariantMap>>(
            v.info,
            fields_left(count as nat, 2),
        );
        assert(Self::spec_encode_fields(v, count as nat) == e0 + e1 + e2);
        assert((e0 + e1 + e2).len() == e0.len() + e1.len() + e2.len());
        let n0 = field_encoded_size::<ErrorCondition>(&self.condition, count);
        let n1 = field_encoded_size::<Option<ByteStr>>(&self.description, left_of(count, 1));
        let n2 = field_encoded_size::<Option<VariantMap>>(&self.info, left_of(count, 2));
        let content_len = n0 + n1 + n2;
        put_list_header(buf, content_len, count);
        let ghost start = buf_bytes(*buf);
        let left = encode_field::<ErrorCondition>(&self.condition, count, buf);
        assert(buf_bytes(*buf) == start + e0);
        let left = encode_field::<Option<ByteStr>>(&self.description, left, buf);
        assert(buf_bytes(*buf) == start + e0 + e1);
        let _ = encode_field::<Option<VariantMap>>(&self.info, left, buf);
        assert(buf_bytes(*buf) == start + e0 + e1 + e2);
        assert(start + e0 + e1 + e2 =~= start + (e0 + e1 + e2));
        assert(buf_bytes(*buf) =~= buf_bytes(*old(buf)) + Self::spec_encode_list(
            self.deep_view(),
        ));
    }

    open spec fn list_round_trips(v: ErrorInfoView) -> bool {
        ErrorInfo::comes_back(v)
    }

    proof fn law_list_round_trip(v: ErrorInfoView, tail: Seq<u8>) {
        let count = Self::spec_field_count(v);
        let content = Self::spec_encode_fields(v, count);
        let header = spec_list_header(content.len(), count);
        assert(Self::spec_encode_list(v) + tail =~= header + (content + tail));
        lemma_list_header_round_trip(content.len(), count, content + tail);
        Self::lemma_fields_round_trip(v, count, tail);
    }
}

impl DecodeFormatted for ErrorInfo {
    open spec fn spec_decode_with_format(input: Seq<u8>, fmt: u8) -> Decoded<ErrorInfoView> {
        spec_decode_described::<ErrorInfo>(input, fmt)
    }

    proof fn decoding_leaves_suffix(input: Seq<u8>, fmt: u8) {
        lemma_described_leaves_suffix::<ErrorInfo>(input, fmt);
    }

    fn decode_with_format<'a>(input: &'a [u8], fmt: u8) -> (r: Result<(&'a [u8], Self), Error>) {
        decode_described::<ErrorInfo>(input, fmt)
    }
}

impl Encode for ErrorInfo {
    open spec fn encodable(v: ErrorInfoView) -> bool {
        ErrorInfo::fits(v)
    }

    open spec fn spec_encode(v: ErrorInfoView) -> Seq<u8> {
        spec_encode_described::<ErrorInfo>(v)
    }

    fn encoded_size(&self) -> (n: usize) {
        described_encoded_size::<ErrorInfo>(self)
    }

    fn size_within(&self, limit: usize) -> (size: Option<usize>) {
        described_size_within::<ErrorInfo>(self, limit)
    }

    fn encode(&self, buf: &mut BytesMut) {
        encode_described::<ErrorInfo>(self, buf)
    }
}

impl RoundTrip for ErrorInfo {
    open spec fn round_trips(v: ErrorInfoView) -> bool {
        ErrorInfo::comes_back(v)
    }

    proof fn law_round_trip(v: ErrorInfoView, tail: Seq<u8>) {
        lemma_described_round_trip::<ErrorInfo>(v, tail);
    }
}

/// The performative that detaches a link from a session.
#[derive(Debug, PartialEq, Eq)]
pub struct Detach {
    pub handle: u32,
    pub closed: bool,
    pub error: Option<ErrorInfo>,
}

/// The model of a `Detach`.
pub struct DetachView {
    pub handle: u32,
    pub closed: bool,
    pub error: Option<ErrorInfoView>,
}

impl DeepView for Detach {
    type V = DetachView;

    open spec fn deep_view(&self) -> DetachView {
        DetachView {
            handle: self.handle.deep_view(),
            closed: self.closed.deep_view(),
            error: self.error.deep_view(),
        }
    }
}

impl Described for Detach {
    open spec fn spec_descriptor_name() -> Seq<char> {
        "amqp:detach:list"@
    }

    open spec fn spec_descriptor_domain() -> u32 {
        0
    }

    open spec fn spec_descriptor_code() -> u32 {
        0x16
    }

    fn descriptor_name(&self) -> (name: &'static str) {
        "amqp:detach:list"
    }

    fn descriptor_domain(&self) -> (domain: u32) {
        0
    }

    fn descriptor_code(&self) -> (code: u32) {
        0x16
    }
}

impl Detach {
    /// The fields of a `Detach`, from a list that holds `count` of them.
    #[verifier::opaque]
    pub open spec fn spec_decode_fields(input: Seq<u8>, count: nat) -> Decoded<DetachView> {
        match spec_decode_required_field::<u32>(input, count, "handle") {
            Ok((input, count, handle)) => match spec_decode_default_field::<bool>(
                input,
                count,
                false,
            ) {
                Ok((input, count, closed)) => match spec_decode_optional_field::<ErrorInfo>(
                    input,
                    count,
                ) {
                    Ok((input, _, error)) => Ok((input, DetachView { handle, closed, error })),
                    Err(e) => Err(e),
                },
                Err(e) => Err(e),
            },
            Err(e) => Err(e),
        }
    }

    /// The number of fields that the list holds: all up to the last one
    /// that is there.
    pub open spec fn spec_field_count(v: DetachView) -> nat {
        if v.error is Some {
            3
        } else {
            2
        }
    }

    /// The number of fields that the list of the value holds.
    pub fn field_count(&self) -> (count: u32)
        ensures
            count == Self::spec_field_count(self.deep_view()),
    {
        if self.error.is_some() {
            3
        } else {
            2
        }
    }

    /// The bytes of the fields in a list of `count` fields.
    pub open spec fn spec_encode_fields(v: DetachView, count: nat) -> Seq<u8> {
        spec_encode_field::<u32>(v.handle, count)
            + spec_encode_field::<bool>(v.closed, fields_left(count, 1))
            + spec_encode_field::<Option<ErrorInfo>>(v.error, fields_left(count, 2))
    }

    /// The values that have an encoding: every field has one, and the
    /// fields fit the header of the list.
    pub open spec fn fits(v: DetachView) -> bool {
        &&& <u32 as Encode>::encodable(v.handle)
        &&& <bool as Encode>::encodable(v.closed)
        &&& <Option<ErrorInfo> as Encode>::encodable(v.error)
        &&& compound_fits(
            Self::spec_encode_fields(v, Self::spec_field_count(v)).len(),
            Self::spec_field_count(v),
        )
    }

    /// The values that decoding gives back as they went in.
    pub open spec fn comes_back(v: DetachView) -> bool {
        &&& Self::fits(v)
        &&& <u32 as RoundTrip>::round_trips(v.handle)
        &&& <bool as RoundTrip>::round_trips(v.closed)
        &&& <Option<ErrorInfo> as RoundTrip>::round_trips(v.error)
    }

    /// The fields come back from their bytes.
    pub proof fn lemma_fields_round_trip(v: DetachView, count: nat, tail: Seq<u8>)
        requires
            <u32 as RoundTrip>::round_trips(v.handle),
            <bool as RoundTrip>::round_trips(v.closed),
            <Option<ErrorInfo> as RoundTrip>::round_trips(v.error),
            count == Self::spec_field_count(v),
        ensures
            Self::spec_decode_fields(Self::spec_encode_fields(v, count) + tail, count) == Ok::<
                (Seq<u8>, DetachView),
                Error,
            >((tail, v)),
    {
        reveal(Detach::spec_decode_fields);
        let e0 = spec_encode_field::<u32>(v.handle, count);
        let e1 = spec_encode_field::<bool>(v.closed, fields_left(count, 1));
        let e2 = spec_encode_field::<Option<ErrorInfo>>(v.error, fields_left(count, 2));
        let t2 = e2 + tail;
        let t1 = e1 + t2;
        assert(Self::spec_encode_fields(v, count) + tail =~= e0 + t1);
        lemma_required_field_round_trip::<u32>(v.handle, "handle", count, t1);
        lemma_default_field_round_trip::<bool>(v.closed, false, fields_left(count, 1), t2);
        lemma_optional_field_round_trip::<ErrorInfo>(v.error, fields_left(count, 2), tail);
    }
}

impl DescribedList for Detach {
    fn descriptor() -> (d: (u64, &'static str)) {
        (descriptor_code(0, 0x16), "amqp:detach:list")
    }

    open spec fn spec_decode_list(input: Seq<u8>, fmt: u8) -> Decoded<DetachView> {
        match spec_decode_list_header(input, fmt) {
            Ok((rest, header)) => Self::spec_decode_fields(rest, header.count as nat),
            Err(e) => Err(e),
        }
    }

    proof fn list_leaves_suffix(input: Seq<u8>, fmt: u8) {
        reveal(Detach::spec_decode_fields);
        if let Ok((r0, header)) = spec_decode_list_header(input, fmt) {
            let c0 = header.count as nat;
            lemma_field_leaves_suffix::<u32>(r0, c0, arbitrary(), "handle");
            if let Ok((r1, c1, _)) = spec_decode_required_field::<u32>(r0, c0, "handle") {
                lemma_suffix_of_suffix(r1, r0, input);
                lemma_field_leaves_suffix::<bool>(r1, c1, false, "closed");
                if let Ok((r2, c2, _)) = spec_decode_default_field::<bool>(r1, c1, false) {
                    lemma_suffix_of_suffix(r2, r1, input);
                    lemma_field_leaves_suffix::<ErrorInfo>(r2, c2, arbitrary(), "error");
                    if let Ok((r3, c3, _)) = spec_decode_optional_field::<ErrorInfo>(r2, c2) {
                        lemma_suffix_of_suffix(r3, r2, input);
                    }
                }
            }
        }
    }

    fn decode_list<'a>(input: &'a [u8], fmt: u8) -> (r: Result<(&'a [u8], Detach), Error>) {
        proof {
            reveal(Detach::spec_decode_fields);
        }
        let (input, header) = decode_list_header(input, fmt)?;
        let count: u32 = header.count;
        let (input, count, handle) = decode_required_field::<u32>(input, count, "handle")?;
        let (input, count, closed) = decode_default_field::<bool>(input, count, false)?;
        let (input, _, error) = decode_optional_field::<ErrorInfo>(input, count)?;
        Ok((input, Detach { handle, closed, error }))
    }

    open spec fn list_encodable(v: DetachView) -> bool {
        Detach::fits(v)
    }

    open spec fn spec_encode_list(v: DetachView) -> Seq<u8> {
        spec_list_header(
            Self::spec_encode_fields(v, Self::spec_field_count(v)).len(),
            Self::spec_field_count(v),
        ) + Self::spec_encode_fields(v, Self::spec_field_count(v))
    }

    fn list_encoded_size(&self) -> (n: usize) {
        let count: u32 = self.field_count();
        let n0 = field_encoded_size::<u32>(&self.handle, count);
        let n1 = field_encoded_size::<bool>(&self.closed, left_of(count, 1));
        let n2 = field_encoded_size::<Option<ErrorInfo>>(&self.error, left_of(count, 2));
        let content_len = n0 + n1 + n2;
        list_header_size(content_len, count) + content_len
    }

    fn list_size_within(&self, limit: usize) -> (size: Option<usize>) {
        let count: u32 = self.field_count();
        let ghost v = self.deep_view();
        let ghost e0 = spec_encode_field::<u32>(v.handle, count as nat);
        let ghost e1 = spec_encode_field::<bool>(v.closed, fields_left(count as nat, 1));
        let ghost e2 = spec_encode_field::<Option<ErrorInfo>>(
            v.error,
            fields_left(count as nat, 2),
        );
        assert(Self::spec_encode_fields(v, count as nat) == e0 + e1 + e2);
        assert((e0 + e1 + e2).len() == e0.len() + e1.len() + e2.len());
        let most: usize = if limit < 0xffff_fffb {
            limit
        } else {
            0xffff_fffb
        };
        let n0 = match field_size_within::<u32>(&self.handle, count, most) {
            Some(n) => n,
            None => {
                return None;
            },
        };
        assert(n0 == e0.len());
        let n1 = match field_size_within::<bool>(&self.closed, left_of(count, 1), most - n0) {
            Some(n) => n,
            None => {
                return None;
            },
        };
        assert(n1 == e1.len());
        let n2 = match field_size_within::<Option<ErrorInfo>>(
            &self.error,
            left_of(count, 2),
            most - n0 - n1,
        ) {
            Some(n) => n,
            None => {
                return None;
            },
        };
        assert(n2 == e2.len());
        let content_len = n0 + n1 + n2;
        let header: usize = list_header_size(content_len, count);
        if limit - content_len < header {
            None
        } else {
            Some(content_len + header)
        }
    }

    fn encode_list(&self, buf: &mut BytesMut) {
        let count: u32 = self.field_count();
        let ghost v = self.deep_view();
        let ghost e0 = spec_encode_field::<u32>(v.handle, count as nat);
        let ghost e1 = spec_encode_field::<bool>(v.closed, fields_left(count as nat, 1));
        let ghost e2 = spec_encode_field::<Option<ErrorInfo>>(
            v.error,
            fields_left(count as nat, 2),
        );
        assert(Self::spec_encode_fields(v, count as nat) == e0 + e1 + e2);
        assert((e0 + e1 + e2).len() == e0.len() + e1.len() + e2.len());
        let n0 = field_encoded_size::<u32>(&self.handle, count);
        let n1 = field_encoded_size::<bool>(&self.closed, left_of(count, 1));
        let n2 = field_encoded_size::<Option<ErrorInfo>>(&self.error, left_of(count, 2));
        let content_len = n0 + n1 + n2;
        put_list_header(buf, content_len, count);
        let ghost start = buf_bytes(*buf);
        let left = encode_field::<u32>(&self.handle, count, buf);
        assert(buf_bytes(*buf) == start + e0);
        let left = encode_field::<bool>(&self.closed, left, buf);
        assert(buf_bytes(*buf) == start + e0 + e1);
        let _ = encode_field::<Option<ErrorInfo>>(&self.error, left, buf);
        assert(buf_bytes(*buf) == start + e0 + e1 + e2);
        assert(start + e0 + e1 + e2 =~= start + (e0 + e1 + e2));
        assert(buf_bytes(*buf) =~= buf_bytes(*old(buf)) + Self::spec_encode_list(
            self.deep_view(),
        ));
    }

    open spec fn list_round_trips(v: DetachView) -> bool {
        Detach::comes_back(v)
    }

    proof fn law_list_round_trip(v: DetachView, tail: Seq<u8>) {
        let count = Self::spec_field_count(v);
        let content = Self::spec_encode_fields(v, count);
        let header = spec_list_header(content.len(), count);
        assert(Self::spec_encode_list(v) + tail =~= header + (content + tail));
        lemma_list_header_round_trip(content.len(), count, content + tail);
        Self::lemma_fields_round_trip(v, count, tail);
    }
}

impl DecodeFormatted for Detach {
    open spec fn spec_decode_with_format(input: Seq<u8>, fmt: u8) -> Decoded<DetachView> {
        spec_decode_described::<Detach>(input, fmt)
    }

    proof fn decoding_leaves_suffix(input: Seq<u8>, fmt: u8) {
        lemma_described_leaves_suffix::<Detach>(input, fmt);
    }

    fn decode_with_format<'a>(input: &'a [u8], fmt: u8) -> (r: Result<(&'a [u8], Self), Error>) {
        decode_described::<Detach>(input, fmt)
    }
}

impl Encode for Detach {
    open spec fn encodable(v: DetachView) -> bool {
        Detach::fits(v)
    }

    open spec fn spec_encode(v: DetachView) -> Seq<u8> {
        spec_encode_described::<Detach>(v)
    }

    fn encoded_size(&self) -> (n: usize) {
        described_encoded_size::<Detach>(self)
    }

    fn size_within(&self, limit: usize) -> (size: Option<usize>) {
        described_size_within::<Detach>(self, limit)
    }

    fn encode(&self, buf: &mut BytesMut) {
        encode_described::<Detach>(self, buf)
    }
}

impl RoundTrip for Detach {
    open spec fn round_trips(v: DetachView) -> bool {
        Detach::comes_back(v)
    }

    proof fn law_round_trip(v: DetachView, tail: Seq<u8>) {
        lemma_described_round_trip::<Detach>(v, tail);
    }
}

/// The performative that ends a session.
#[derive(Debug, PartialEq, Eq)]
pub struct End {
    pub error: Option<ErrorInfo>,
}

/// The model of an `End`.
pub struct EndView {
    pub error: Option<ErrorInfoView>,
}

impl DeepView for End {
    type V = EndView;

    open spec fn deep_view(&self) -> EndView {
        EndView {
            error: self.error.deep_view(),
        }
    }
}

impl Described for End {
    open spec fn spec_descriptor_name() -> Seq<char> {
        "amqp:end:list"@
    }

    open spec fn spec_descriptor_domain() -> u32 {
        0
    }

    open spec fn spec_descriptor_code() -> u32 {
        0x17
    }

    fn descriptor_name(&self) -> (name: &'static str) {
        "amqp:end:list"
    }

    fn descriptor_domain(&self) -> (domain: u32) {
        0
    }

    fn descriptor_code(&self) -> (code: u32) {
        0x17
    }
}

impl End {
    /// The fields of an `End`, from a list that holds `count` of them.
    #[verifier::opaque]
    pub open spec fn spec_decode_fields(input: Seq<u8>, count: nat) -> Decoded<EndView> {
        match spec_decode_optional_field::<ErrorInfo>(input, count) {
            Ok((input, _, error)) => Ok((input, EndView { error })),
            Err(e) => Err(e),
        }
    }

    /// The number of fields that the list holds: all up to the last one
    /// that is there.
    pub open spec fn spec_field_count(v: EndView) -> nat {
        if v.error is Some {
            1
        } else {
            0
        }
    }

    /// The number of fields that the list of the value holds.
    pub fn field_count(&self) -> (count: u32)
        ensures
            count == Self::spec_field_count(self.deep_view()),
    {
        if self.error.is_some() {
            1
        } else {
            0
        }
    }

    /// The bytes of the fields in a list of `count` fields.
    pub open spec fn spec_encode_fields(v: EndView, count: nat) -> Seq<u8> {
        spec_encode_field::<Option<ErrorInfo>>(v.error, count)
    }

    /// The values that have an encoding: every field has one, and the
    /// fields fit the header of the list.
    pub open spec fn fits(v: EndView) -> bool {
        &&& <Option<ErrorInfo> as Encode>::encodable(v.error)
        &&& compound_fits(
            Self::spec_encode_fields(v, Self::spec_field_count(v)).len(),
            Self::spec_field_count(v),
        )
    }

    /// The values that decoding gives back as they went in.
    pub open spec fn comes_back(v: EndView) -> bool {
        &&& Self::fits(v)
        &&& <Option<ErrorInfo> as RoundTrip>::round_trips(v.error)
    }

    /// The fields come back from their bytes.
    pub proof fn lemma_fields_round_trip(v: EndView, count: nat, tail: Seq<u8>)
        requires
            <Option<ErrorInfo> as RoundTrip>::round_trips(v.error),
            count == Self::spec_field_count(v),
        ensures
            Self::spec_decode_fields(Self::spec_encode_fields(v, count) + tail, count) == Ok::<
                (Seq<u8>, EndView),
                Error,
            >((tail, v)),
    {
        reveal(End::spec_decode_fields);
        let e0 = spec_encode_field::<Option<ErrorInfo>>(v.error, count);
        assert(Self::spec_encode_fields(v, count) + tail =~= e0 + tail);
        lemma_optional_field_round_trip::<ErrorInfo>(v.error, count, tail);
    }
}

impl DescribedList for End {
    fn descriptor() -> (d: (u64, &'static str)) {
        (descriptor_code(0, 0x17), "amqp:end:list")
    }

    open spec fn spec_decode_list(input: Seq<u8>, fmt: u8) -> Decoded<EndView> {
        match spec_decode_list_header(input, fmt) {
            Ok((rest, header)) => Self::spec_decode_fields(rest, header.count as nat),
            Err(e) => Err(e),
        }
    }

    proof fn list_leaves_suffix(input: Seq<u8>, fmt: u8) {
        reveal(End::spec_decode_fields);
        if let Ok((r0, header)) = spec_decode_list_header(input, fmt) {
            let c0 = header.count as nat;
            lemma_field_leaves_suffix::<ErrorInfo>(r0, c0, arbitrary(), "error");
            if let Ok((r1, c1, _)) = spec_decode_optional_field::<ErrorInfo>(r0, c0) {
                lemma_suffix_of_suffix(r1, r0, input);
            }
        }
    }

    fn decode_list<'a>(input: &'a [u8], fmt: u8) -> (r: Result<(&'a [u8], End), Error>) {
        proof {
            reveal(End::spec_decode_fields);
        }
        let (input, header) = decode_list_header(input, fmt)?;
        let count: u32 = header.count;
        let (input, _, error) = decode_optional_field::<ErrorInfo>(input, count)?;
        Ok((input, End { error }))
    }

    open spec fn list_encodable(v: EndView) -> bool {
        End::fits(v)
    }

    open spec fn spec_encode_list(v: EndView) -> Seq<u8> {
        spec_list_header(
            Self::spec_encode_fields(v, Self::spec_field_count(v)).len(),
            Self::spec_field_count(v),
        ) + Self::spec_encode_fields(v, Self::spec_field_count(v))
    }

    fn list_encoded_size(&self) -> (n: usize) {
        let count: u32 = self.field_count();
        let n0 = field_encoded_size::<Option<ErrorInfo>>(&self.error, count);
        let content_len = n0;
        list_header_size(content_len, count) + content_len
    }

    fn list_size_within(&self, limit: usize) -> (size: Option<usize>) {
        let count: u32 = self.field_count();
        let ghost v = self.deep_view();
        let ghost e0 = spec_encode_field::<Option<ErrorInfo>>(v.error, count as nat);
        assert(Self::spec_encode_fields(v, count as nat) == e0);
        let most: usize = if limit < 0xffff_fffb {
            limit
        } else {
            0xffff_fffb
        };
        let n0 = match field_size_within::<Option<ErrorInfo>>(&self.error, count, most) {
            Some(n) => n,
            None => {
                return None;
            },
        };
        assert(n0 == e0.len());
        let content_len = n0;
        let header: usize = list_header_size(content_len, count);
        if limit - content_len < header {
            None
        } else {
            Some(content_len + header)
        }
    }

    fn encode_list(&self, buf: &mut BytesMut) {
        let count: u32 = self.field_count();
        let ghost v = self.deep_view();
        let ghost e0 = spec_encode_field::<Option<ErrorInfo>>(v.error, count as nat);
        assert(Self::spec_encode_fields(v, count as nat) == e0);
        let n0 = field_encoded_size::<Option<ErrorInfo>>(&self.error, count);
        let content_len = n0;
        put_list_header(buf, content_len, count);
        let ghost start = buf_bytes(*buf);
        let _ = encode_field::<Option<ErrorInfo>>(&self.error, count, buf);
        assert(buf_bytes(*buf) == start + e0);
        assert(buf_bytes(*buf) =~= buf_bytes(*old(buf)) + Self::spec_encode_list(
            self.deep_view(),
        ));
    }

    open spec fn list_round_trips(v: EndView) -> bool {
        End::comes_back(v)
    }

    proof fn law_list_round_trip(v: EndView, tail: Seq<u8>) {
        let count = Self::spec_field_count(v);
        let content = Self::spec_encode_fields(v, count);
        let header = spec_list_header(content.len(), count);
        assert(Self::spec_encode_list(v) + tail =~= header + (content + tail));
        if count == 0 {
            lemma_no_field_no_bytes::<Option<ErrorInfo>>(v.error);
        }
        lemma_list_header_round_trip(content.len(), count, content + tail);
        Self::lemma_fields_round_trip(v, count, tail);
    }
}

impl DecodeFormatted for End {
    open spec fn spec_decode_with_format(input: Seq<u8>, fmt: u8) -> Decoded<EndView> {
        spec_decode_described::<End>(input, fmt)
    }

    proof fn decoding_leaves_suffix(input: Seq<u8>, fmt: u8) {
        lemma_described_leaves_suffix::<End>(input, fmt);
    }

    fn decode_with_format<'a>(input: &'a [u8], fmt: u8) -> (r: Result<(&'a [u8], Self), Error>) {
        decode_described::<End>(input, fmt)
    }
}

impl Encode for End {
    open spec fn encodable(v: EndView) -> bool {
        End::fits(v)
    }

    open spec fn spec_encode(v: EndView) -> Seq<u8> {
        spec_encode_described::<End>(v)
    }

    fn encoded_size(&self) -> (n: usize) {
        described_encoded_size::<End>(self)
    }

    fn size_within(&self, limit: usize) -> (size: Option<usize>) {
        described_size_within::<End>(self, limit)
    }

    fn encode(&self, buf: &mut BytesMut) {
        encode_described::<End>(self, buf)
    }
}

impl RoundTrip for End {
    open spec fn round_trips(v: EndView) -> bool {
        End::comes_back(v)
    }

    proof fn law_round_trip(v: EndView, tail: Seq<u8>) {
        lemma_described_round_trip::<End>(v, tail);
    }
}

/// The performative that closes a connection.
#[derive(Debug, PartialEq, Eq)]
pub struct Close {
    pub error: Option<ErrorInfo>,
}

/// The model of a `Close`.
pub struct CloseView {
    pub error: Option<ErrorInfoView>,
}

impl DeepView for Close {
    type V = CloseView;

    open spec fn deep_view(&self) -> CloseView {
        CloseView {
            error: self.error.deep_view(),
        }
    }
}

impl Described for Close {
    open spec fn spec_descriptor_name() -> Seq<char> {
        "amqp:close:list"@
    }

    open spec fn spec_descriptor_domain() -> u32 {
        0
    }

    open spec fn spec_descriptor_code() -> u32 {
        0x18
    }

    fn descriptor_name(&self) -> (name: &'static str) {
        "amqp:close:list"
    }

    fn descriptor_domain(&self) -> (domain: u32) {
        0
    }

    fn descriptor_code(&self) -> (code: u32) {
        0x18
    }
}

impl Close {
    /// The fields of a `Close`, from a list that holds `count` of them.
    #[verifier::opaque]
    pub open spec fn spec_decode_fields(input: Seq<u8>, count: nat) -> Decoded<CloseView> {
        match spec_decode_optional_field::<ErrorInfo>(input, count) {
            Ok((input, _, error)) => Ok((input, CloseView { error })),
            Err(e) => Err(e),
        }
    }

    /// The number of fields that the list holds: all up to the last one
    /// that is there.
    pub open spec fn spec_field_count(v: CloseView) -> nat {
        if v.error is Some {
            1
        } else {
            0
        }
    }

    /// The number of fields that the list of the value holds.
    pub fn field_count(&self) -> (count: u32)
        ensures
            count == Self::spec_field_count(self.deep_view()),
    {
        if self.error.is_some() {
            1
        } else {
            0
        }
    }

    /// The bytes of the fields in a list of `count` fields.
    pub open spec fn spec_encode_fields(v: CloseView, count: nat) -> Seq<u8> {
        spec_encode_field::<Option<ErrorInfo>>(v.error, count)
    }

    /// The values that have an encoding: every field has one, and the
    /// fields fit the header of the list.
    pub open spec fn fits(v: CloseView) -> bool {
        &&& <Option<ErrorInfo> as Encode>::encodable(v.error)
        &&& compound_fits(
            Self::spec_encode_fields(v, Self::spec_field_count(v)).len(),
            Self::spec_field_count(v),
        )
    }

    /// The values that decoding gives back as they went in.
    pub open spec fn comes_back(v: CloseView) -> bool {
        &&& Self::fits(v)
        &&& <Option<ErrorInfo> as RoundTrip>::round_trips(v.error)
    }

    /// The fields come back from their bytes.
    pub proof fn lemma_fields_round_trip(v: CloseView, count: nat, tail: Seq<u8>)
        requires
            <Option<ErrorInfo> as RoundTrip>::round_trips(v.error),
            count == Self::spec_field_count(v),
        ensures
            Self::spec_decode_fields(Self::spec_encode_fields(v, count) + tail, count) == Ok::<
                (Seq<u8>, CloseView),
                Error,
            >((tail, v)),
    {
        reveal(Close::spec_decode_fields);
        let e0 = spec_encode_field::<Option<ErrorInfo>>(v.error, count);
        assert(Self::spec_encode_fields(v, count) + tail =~= e0 + tail);
        lemma_optional_field_round_trip::<ErrorInfo>(v.error, count, tail);
    }
}

impl DescribedList for Close {
    fn descriptor() -> (d: (u64, &'static str)) {
        (descriptor_code(0, 0x18), "amqp:close:list")
    }

    open spec fn spec_decode_list(input: Seq<u8>, fmt: u8) -> Decoded<CloseView> {
        match spec_decode_list_header(input, fmt) {
            Ok((rest, header)) => Self::spec_decode_fields(rest, header.count as nat),
            Err(e) => Err(e),
        }
    }

    proof fn list_leaves_suffix(input: Seq<u8>, fmt: u8) {
        reveal(Close::spec_decode_fields);
        if let Ok((r0, header)) = spec_decode_list_header(input, fmt) {
            let c0 = header.count as nat;
            lemma_field_leaves_suffix::<ErrorInfo>(r0, c0, arbitrary(), "error");
            if let Ok((r1, c1, _)) = spec_decode_optional_field::<ErrorInfo>(r0, c0) {
                lemma_suffix_of_suffix(r1, r0, input);
            }
        }
    }

    fn decode_list<'a>(input: &'a [u8], fmt: u8) -> (r: Result<(&'a [u8], Close), Error>) {
        proof {
            reveal(Close::spec_decode_fields);
        }
        let (input, header) = decode_list_header(input, fmt)?;
        let count: u32 = header.count;
        let (input, _, error) = decode_optional_field::<ErrorInfo>(input, count)?;
        Ok((input, Close { error }))
    }

    open spec fn list_encodable(v: CloseView) -> bool {
        Close::fits(v)
    }

    open spec fn spec_encode_list(v: CloseView) -> Seq<u8> {
        spec_list_header(
            Self::spec_encode_fields(v, Self::spec_field_count(v)).len(),
            Self::spec_field_count(v),
        ) + Self::spec_encode_fields(v, Self::spec_field_count(v))
    }

    fn list_encoded_size(&self) -> (n: usize) {
        let count: u32 = self.field_count();
        let n0 = field_encoded_size::<Option<ErrorInfo>>(&self.error, count);
        let content_len = n0;
        list_header_size(content_len, count) + content_len
    }

    fn list_size_within(&self, limit: usize) -> (size: Option<usize>) {
        let count: u32 = self.field_count();
        let ghost v = self.deep_view();
        let ghost e0 = spec_encode_field::<Option<ErrorInfo>>(v.error, count as nat);
        assert(Self::spec_encode_fields(v, count as nat) == e0);
        let most: usize = if limit < 0xffff_fffb {
            limit
        } else {
            0xffff_fffb
        };
        let n0 = match field_size_within::<Option<ErrorInfo>>(&self.error, count, most) {
            Some(n) => n,
            None => {
                return None;
            },
        };
        assert(n0 == e0.len());
        let content_len = n0;
        let header: usize = list_header_size(content_len, count);
        if limit - content_len < header {
            None
        } else {
            Some(content_len + header)
        }
    }

    fn encode_list(&self, buf: &mut BytesMut) {
        let count: u32 = self.field_count();
        let ghost v = self.deep_view();
        let ghost e0 = spec_encode_field::<Option<ErrorInfo>>(v.error, count as nat);
        assert(Self::spec_encode_fields(v, count as nat) == e0);
        let n0 = field_encoded_size::<Option<ErrorInfo>>(&self.error, count);
        let content_len = n0;
        put_list_header(buf, content_len, count);
        let ghost start = buf_bytes(*buf);
        let _ = encode_field::<Option<ErrorInfo>>(&self.error, count, buf);
        assert(buf_bytes(*buf) == start + e0);
        assert(buf_bytes(*buf) =~= buf_bytes(*old(buf)) + Self::spec_encode_list(
            self.deep_view(),
        ));
    }

    open spec fn list_round_trips(v: CloseView) -> bool {
        Close::comes_back(v)
    }

    proof fn law_list_round_trip(v: CloseView, tail: Seq<u8>) {
        let count = Self::spec_field_count(v);
        let content = Self::spec_encode_fields(v, count);
        let header = spec_list_header(content.len(), count);
        assert(Self::spec_encode_list(v) + tail =~= header + (content + tail));
        if count == 0 {
            lemma_no_field_no_bytes::<Option<ErrorInfo>>(v.error);
        }
        lemma_list_header_round_trip(content.len(), count, content + tail);
        Self::lemma_fields_round_trip(v, count, tail);
    }
}

impl DecodeFormatted for Close {
    open spec fn spec_decode_with_format(input: Seq<u8>, fmt: u8) -> Decoded<CloseView> {
        spec_decode_described::<Close>(input, fmt)
    }

    proof fn decoding_leaves_suffix(input: Seq<u8>, fmt: u8) {
        lemma_described_leaves_suffix::<Close>(input, fmt);
    }

    fn decode_with_format<'a>(input: &'a [u8], fmt: u8) -> (r: Result<(&'a [u8], Self), Error>) {
        decode_described::<Close>(input, fmt)
    }
}

impl Encode for Close {
    open spec fn encodable(v: CloseView) -> bool {
        Close::fits(v)
    }

    open spec fn spec_encode(v: CloseView) -> Seq<u8> {
        spec_encode_described::<Close>(v)
    }

    fn encoded_size(&self) -> (n: usize) {
        described_encoded_size::<Close>(self)
    }

    fn size_within(&self, limit: usize) -> (size: Option<usize>) {
        described_size_within::<Close>(self, limit)
    }

    fn encode(&self, buf: &mut BytesMut) {
        encode_described::<Close>(self, buf)
    }
}

impl RoundTrip for Close {
    open spec fn round_trips(v: CloseView) -> bool {
        Close::comes_back(v)
    }

    proof fn law_round_trip(v: CloseView, tail: Seq<u8>) {
        lemma_described_round_trip::<Close>(v, tail);
    }
}

} // verus!
