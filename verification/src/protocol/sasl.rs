//! The performatives of the SASL layer, which authenticates a connection
//! before it is opened.

use vstd::prelude::*;
use bytes::BytesMut;
use crate::buffer::{buf_bytes, BUF_MAX};
use crate::errors::Error;
use crate::codec::decode::{decode_list_header, lemma_suffix_of_suffix, spec_decode_list_header};
use crate::codec::described::{
    decode_default_field, decode_described, decode_optional_field, decode_required_field,
    described_encoded_size, described_size_within, descriptor_code, encode_described,
    encode_field, field_encoded_size, field_size_within, lemma_default_field_round_trip,
    lemma_described_leaves_suffix, lemma_described_round_trip, lemma_field_leaves_suffix,
    lemma_optional_field_round_trip, lemma_required_field_round_trip, spec_decode_default_field,
    spec_decode_described, spec_decode_optional_field, spec_decode_required_field,
    spec_encode_described, spec_encode_field, fields_left, left_of, DescribedList,
};
use crate::codec::encode::{compound_fits, list_header_size, put_list_header, spec_list_header};
use crate::codec::laws::lemma_list_header_round_trip;
use crate::codec::{DecodeFormatted, Decoded, Encode, RoundTrip};
use crate::protocol::Described;
use crate::protocol::choices::SaslCode;
use crate::types::{Binary, ByteStr, Multiple, Symbol};

verus! {

/// The mechanisms that a server offers for authentication.
#[derive(Debug, PartialEq, Eq)]
pub struct SaslMechanisms {
    pub sasl_server_mechanisms: Multiple<Symbol>,
}

/// The model of a `SaslMechanisms`.
pub struct SaslMechanismsView {
    pub sasl_server_mechanisms: Seq<Seq<char>>,
}

impl DeepView for SaslMechanisms {
    type V = SaslMechanismsView;

    open spec fn deep_view(&self) -> SaslMechanismsView {
        SaslMechanismsView {
            sasl_server_mechanisms: self.sasl_server_mechanisms.deep_view(),
        }
    }
}

impl Described for SaslMechanisms {
    open spec fn spec_descriptor_name() -> Seq<char> {
        "amqp:sasl-mechanisms:list"@
    }

    open spec fn spec_descriptor_domain() -> u32 {
        0
    }

    open spec fn spec_descriptor_code() -> u32 {
        0x40
    }

    fn descriptor_name(&self) -> (name: &'static str) {
        "amqp:sasl-mechanisms:list"
    }

    fn descriptor_domain(&self) -> (domain: u32) {
        0
    }

    fn descriptor_code(&self) -> (code: u32) {
        0x40
    }
}

impl SaslMechanisms {
    /// The fields of a `SaslMechanisms`, from a list that holds `count` of them.
    #[verifier::opaque]
    pub open spec fn spec_decode_fields(input: Seq<u8>, count: nat) -> Decoded<SaslMechanismsView> {
        match spec_decode_required_field::<Multiple<Symbol>>(
            input,
            count,
            "sasl_server_mechanisms",
        ) {
            Ok((input, _, sasl_server_mechanisms)) => Ok((input, SaslMechanismsView { sasl_server_mechanisms })),
            Err(e) => Err(e),
        }
    }

    /// The number of fields that the list holds: all up to the last one
    /// that is there.
    pub open spec fn spec_field_count(v: SaslMechanismsView) -> nat {
        1
    }

    /// The number of fields that the list of the value holds.
    pub fn field_count(&self) -> (count: u32)
        ensures
            count == Self::spec_field_count(self.deep_view()),
    {
        1
    }

    /// The bytes of the fields in a list of `count` fields.
    pub open spec fn spec_encode_fields(v: SaslMechanismsView, count: nat) -> Seq<u8> {
        spec_encode_field::<Multiple<Symbol>>(v.sasl_server_mechanisms, count)
    }

    /// The values that have an encoding: every field has one, and the
    /// fields fit the header of the list.
    pub open spec fn fits(v: SaslMechanismsView) -> bool {
        &&& <Multiple<Symbol> as Encode>::encodable(v.sasl_server_mechanisms)
        &&& compound_fits(
            Self::spec_encode_fields(v, Self::spec_field_count(v)).len(),
            Self::spec_field_count(v),
        )
    }

    /// The values that decoding gives back as they went in.
    pub open spec fn comes_back(v: SaslMechanismsView) -> bool {
        &&& Self::fits(v)
        &&& <Multiple<Symbol> as RoundTrip>::round_trips(v.sasl_server_mechanisms)
    }

    /// The fields come back from their bytes.
    pub proof fn lemma_fields_round_trip(v: SaslMechanismsView, count: nat, tail: Seq<u8>)
        requires
            <Multiple<Symbol> as RoundTrip>::round_trips(v.sasl_server_mechanisms),
            count == Self::spec_field_count(v),
        ensures
            Self::spec_decode_fields(Self::spec_encode_fields(v, count) + tail, count) == Ok::<
                (Seq<u8>, SaslMechanismsView),
                Error,
            >((tail, v)),
    {
        reveal(SaslMechanisms::spec_decode_fields);
        let e0 = spec_encode_field::<Multiple<Symbol>>(v.sasl_server_mechanisms, count);
        assert(Self::spec_encode_fields(v, count) + tail =~= e0 + tail);
        lemma_required_field_round_trip::<Multiple<Symbol>>(
            v.sasl_server_mechanisms,
            "sasl_server_mechanisms",
            count,
            tail,
        );
    }
}

impl DescribedList for SaslMechanisms {
    fn descriptor() -> (d: (u64, &'static str)) {
        (descriptor_code(0, 0x40), "amqp:sasl-mechanisms:list")
    }

    open spec fn spec_decode_list(input: Seq<u8>, fmt: u8) -> Decoded<SaslMechanismsView> {
        match spec_decode_list_header(input, fmt) {
            Ok((rest, header)) => Self::spec_decode_fields(rest, header.count as nat),
            Err(e) => Err(e),
        }
    }

    proof fn list_leaves_suffix(input: Seq<u8>, fmt: u8) {
        reveal(SaslMechanisms::spec_decode_fields);
        if let Ok((r0, header)) = spec_decode_list_header(input, fmt) {
            let c0 = header.count as nat;
            lemma_field_leaves_suffix::<Multiple<Symbol>>(
                r0,
                c0,
                arbitrary(),
                "sasl_server_mechanisms",
            );
            if let Ok((r1, c1, _)) = spec_decode_required_field::<Multiple<Symbol>>(
                r0,
                c0,
                "sasl_server_mechanisms",
            ) {
                lemma_suffix_of_suffix(r1, r0, input);
            }
        }
    }

    fn decode_list<'a>(input: &'a [u8], fmt: u8) -> (r: Result<(&'a [u8], SaslMechanisms), Error>) {
        proof {
            reveal(SaslMechanisms::spec_decode_fields);
        }
        let (input, header) = decode_list_header(input, fmt)?;
        let count: u32 = header.count;
        let (input, _, sasl_server_mechanisms) = decode_required_field::<Multiple<Symbol>>(
            input,
            count,
            "sasl_server_mechanisms",
        )?;
        Ok((input, SaslMechanisms { sasl_server_mechanisms }))
    }

    open spec fn list_encodable(v: SaslMechanismsView) -> bool {
        SaslMechanisms::fits(v)
    }

    open spec fn spec_encode_list(v: SaslMechanismsView) -> Seq<u8> {
        spec_list_header(
            Self::spec_encode_fields(v, Self::spec_field_count(v)).len(),
            Self::spec_field_count(v),
        ) + Self::spec_encode_fields(v, Self::spec_field_count(v))
    }

    fn list_encoded_size(&self) -> (n: usize) {
        let count: u32 = self.field_count();
        let n0 = field_encoded_size::<Multiple<Symbol>>(&self.sasl_server_mechanisms, count);
        let content_len = n0;
        list_header_size(content_len, count) + content_len
    }

    fn list_size_within(&self, limit: usize) -> (size: Option<usize>) {
        let count: u32 = self.field_count();
        let ghost v = self.deep_view();
        let ghost e0 = spec_encode_field::<Multiple<Symbol>>(
            v.sasl_server_mechanisms,
            count as nat,
        );
        assert(Self::spec_encode_fields(v, count as nat) == e0);
        let most: usize = if limit < 0xffff_fffb {
            limit
        } else {
            0xffff_fffb
        };
        let n0 = match field_size_within::<Multiple<Symbol>>(
            &self.sasl_server_mechanisms,
            count,
            most,
        ) {
            Some(n) => n,
            None => {
                return None;
            },
        };
        assert(n0 == e0.len());
        let content_len = n0;
        let header: usize = list_header_size(content_len, count);
        if limit - content_len < header {
            None
        } else {
            Some(content_len + header)
        }
    }

    fn encode_list(&self, buf: &mut BytesMut) {
        let count: u32 = self.field_count();
        let ghost v = self.deep_view();
        let ghost e0 = spec_encode_field::<Multiple<Symbol>>(
            v.sasl_server_mechanisms,
            count as nat,
        );
        assert(Self::spec_encode_fields(v, count as nat) == e0);
        let n0 = field_encoded_size::<Multiple<Symbol>>(&self.sasl_server_mechanisms, count);
        let content_len = n0;
        put_list_header(buf, content_len, count);
        let ghost start = buf_bytes(*buf);
        let _ = encode_field::<Multiple<Symbol>>(&self.sasl_server_mechanisms, count, buf);
        assert(buf_bytes(*buf) == start + e0);
        assert(buf_bytes(*buf) =~= buf_bytes(*old(buf)) + Self::spec_encode_list(
            self.deep_view(),
        ));
    }

    open spec fn list_round_trips(v: SaslMechanismsView) -> bool {
        SaslMechanisms::comes_back(v)
    }

    proof fn law_list_round_trip(v: SaslMechanismsView, tail: Seq<u8>) {
        let count = Self::spec_field_count(v);
        let content = Self::spec_encode_fields(v, count);
        let header = spec_list_header(content.len(), count);
        assert(Self::spec_encode_list(v) + tail =~= header + (content + tail));
        lemma_list_header_round_trip(content.len(), count, content + tail);
        Self::lemma_fields_round_trip(v, count, tail);
    }
}

impl DecodeFormatted for SaslMechanisms {
    open spec fn spec_decode_with_format(input: Seq<u8>, fmt: u8) -> Decoded<SaslMechanismsView> {
        spec_decode_described::<SaslMechanisms>(input, fmt)
    }

    proof fn decoding_leaves_suffix(input: Seq<u8>, fmt: u8) {
        lemma_described_leaves_suffix::<SaslMechanisms>(input, fmt);
    }

    fn decode_with_format<'a>(input: &'a [u8], fmt: u8) -> (r: Result<(&'a [u8], Self), Error>) {
        decode_described::<SaslMechanisms>(input, fmt)
    }
}

impl Encode for SaslMechanisms {
    open spec fn encodable(v: SaslMechanismsView) -> bool {
        SaslMechanisms::fits(v)
    }

    open spec fn spec_encode(v: SaslMechanismsView) -> Seq<u8> {
        spec_encode_described::<SaslMechanisms>(v)
    }

    fn encoded_size(&self) -> (n: usize) {
        described_encoded_size::<SaslMechanisms>(self)
    }

    fn size_within(&self, limit: usize) -> (size: Option<usize>) {
        described_size_within::<SaslMechanisms>(self, limit)
    }

    fn encode(&self, buf: &mut BytesMut) {
        encode_described::<SaslMechanisms>(self, buf)
    }
}

impl RoundTrip for SaslMechanisms {
    open spec fn round_trips(v: SaslMechanismsView) -> bool {
        SaslMechanisms::comes_back(v)
    }

    proof fn law_round_trip(v: SaslMechanismsView, tail: Seq<u8>) {
        lemma_described_round_trip::<SaslMechanisms>(v, tail);
    }
}

/// The mechanism that a client picks, and its first response.
#[derive(Debug, PartialEq, Eq)]
pub struct SaslInit {
    pub mechanism: Symbol,
    pub initial_response: Option<Binary>,
    pub hostname: Option<ByteStr>,
}

/// The model of a `SaslInit`.
pub struct SaslInitView {
    pub mechanism: Seq<char>,
    pub initial_response: Option<Seq<u8>>,
    pub hostname: Option<Seq<char>>,
}

impl DeepView for SaslInit {
    type V = SaslInitView;

    open spec fn deep_view(&self) -> SaslInitView {
        SaslInitView {
            mechanism: self.mechanism.deep_view(),
            initial_response: self.initial_response.deep_view(),
            hostname: self.hostname.deep_view(),
        }
    }
}

impl Described for SaslInit {
    open spec fn spec_descriptor_name() -> Seq<char> {
        "amqp:sasl-init:list"@
    }

    open spec fn spec_descriptor_domain() -> u32 {
        0
    }

    open spec fn spec_descriptor_code() -> u32 {
        0x41
    }

    fn descriptor_name(&self) -> (name: &'static str) {
        "amqp:sasl-init:list"
    }

    fn descriptor_domain(&self) -> (domain: u32) {
        0
    }

    fn descriptor_code(&self) -> (code: u32) {
        0x41
    }
}

impl SaslInit {
    /// The fields of a `SaslInit`, from a list that holds `count` of them.
    #[verifier::opaque]
    pub open spec fn spec_decode_fields(input: Seq<u8>, count: nat) -> Decoded<SaslInitView> {
        match spec_decode_required_field::<Symbol>(input, count, "mechanism") {
            Ok((input, count, mechanism)) => match spec_decode_optional_field::<Binary>(
                input,
                count,
            ) {
                Ok((input, count, initial_response)) => match spec_decode_optional_field::<ByteStr>(
                    input,
                    count,
                ) {
                    Ok((input, _, hostname)) => Ok((input, SaslInitView { mechanism, initial_response, hostname })),
                    Err(e) => Err(e),
                },
                Err(e) => Err(e),
            },
            Err(e) => Err(e),
        }
    }

    /// The number of fields that the list holds: all up to the last one
    /// that is there.
    pub open spec fn spec_field_count(v: SaslInitView) -> nat {
        if v.hostname is Some {
            3
        } else if v.initial_response is Some {
            2
        } else {
            1
        }
    }

    /// The number of fields that the list of the value holds.
    pub fn field_count(&self) -> (count: u32)
        ensures
            count == Self::spec_field_count(self.deep_view()),
    {
        if self.hostname.is_some() {
            3
        } else if self.initial_response.is_some() {
            2
        } else {
            1
        }
    }

    /// The bytes of the fields in a list of `count` fields.
    pub open spec fn spec_encode_fields(v: SaslInitView, count: nat) -> Seq<u8> {
        spec_encode_field::<Symbol>(v.mechanism, count)
            + spec_encode_field::<Option<Binary>>(v.initial_response, fields_left(count, 1))
            + spec_encode_field::<Option<ByteStr>>(v.hostname, fields_left(count, 2))
    }

    /// The values that have an encoding: every field has one, and the
    /// fields fit the header of the list.
    pub open spec fn fits(v: SaslInitView) -> bool {
        &&& <Symbol as Encode>::encodable(v.mechanism)
        &&& <Option<Binary> as Encode>::encodable(v.initial_response)
        &&& <Option<ByteStr> as Encode>::encodable(v.hostname)
        &&& compound_fits(
            Self::spec_encode_fields(v, Self::spec_field_count(v)).len(),
            Self::spec_field_count(v),
        )
    }

    /// The values that decoding gives back as they went in.
    pub open spec fn comes_back(v: SaslInitView) -> bool {
        &&& Self::fits(v)
        &&& <Symbol as RoundTrip>::round_trips(v.mechanism)
        &&& <Option<Binary> as RoundTrip>::round_trips(v.initial_response)
        &&& <Option<ByteStr> as RoundTrip>::round_trips(v.hostname)
    }

    /// The fields come back from their bytes.
    pub proof fn lemma_fields_round_trip(v: SaslInitView, count: nat, tail: Seq<u8>)
        requires
            <Symbol as RoundTrip>::round_trips(v.mechanism),
            <Option<Binary> as RoundTrip>::round_trips(v.initial_response),
            <Option<ByteStr> as RoundTrip>::round_trips(v.hostname),
            count == Self::spec_field_count(v),
        ensures
            Self::spec_decode_fields(Self::spec_encode_fields(v, count) + tail, count) == Ok::<
                (Seq<u8>, SaslInitView),
                Error,
            >((tail, v)),
    {
        reveal(SaslInit::spec_decode_fields);
        let e0 = spec_encode_field::<Symbol>(v.mechanism, count);
        let e1 = spec_encode_field::<Option<Binary>>(v.initial_response, fields_left(count, 1));
        let e2 = spec_encode_field::<Option<ByteStr>>(v.hostname, fields_left(count, 2));
        let t2 = e2 + tail;
        let t1 = e1 + t2;
        assert(Self::spec_encode_fields(v, count) + tail =~= e0 + t1);
        lemma_required_field_round_trip::<Symbol>(v.mechanism, "mechanism", count, t1);
        lemma_optional_field_round_trip::<Binary>(v.initial_response, fields_left(count, 1), t2);
        lemma_optional_field_round_trip::<ByteStr>(v.hostname, fields_left(count, 2), tail);
    }
}

impl DescribedList for SaslInit {
    fn descriptor() -> (d: (u64, &'static str)) {
        (descriptor_code(0, 0x41), "amqp:sasl-init:list")
    }

    open spec fn spec_decode_list(input: Seq<u8>, fmt: u8) -> Decoded<SaslInitView> {
        match spec_decode_list_header(input, fmt) {
            Ok((rest, header)) => Self::spec_decode_fields(rest, header.count as nat),
            Err(e) => Err(e),
        }
    }

    proof fn list_leaves_suffix(input: Seq<u8>, fmt: u8) {
        reveal(SaslInit::spec_decode_fields);
        if let Ok((r0, header)) = spec_decode_list_header(input, fmt) {
            let c0 = header.count as nat;
            lemma_field_leaves_suffix::<Symbol>(r0, c0, arbitrary(), "mechanism");
            if let Ok((r1, c1, _)) = spec_decode_required_field::<Symbol>(r0, c0, "mechanism") {
                lemma_suffix_of_suffix(r1, r0, input);
                lemma_field_leaves_suffix::<Binary>(r1, c1, arbitrary(), "initial_response");
                if let Ok((r2, c2, _)) = spec_decode_optional_field::<Binary>(r1, c1) {
                    lemma_suffix_of_suffix(r2, r1, input);
                    lemma_field_leaves_suffix::<ByteStr>(r2, c2, arbitrary(), "hostname");
                    if let Ok((r3, c3, _)) = spec_decode_optional_field::<ByteStr>(r2, c2) {
                        lemma_suffix_of_suffix(r3, r2, input);
                    }
                }
            }
        }
    }

    fn decode_list<'a>(input: &'a [u8], fmt: u8) -> (r: Result<(&'a [u8], SaslInit), Error>) {
        proof {
            reveal(SaslInit::spec_decode_fields);
        }
        let (input, header) = decode_list_header(input, fmt)?;
        let count: u32 = header.count;
        let (input, count, mechanism) = decode_required_field::<Symbol>(input, count, "mechanism")?;
        let (input, count, initial_response) = decode_optional_field::<Binary>(input, count)?;
        let (input, _, hostname) = decode_optional_field::<ByteStr>(input, count)?;
        Ok((input, SaslInit { mechanism, initial_response, hostname }))
    }

    open spec fn list_encodable(v: SaslInitView) -> bool {
        SaslInit::fits(v)
    }

    open spec fn spec_encode_list(v: SaslInitView) -> Seq<u8> {
        spec_list_header(
            Self::spec_encode_fields(v, Self::spec_field_count(v)).len(),
            Self::spec_field_count(v),
        ) + Self::spec_encode_fields(v, Self::spec_field_count(v))
    }

    fn list_encoded_size(&self) -> (n: usize) {
        let count: u32 = self.field_count();
        let n0 = field_encoded_size::<Symbol>(&self.mechanism, count);
        let n1 = field_encoded_size::<Option<Binary>>(&self.initial_response, left_of(count, 1));
        let n2 = field_encoded_size::<Option<ByteStr>>(&self.hostname, left_of(count, 2));
        let content_len = n0 + n1 + n2;
        list_header_size(content_len, count) + content_len
    }

    fn list_size_within(&self, limit: usize) -> (size: Option<usize>) {
        let count: u32 = self.field_count();
        let ghost v = self.deep_view();
        let ghost e0 = spec_encode_field::<Symbol>(v.mechanism, count as nat);
        let ghost e1 = spec_encode_field::<Option<Binary>>(
            v.initial_response,
            fields_left(count as nat, 1),
        );
        let ghost e2 = spec_encode_field::<Option<ByteStr>>(
            v.hostname,
            fields_left(count as nat, 2),
        );
        assert(Self::spec_encode_fields(v, count as nat) == e0 + e1 + e2);
        assert((e0 + e1 + e2).len() == e0.len() + e1.len() + e2.len());
        let most: usize = if limit < 0xffff_fffb {
            limit
        } else {
            0xffff_fffb
        };
        let n0 = match field_size_within::<Symbol>(&self.mechanism, count, most) {
            Some(n) => n,
            None => {
                return None;
            },
        };
        assert(n0 == e0.len());
        let n1 = match field_size_within::<Option<Binary>>(
            &self.initial_response,
            left_of(count, 1),
            most - n0,
        ) {
            Some(n) => n,
            None => {
                return None;
            },
        };
        assert(n1 == e1.len());
        let n2 = match field_size_within::<Option<ByteStr>>(
            &self.hostname,
            left_of(count, 2),
            most - n0 - n1,
        ) {
            Some(n) => n,
            None => {
                return None;
            },
        };
        assert(n2 == e2.len());
        let content_len = n0 + n1 + n2;
        let header: usize = list_header_size(content_len, count);
        if limit - content_len < header {
            None
        } else {
            Some(content_len + header)
        }
    }

    fn encode_list(&self, buf: &mut BytesMut) {
        let count: u32 = self.field_count();
        let ghost v = self.deep_view();
        let ghost e0 = spec_encode_field::<Symbol>(v.mechanism, count as nat);
        let ghost e1 = spec_encode_field::<Option<Binary>>(
            v.initial_response,
            fields_left(count as nat, 1),
        );
        let ghost e2 = spec_encode_field::<Option<ByteStr>>(
            v.hostname,
            fields_left(count as nat, 2),
        );
        assert(Self::spec_encode_fields(v, count as nat) == e0 + e1 + e2);
        assert((e0 + e1 + e2).len() == e0.len() + e1.len() + e2.len());
        let n0 = field_encoded_size::<Symbol>(&self.mechanism, count);
        let n1 = field_encoded_size::<Option<Binary>>(&self.initial_response, left_of(count, 1));
        let n2 = field_encoded_size::<Option<ByteStr>>(&self.hostname, left_of(count, 2));
        let content_len = n0 + n1 + n2;
        put_list_header(buf, content_len, count);
        let ghost start = buf_bytes(*buf);
        let left = encode_field::<Symbol>(&self.mechanism, count, buf);
        assert(buf_bytes(*buf) == start + e0);
        let left = encode_field::<Option<Binary>>(&self.initial_response, left, buf);
        assert(buf_bytes(*buf) == start + e0 + e1);
        let _ = encode_field::<Option<ByteStr>>(&self.hostname, left, buf);
        assert(buf_bytes(*buf) == start + e0 + e1 + e2);
        assert(start + e0 + e1 + e2 =~= start + (e0 + e1 + e2));
        assert(buf_bytes(*buf) =~= buf_bytes(*old(buf)) + Self::spec_encode_list(
            self.deep_view(),
        ));
    }

    open spec fn list_round_trips(v: SaslInitView) -> bool {
        SaslInit::comes_back(v)
    }

    proof fn law_list_round_trip(v: SaslInitView, tail: Seq<u8>) {
        let count = Self::spec_field_count(v);
        let content = Self::spec_encode_fields(v, count);
        let header = spec_list_header(content.len(), count);
        assert(Self::spec_encode_list(v) + tail =~= header + (content + tail));
        lemma_list_header_round_trip(content.len(), count, content + tail);
        Self::lemma_fields_round_trip(v, count, tail);
    }
}

impl DecodeFormatted for SaslInit {
    open spec fn spec_decode_with_format(input: Seq<u8>, fmt: u8) -> Decoded<SaslInitView> {
        spec_decode_described::<SaslInit>(input, fmt)
    }

    proof fn decoding_leaves_suffix(input: Seq<u8>, fmt: u8) {
        lemma_described_leaves_suffix::<SaslInit>(input, fmt);
    }

    fn decode_with_format<'a>(input: &'a [u8], fmt: u8) -> (r: Result<(&'a [u8], Self), Error>) {
        decode_described::<SaslInit>(input, fmt)
    }
}

impl Encode for SaslInit {
    open spec fn encodable(v: SaslInitView) -> bool {
        SaslInit::fits(v)
    }

    open spec fn spec_encode(v: SaslInitView) -> Seq<u8> {
        spec_encode_described::<SaslInit>(v)
    }

    fn encoded_size(&self) -> (n: usize) {
        described_encoded_size::<SaslInit>(self)
    }

    fn size_within(&self, limit: usize) -> (size: Option<usize>) {
        described_size_within::<SaslInit>(self, limit)
    }

    fn encode(&self, buf: &mut BytesMut) {
        encode_described::<SaslInit>(self, buf)
    }
}

impl RoundTrip for SaslInit {
    open spec fn round_trips(v: SaslInitView) -> bool {
        SaslInit::comes_back(v)
    }

    proof fn law_round_trip(v: SaslInitView, tail: Seq<u8>) {
        lemma_described_round_trip::<SaslInit>(v, tail);
    }
}

/// What a server asks of the client in the course of a mechanism.
#[derive(Debug, PartialEq, Eq)]
pub struct SaslChallenge {
    pub challenge: Binary,
}

/// The model of a `SaslChallenge`.
pub struct SaslChallengeView {
    pub challenge: Seq<u8>,
}

impl DeepView for SaslChallenge {
    type V = SaslChallengeView;

    open spec fn deep_view(&self) -> SaslChallengeView {
        SaslChallengeView {
            challenge: self.challenge.deep_view(),
        }
    }
}

impl Described for SaslChallenge {
    open spec fn spec_descriptor_name() -> Seq<char> {
        "amqp:sasl-challenge:list"@
    }

    open spec fn spec_descriptor_domain() -> u32 {
        0
    }

    open spec fn spec_descriptor_code() -> u32 {
        0x42
    }

    fn descriptor_name(&self) -> (name: &'static str) {
        "amqp:sasl-challenge:list"
    }

    fn descriptor_domain(&self) -> (domain: u32) {
        0
    }

    fn descriptor_code(&self) -> (code: u32) {
        0x42
    }
}

impl SaslChallenge {
    /// The fields of a `SaslChallenge`, from a list that holds `count` of them.
    #[verifier::opaque]
    pub open spec fn spec_decode_fields(input: Seq<u8>, count: nat) -> Decoded<SaslChallengeView> {
        match spec_decode_required_field::<Binary>(input, count, "challenge") {
            Ok((input, _, challenge)) => Ok((input, SaslChallengeView { challenge })),
            Err(e) => Err(e),
        }
    }

    /// The number of fields that the list holds: all up to the last one
    /// that is there.
    pub open spec fn spec_field_count(v: SaslChallengeView) -> nat {
        1
    }

    /// The number of fields that the list of the value holds.
    pub fn field_count(&self) -> (count: u32)
        ensures
            count == Self::spec_field_count(self.deep_view()),
    {
        1
    }

    /// The bytes of the fields in a list of `count` fields.
    pub open spec fn spec_encode_fields(v: SaslChallengeView, count: nat) -> Seq<u8> {
        spec_encode_field::<Binary>(v.challenge, count)
    }

    /// The values that have an encoding: every field has one, and the
    /// fields fit the header of the list.
    pub open spec fn fits(v: SaslChallengeView) -> bool {
        &&& <Binary as Encode>::encodable(v.challenge)
        &&& compound_fits(
            Self::spec_encode_fields(v, Self::spec_field_count(v)).len(),
            Self::spec_field_count(v),
        )
    }

    /// The values that decoding gives back as they went in.
    pub open spec fn comes_back(v: SaslChallengeView) -> bool {
        &&& Self::fits(v)
        &&& <Binary as RoundTrip>::round_trips(v.challenge)
    }

    /// The fields come back from their bytes.
    pub proof fn lemma_fields_round_trip(v: SaslChallengeView, count: nat, tail: Seq<u8>)
        requires
            <Binary as RoundTrip>::round_trips(v.challenge),
            count == Self::spec_field_count(v),
        ensures
            Self::spec_decode_fields(Self::spec_encode_fields(v, count) + tail, count) == Ok::<
                (Seq<u8>, SaslChallengeView),
                Error,
            >((tail, v)),
    {
        reveal(SaslChallenge::spec_decode_fields);
        let e0 = spec_encode_field::<Binary>(v.challenge, count);
        assert(Self::spec_encode_fields(v, count) + tail =~= e0 + tail);
        lemma_required_field_round_trip::<Binary>(v.challenge, "challenge", count, tail);
    }
}

impl DescribedList for SaslChallenge {
    fn descriptor() -> (d: (u64, &'static str)) {
        (descriptor_code(0, 0x42), "amqp:sasl-challenge:list")
    }

    open spec fn spec_decode_list(input: Seq<u8>, fmt: u8) -> Decoded<SaslChallengeView> {
        match spec_decode_list_header(input, fmt) {
            Ok((rest, header)) => Self::spec_decode_fields(rest, header.count as nat),
            Err(e) => Err(e),
        }
    }

    proof fn list_leaves_suffix(input: Seq<u8>, fmt: u8) {
        reveal(SaslChallenge::spec_decode_fields);
        if let Ok((r0, header)) = spec_decode_list_header(input, fmt) {
            let c0 = header.count as nat;
            lemma_field_leaves_suffix::<Binary>(r0, c0, arbitrary(), "challenge");
            if let Ok((r1, c1, _)) = spec_decode_required_field::<Binary>(r0, c0, "challenge") {
                lemma_suffix_of_suffix(r1, r0, input);
            }
        }
    }

    fn decode_list<'a>(input: &'a [u8], fmt: u8) -> (r: Result<(&'a [u8], SaslChallenge), Error>) {
        proof {
            reveal(SaslChallenge::spec_decode_fields);
        }
        let (input, header) = decode_list_header(input, fmt)?;
        let count: u32 = header.count;
        let (input, _, challenge) = decode_required_field::<Binary>(input, count, "challenge")?;
        Ok((input, SaslChallenge { challenge }))
    }

    open spec fn list_encodable(v: SaslChallengeView) -> bool {
        SaslChallenge::fits(v)
    }

    open spec fn spec_encode_list(v: SaslChallengeView) -> Seq<u8> {
        spec_list_header(
            Self::spec_encode_fields(v, Self::spec_field_count(v)).len(),
            Self::spec_field_count(v),
        ) + Self::spec_encode_fields(v, Self::spec_field_count(v))
    }

    fn list_encoded_size(&self) -> (n: usize) {
        let count: u32 = self.field_count();
        let n0 = field_encoded_size::<Binary>(&self.challenge, count);
        let content_len = n0;
        list_header_size(content_len, count) + content_len
    }

    fn list_size_within(&self, limit: usize) -> (size: Option<usize>) {
        let count: u32 = self.field_count();
        let ghost v = self.deep_view();
        let ghost e0 = spec_encode_field::<Binary>(v.challenge, count as nat);
        assert(Self::spec_encode_fields(v, count as nat) == e0);
        let most: usize = if limit < 0xffff_fffb {
            limit
        } else {
            0xffff_fffb
        };
        let n0 = match field_size_within::<Binary>(&self.challenge, count, most) {
            Some(n) => n,
            None => {
                return None;
            },
        };
        assert(n0 == e0.len());
        let content_len = n0;
        let header: usize = list_header_size(content_len, count);
        if limit - content_len < header {
            None
        } else {
            Some(content_len + header)
        }
    }

    fn encode_list(&self, buf: &mut BytesMut) {
        let count: u32 = self.field_count();
        let ghost v = self.deep_view();
        let ghost e0 = spec_encode_field::<Binary>(v.challenge, count as nat);
        assert(Self::spec_encode_fields(v, count as nat) == e0);
        let n0 = field_encoded_size::<Binary>(&self.challenge, count);
        let content_len = n0;
        put_list_header(buf, content_len, count);
        let ghost start = buf_bytes(*buf);
        let _ = encode_field::<Binary>(&self.challenge, count, buf);
        assert(buf_bytes(*buf) == start + e0);
        assert(buf_bytes(*buf) =~= buf_bytes(*old(buf)) + Self::spec_encode_list(
            self.deep_view(),
        ));
    }

    open spec fn list_round_trips(v: SaslChallengeView) -> bool {
        SaslChallenge::comes_back(v)
    }

    proof fn law_list_round_trip(v: SaslChallengeView, tail: Seq<u8>) {
        let count = Self::spec_field_count(v);
        let content = Self::spec_encode_fields(v, count);
        let header = spec_list_header(content.len(), count);
        assert(Self::spec_encode_list(v) + tail =~= header + (content + tail));
        lemma_list_header_round_trip(content.len(), count, content + tail);
        Self::lemma_fields_round_trip(v, count, tail);
    }
}

impl DecodeFormatted for SaslChallenge {
    open spec fn spec_decode_with_format(input: Seq<u8>, fmt: u8) -> Decoded<SaslChallengeView> {
        spec_decode_described::<SaslChallenge>(input, fmt)
    }

    proof fn decoding_leaves_suffix(input: Seq<u8>, fmt: u8) {
        lemma_described_leaves_suffix::<SaslChallenge>(input, fmt);
    }

    fn decode_with_format<'a>(input: &'a [u8], fmt: u8) -> (r: Result<(&'a [u8], Self), Error>) {
        decode_described::<SaslChallenge>(input, fmt)
    }
}

impl Encode for SaslChallenge {
    open spec fn encodable(v: SaslChallengeView) -> bool {
        SaslChallenge::fits(v)
    }

    open spec fn spec_encode(v: SaslChallengeView) -> Seq<u8> {
        spec_encode_described::<SaslChallenge>(v)
    }

    fn encoded_size(&self) -> (n: usize) {
        described_encoded_size::<SaslChallenge>(self)
    }

    fn size_within(&self, limit: usize) -> (size: Option<usize>) {
        described_size_within::<SaslChallenge>(self, limit)
    }

    fn encode(&self, buf: &mut BytesMut) {
        encode_described::<SaslChallenge>(self, buf)
    }
}

impl RoundTrip for SaslChallenge {
    open spec fn round_trips(v: SaslChallengeView) -> bool {
        SaslChallenge::comes_back(v)
    }

    proof fn law_round_trip(v: SaslChallengeView, tail: Seq<u8>) {
        lemma_described_round_trip::<SaslChallenge>(v, tail);
    }
}

/// What a client answers to a challenge.
#[derive(Debug, PartialEq, Eq)]
pub struct SaslResponse {
    pub response: Binary,
}

/// The model of a `SaslResponse`.
pub struct SaslResponseView {
    pub response: Seq<u8>,
}

impl DeepView for SaslResponse {
    type V = SaslResponseView;

    open spec fn deep_view(&self) -> SaslResponseView {
        SaslResponseView {
            response: self.response.deep_view(),
        }
    }
}

impl Described for SaslResponse {
    open spec fn spec_descriptor_name() -> Seq<char> {
        "amqp:sasl-response:list"@
    }

    open spec fn spec_descriptor_domain() -> u32 {
        0
    }

    open spec fn spec_descriptor_code() -> u32 {
        0x43
    }

    fn descriptor_name(&self) -> (name: &'static str) {
        "amqp:sasl-response:list"
    }

    fn descriptor_domain(&self) -> (domain: u32) {
        0
    }

    fn descriptor_code(&self) -> (code: u32) {
        0x43
    }
}

impl SaslResponse {
    /// The fields of a `SaslResponse`, from a list that holds `count` of them.
    #[verifier::opaque]
    pub open spec fn spec_decode_fields(input: Seq<u8>, count: nat) -> Decoded<SaslResponseView> {
        match spec_decode_required_field::<Binary>(input, count, "response") {
            Ok((input, _, response)) => Ok((input, SaslResponseView { response })),
            Err(e) => Err(e),
        }
    }

    /// The number of fields that the list holds: all up to the last one
    /// that is there.
    pub open spec fn spec_field_count(v: SaslResponseView) -> nat {
        1
    }

    /// The number of fields that the list of the value holds.
    pub fn field_count(&self) -> (count: u32)
        ensures
            count == Self::spec_field_count(self.deep_view()),
    {
        1
    }

    /// The bytes of the fields in a list of `count` fields.
    pub open spec fn spec_encode_fields(v: SaslResponseView, count: nat) -> Seq<u8> {
        spec_encode_field::<Binary>(v.response, count)
    }

    /// The values that have an encoding: every field has one, and the
    /// fields fit the header of the list.
    pub open spec fn fits(v: SaslResponseView) -> bool {
        &&& <Binary as Encode>::encodable(v.response)
        &&& compound_fits(
            Self::spec_encode_fields(v, Self::spec_field_count(v)).len(),
            Self::spec_field_count(v),
        )
    }

    /// The values that decoding gives back as they went in.
    pub open spec fn comes_back(v: SaslResponseView) -> bool {
        &&& Self::fits(v)
        &&& <Binary as RoundTrip>::round_trips(v.response)
    }

    /// The fields come back from their bytes.
    pub proof fn lemma_fields_round_trip(v: SaslResponseView, count: nat, tail: Seq<u8>)
        requires
            <Binary as RoundTrip>::round_trips(v.response),
            count == Self::spec_field_count(v),
        ensures
            Self::spec_decode_fields(Self::spec_encode_fields(v, count) + tail, count) == Ok::<
                (Seq<u8>, SaslResponseView),
                Error,
            >((tail, v)),
    {
        reveal(SaslResponse::spec_decode_fields);
        let e0 = spec_encode_field::<Binary>(v.response, count);
        assert(Self::spec_encode_fields(v, count) + tail =~= e0 + tail);
        lemma_required_field_round_trip::<Binary>(v.response, "response", count, tail);
    }
}

impl DescribedList for SaslResponse {
    fn descriptor() -> (d: (u64, &'static str)) {
        (descriptor_code(0, 0x43), "amqp:sasl-response:list")
    }

    open spec fn spec_decode_list(input: Seq<u8>, fmt: u8) -> Decoded<SaslResponseView> {
        match spec_decode_list_header(input, fmt) {
            Ok((rest, header)) => Self::spec_decode_fields(rest, header.count as nat),
            Err(e) => Err(e),
        }
    }

    proof fn list_leaves_suffix(input: Seq<u8>, fmt: u8) {
        reveal(SaslResponse::spec_decode_fields);
        if let Ok((r0, header)) = spec_decode_list_header(input, fmt) {
            let c0 = header.count as nat;
            lemma_field_leaves_suffix::<Binary>(r0, c0, arbitrary(), "response");
            if let Ok((r1, c1, _)) = spec_decode_required_field::<Binary>(r0, c0, "response") {
                lemma_suffix_of_suffix(r1, r0, input);
            }
        }
    }

    fn decode_list<'a>(input: &'a [u8], fmt: u8) -> (r: Result<(&'a [u8], SaslResponse), Error>) {
        proof {
            reveal(SaslResponse::spec_decode_fields);
        }
        let (input, header) = decode_list_header(input, fmt)?;
        let count: u32 = header.count;
        let (input, _, response) = decode_required_field::<Binary>(input, count, "response")?;
        Ok((input, SaslResponse { response }))
    }

    open spec fn list_encodable(v: SaslResponseView) -> bool {
        SaslResponse::fits(v)
    }

    open spec fn spec_encode_list(v: SaslResponseView) -> Seq<u8> {
        spec_list_header(
            Self::spec_encode_fields(v, Self::spec_field_count(v)).len(),
            Self::spec_field_count(v),
        ) + Self::spec_encode_fields(v, Self::spec_field_count(v))
    }

    fn list_encoded_size(&self) -> (n: usize) {
        let count: u32 = self.field_count();
        let n0 = field_encoded_size::<Binary>(&self.response, count);
        let content_len = n0;
        list_header_size(content_len, count) + content_len
    }

    fn list_size_within(&self, limit: usize) -> (size: Option<usize>) {
        let count: u32 = self.field_count();
        let ghost v = self.deep_view();
        let ghost e0 = spec_encode_field::<Binary>(v.response, count as nat);
        assert(Self::spec_encode_fields(v, count as nat) == e0);
        let most: usize = if limit < 0xffff_fffb {
            limit
        } else {
            0xffff_fffb
        };
        let n0 = match field_size_within::<Binary>(&self.response, count, most) {
            Some(n) => n,
            None => {
                return None;
            },
        };
        assert(n0 == e0.len());
        let content_len = n0;
        let header: usize = list_header_size(content_len, count);
        if limit - content_len < header {
            None
        } else {
            Some(content_len + header)
        }
    }

    fn encode_list(&self, buf: &mut BytesMut) {
        let count: u32 = self.field_count();
        let ghost v = self.deep_view();
        let ghost e0 = spec_encode_field::<Binary>(v.response, count as nat);
        assert(Self::spec_encode_fields(v, count as nat) == e0);
        let n0 = field_encoded_size::<Binary>(&self.response, count);
        let content_len = n0;
        put_list_header(buf, content_len, count);
        let ghost start = buf_bytes(*buf);
        let _ = encode_field::<Binary>(&self.response, count, buf);
        assert(buf_bytes(*buf) == start + e0);
        assert(buf_bytes(*buf) =~= buf_bytes(*old(buf)) + Self::spec_encode_list(
            self.deep_view(),
        ));
    }

    open spec fn list_round_trips(v: SaslResponseView) -> bool {
        SaslResponse::comes_back(v)
    }

    proof fn law_list_round_trip(v: SaslResponseView, tail: Seq<u8>) {
        let count = Self::spec_field_count(v);
        let content = Self::spec_encode_fields(v, count);
        let header = spec_list_header(content.len(), count);
        assert(Self::spec_encode_list(v) + tail =~= header + (content + tail));
        lemma_list_header_round_trip(content.len(), count, content + tail);
        Self::lemma_fields_round_trip(v, count, tail);
    }
}

impl DecodeFormatted for SaslResponse {
    open spec fn spec_decode_with_format(input: Seq<u8>, fmt: u8) -> Decoded<SaslResponseView> {
        spec_decode_described::<SaslResponse>(input, fmt)
    }

    proof fn decoding_leaves_suffix(input: Seq<u8>, fmt: u8) {
        lemma_described_leaves_suffix::<SaslResponse>(input, fmt);
    }

    fn decode_with_format<'a>(input: &'a [u8], fmt: u8) -> (r: Result<(&'a [u8], Self), Error>) {
        decode_described::<SaslResponse>(input, fmt)
    }
}

impl Encode for SaslResponse {
    open spec fn encodable(v: SaslResponseView) -> bool {
        SaslResponse::fits(v)
    }

    open spec fn spec_encode(v: SaslResponseView) -> Seq<u8> {
        spec_encode_described::<SaslResponse>(v)
    }

    fn encoded_size(&self) -> (n: usize) {
        described_encoded_size::<SaslResponse>(self)
    }

    fn size_within(&self, limit: usize) -> (size: Option<usize>) {
        described_size_within::<SaslResponse>(self, limit)
    }

    fn encode(&self, buf: &mut BytesMut) {
        encode_described::<SaslResponse>(self, buf)
    }
}

impl RoundTrip for SaslResponse {
    open spec fn round_trips(v: SaslResponseView) -> bool {
        SaslResponse::comes_back(v)
    }

    proof fn law_round_trip(v: SaslResponseView, tail: Seq<u8>) {
        lemma_described_round_trip::<SaslResponse>(v, tail);
    }
}

/// How the authentication ended.
#[derive(Debug, PartialEq, Eq)]
pub struct SaslOutcome {
    pub code: SaslCode,
    pub additional_data: Option<Binary>,
}

/// The model of a `SaslOutcome`.
pub struct SaslOutcomeView {
    pub code: SaslCode,
    pub additional_data: Option<Seq<u8>>,
}

impl DeepView for SaslOutcome {
    type V = SaslOutcomeView;

    open spec fn deep_view(&self) -> SaslOutcomeView {
        SaslOutcomeView {
            code: self.code.deep_view(),
            additional_data: self.additional_data.deep_view(),
        }
    }
}

impl Described for SaslOutcome {
    open spec fn spec_descriptor_name() -> Seq<char> {
        "amqp:sasl-outcome:list"@
    }

    open spec fn spec_descriptor_domain() -> u32 {
        0
    }

    open spec fn spec_descriptor_code() -> u32 {
        0x44
    }

    fn descriptor_name(&self) -> (name: &'static str) {
        "amqp:sasl-outcome:list"
    }

    fn descriptor_domain(&self) -> (domain: u32) {
        0
    }

    fn descriptor_code(&self) -> (code: u32) {
        0x44
    }
}

impl SaslOutcome {
    /// The fields of a `SaslOutcome`, from a list that holds `count` of them.
    #[verifier::opaque]
    pub open spec fn spec_decode_fields(input: Seq<u8>, count: nat) -> Decoded<SaslOutcomeView> {
        match spec_decode_required_field::<SaslCode>(input, count, "code") {
            Ok((input, count, code)) => match spec_decode_optional_field::<Binary>(input, count) {
                Ok((input, _, additional_data)) => Ok((input, SaslOutcomeView { code, additional_data })),
                Err(e) => Err(e),
            },
            Err(e) => Err(e),
        }
    }

    /// The number of fields that the list holds: all up to the last one
    /// that is there.
    pub open spec fn spec_field_count(v: SaslOutcomeView) -> nat {
        if v.additional_data is Some {
            2
        } else {
            1
        }
    }

    /// The number of fields that the list of the value holds.
    pub fn field_count(&self) -> (count: u32)
        ensures
            count == Self::spec_field_count(self.deep_view()),
    {
        if self.additional_data.is_some() {
            2
        } else {
            1
        }
    }

    /// The bytes of the fields in a list of `count` fields.
    pub open spec fn spec_encode_fields(v: SaslOutcomeView, count: nat) -> Seq<u8> {
        spec_encode_field::<SaslCode>(v.code, count)
            + spec_encode_field::<Option<Binary>>(v.additional_data, fields_left(count, 1))
    }

    /// The values that have an encoding: every field has one, and the
    /// fields fit the header of the list.
    pub open spec fn fits(v: SaslOutcomeView) -> bool {
        &&& <SaslCode as Encode>::encodable(v.code)
        &&& <Option<Binary> as Encode>::encodable(v.additional_data)
        &&& compound_fits(
            Self::spec_encode_fields(v, Self::spec_field_count(v)).len(),
            Self::spec_field_count(v),
        )
    }

    /// The values that decoding gives back as they went in.
    pub open spec fn comes_back(v: SaslOutcomeView) -> bool {
        &&& Self::fits(v)
        &&& <SaslCode as RoundTrip>::round_trips(v.code)
        &&& <Option<Binary> as RoundTrip>::round_trips(v.additional_data)
    }

    /// The fields come back from their bytes.
    pub proof fn lemma_fields_round_trip(v: SaslOutcomeView, count: nat, tail: Seq<u8>)
        requires
            <SaslCode as RoundTrip>::round_trips(v.code),
            <Option<Binary> as RoundTrip>::round_trips(v.additional_data),
            count == Self::spec_field_count(v),
        ensures
            Self::spec_decode_fields(Self::spec_encode_fields(v, count) + tail, count) == Ok::<
                (Seq<u8>, SaslOutcomeView),
                Error,
            >((tail, v)),
    {
        reveal(SaslOutcome::spec_decode_fields);
        let e0 = spec_encode_field::<SaslCode>(v.code, count);
        let e1 = spec_encode_field::<Option<Binary>>(v.additional_data, fields_left(count, 1));
        let t1 = e1 + tail;
        assert(Self::spec_encode_fields(v, count) + tail =~= e0 + t1);
        lemma_required_field_round_trip::<SaslCode>(v.code, "code", count, t1);
        lemma_optional_field_round_trip::<Binary>(v.additional_data, fields_left(count, 1), tail);
    }
}

impl DescribedList for SaslOutcome {
    fn descriptor() -> (d: (u64, &'static str)) {
        (descriptor_code(0, 0x44), "amqp:sasl-outcome:list")
    }

    open spec fn spec_decode_list(input: Seq<u8>, fmt: u8) -> Decoded<SaslOutcomeView> {
        match spec_decode_list_header(input, fmt) {
            Ok((rest, header)) => Self::spec_decode_fields(rest, header.count as nat),
            Err(e) => Err(e),
        }
    }

    proof fn list_leaves_suffix(input: Seq<u8>, fmt: u8) {
        reveal(SaslOutcome::spec_decode_fields);
        if let Ok((r0, header)) = spec_decode_list_header(input, fmt) {
            let c0 = header.count as nat;
            lemma_field_leaves_suffix::<SaslCode>(r0, c0, arbitrary(), "code");
            if let Ok((r1, c1, _)) = spec_decode_required_field::<SaslCode>(r0, c0, "code") {
                lemma_suffix_of_suffix(r1, r0, input);
                lemma_field_leaves_suffix::<Binary>(r1, c1, arbitrary(), "additional_data");
                if let Ok((r2, c2, _)) = spec_decode_optional_field::<Binary>(r1, c1) {
                    lemma_suffix_of_suffix(r2, r1, input);
                }
            }
        }
    }

    fn decode_list<'a>(input: &'a [u8], fmt: u8) -> (r: Result<(&'a [u8], SaslOutcome), Error>) {
        proof {
            reveal(SaslOutcome::spec_decode_fields);
        }
        let (input, header) = decode_list_header(input, fmt)?;
        let count: u32 = header.count;
        let (input, count, code) = decode_required_field::<SaslCode>(input, count, "code")?;
        let (input, _, additional_data) = decode_optional_field::<Binary>(input, count)?;
        Ok((input, SaslOutcome { code, additional_data }))
    }

    open spec fn list_encodable(v: SaslOutcomeView) -> bool {
        SaslOutcome::fits(v)
    }

    open spec fn spec_encode_list(v: SaslOutcomeView) -> Seq<u8> {
        spec_list_header(
            Self::spec_encode_fields(v, Self::spec_field_count(v)).len(),
            Self::spec_field_count(v),
        ) + Self::spec_encode_fields(v, Self::spec_field_count(v))
    }

    fn list_encoded_size(&self) -> (n: usize) {
        let count: u32 = self.field_count();
        let n0 = field_encoded_size::<SaslCode>(&self.code, count);
        let n1 = field_encoded_size::<Option<Binary>>(&self.additional_data, left_of(count, 1));
        let content_len = n0 + n1;
        list_header_size(content_len, count) + content_len
    }

    fn list_size_within(&self, limit: usize) -> (size: Option<usize>) {
        let count: u32 = self.field_count();
        let ghost v = self.deep_view();
        let ghost e0 = spec_encode_field::<SaslCode>(v.code, count as nat);
        let ghost e1 = spec_encode_field::<Option<Binary>>(
            v.additional_data,
            fields_left(count as nat, 1),
        );
        assert(Self::spec_encode_fields(v, count as nat) == e0 + e1);
        assert((e0 + e1).len() == e0.len() + e1.len());
        let most: usize = if limit < 0xffff_fffb {
            limit
        } else {
            0xffff_fffb
        };
        let n0 = match field_size_within::<SaslCode>(&self.code, count, most) {
            Some(n) => n,
            None => {
                return None;
            },
        };
        assert(n0 == e0.len());
        let n1 = match field_size_within::<Option<Binary>>(
            &self.additional_data,
            left_of(count, 1),
            most - n0,
        ) {
            Some(n) => n,
            None => {
                return None;
            },
        };
        assert(n1 == e1.len());
        let content_len = n0 + n1;
        let header: usize = list_header_size(content_len, count);
        if limit - content_len < header {
            None
        } else {
            Some(content_len + header)
        }
    }

    fn encode_list(&self, buf: &mut BytesMut) {
        let count: u32 = self.field_count();
        let ghost v = self.deep_view();
        let ghost e0 = spec_encode_field::<SaslCode>(v.code, count as nat);
        let ghost e1 = spec_encode_field::<Option<Binary>>(
            v.additional_data,
            fields_left(count as nat, 1),
        );
        assert(Self::spec_encode_fields(v, count as nat) == e0 + e1);
        assert((e0 + e1).len() == e0.len() + e1.len());
        let n0 = field_encoded_size::<SaslCode>(&self.code, count);
        let n1 = field_encoded_size::<Option<Binary>>(&self.additional_data, left_of(count, 1));
        let content_len = n0 + n1;
        put_list_header(buf, content_len, count);
        let ghost start = buf_bytes(*buf);
        let left = encode_field::<SaslCode>(&self.code, count, buf);
        assert(buf_bytes(*buf) == start + e0);
        let _ = encode_field::<Option<Binary>>(&self.additional_data, left, buf);
        assert(buf_bytes(*buf) == start + e0 + e1);
        assert(start + e0 + e1 =~= start + (e0 + e1));
        assert(buf_bytes(*buf) =~= buf_bytes(*old(buf)) + Self::spec_encode_list(
            self.deep_view(),
        ));
    }

    open spec fn list_round_trips(v: SaslOutcomeView) -> bool {
        SaslOutcome::comes_back(v)
    }

    proof fn law_list_round_trip(v: SaslOutcomeView, tail: Seq<u8>) {
        let count = Self::spec_field_count(v);
        let content = Self::spec_encode_fields(v, count);
        let header = spec_list_header(content.len(), count);
        assert(Self::spec_encode_list(v) + tail =~= header + (content + tail));
        lemma_list_header_round_trip(content.len(), count, content + tail);
        Self::lemma_fields_round_trip(v, count, tail);
    }
}

impl DecodeFormatted for SaslOutcome {
    open spec fn spec_decode_with_format(input: Seq<u8>, fmt: u8) -> Decoded<SaslOutcomeView> {
        spec_decode_described::<SaslOutcome>(input, fmt)
    }

    proof fn decoding_leaves_suffix(input: Seq<u8>, fmt: u8) {
        lemma_described_leaves_suffix::<SaslOutcome>(input, fmt);
    }

    fn decode_with_format<'a>(input: &'a [u8], fmt: u8) -> (r: Result<(&'a [u8], Self), Error>) {
        decode_described::<SaslOutcome>(input, fmt)
    }
}

impl Encode for SaslOutcome {
    open spec fn encodable(v: SaslOutcomeView) -> bool {
        SaslOutcome::fits(v)
    }

    open spec fn spec_encode(v: SaslOutcomeView) -> Seq<u8> {
        spec_encode_described::<SaslOutcome>(v)
    }

    fn encoded_size(&self) -> (n: usize) {
        described_encoded_size::<SaslOutcome>(self)
    }

    fn size_within(&self, limit: usize) -> (size: Option<usize>) {
        described_size_within::<SaslOutcome>(self, limit)
    }

    fn encode(&self, buf: &mut BytesMut) {
        encode_described::<SaslOutcome>(self, buf)
    }
}

impl RoundTrip for SaslOutcome {
    open spec fn round_trips(v: SaslOutcomeView) -> bool {
        SaslOutcome::comes_back(v)
    }

    proof fn law_round_trip(v: SaslOutcomeView, tail: Seq<u8>) {
        lemma_described_round_trip::<SaslOutcome>(v, tail);
    }
}

} // verus!
