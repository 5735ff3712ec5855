//! The performative that opens a connection.

use vstd::prelude::*;
use bytes::BytesMut;
use crate::buffer::{buf_bytes, BUF_MAX};
use crate::errors::Error;
use crate::codec::decode::{decode_list_header, lemma_suffix_of_suffix, spec_decode_list_header};
use crate::codec::described::lemma_field_leaves_suffix;
use crate::codec::is_suffix;
use crate::codec::described::{
    decode_default_field, decode_described, decode_optional_field, decode_required_field,
    described_encoded_size, described_size_within, descriptor_code, encode_described,
    encode_field, field_encoded_size, field_size_within,
    lemma_described_leaves_suffix, lemma_described_round_trip, spec_decode_default_field,
    spec_decode_described, spec_decode_optional_field, spec_decode_required_field,
    spec_encode_described, spec_encode_field, fields_left, DescribedList,
};
use crate::codec::encode::{compound_fits, list_header_size, put_list_header, spec_list_header};
use crate::codec::{decoded_as, spec_decode_format_code, DecodeFormatted, Decoded, Encode};
use crate::codec::array::lemma_array_round_trip;
use crate::codec::described::{
    lemma_default_field_round_trip, lemma_optional_field_round_trip,
    lemma_required_field_round_trip,
};
use crate::codec::laws::{lemma_list_header_round_trip, lemma_variable_round_trip};
use crate::codec::variant::{lemma_map_round_trip, map_round_trips};
use crate::codec::{
    RoundTrip, FORMATCODE_STRING32, FORMATCODE_STRING8, FORMATCODE_SYMBOL32, FORMATCODE_SYMBOL8,
};
use crate::protocol::Described;
use vstd::utf8::encode_utf8;
use crate::types::{ByteStr, Multiple, Symbol, VariantMap, VariantView};

verus! {

/// The largest frame that a peer accepts, where it does not say.
pub const DEFAULT_MAX_FRAME_SIZE: u32 = 4294967295;

/// The highest channel number that a peer accepts, where it does not say.
pub const DEFAULT_CHANNEL_MAX: u16 = 65535;

/// The number of fields of `Open`.
pub const OPEN_FIELDS: u32 = 10;

/// The first frame of a connection: who the sender is and what it can
/// take.
#[derive(Debug, PartialEq, Eq)]
pub struct Open {
    pub container_id: ByteStr,
    pub hostname: Option<ByteStr>,
    pub max_frame_size: u32,
    pub channel_max: u16,
    pub idle_time_out: Option<u32>,
    pub outgoing_locales: Option<Multiple<Symbol>>,
    pub incoming_locales: Option<Multiple<Symbol>>,
    pub offered_capabilities: Option<Multiple<Symbol>>,
    pub desired_capabilities: Option<Multiple<Symbol>>,
    pub properties: Option<VariantMap>,
}

/// The model of an `Open`.
pub struct OpenView {
    pub container_id: Seq<char>,
    pub hostname: Option<Seq<char>>,
    pub max_frame_size: u32,
    pub channel_max: u16,
    pub idle_time_out: Option<u32>,
    pub outgoing_locales: Option<Seq<Seq<char>>>,
    pub incoming_locales: Option<Seq<Seq<char>>>,
    pub offered_capabilities: Option<Seq<Seq<char>>>,
    pub desired_capabilities: Option<Seq<Seq<char>>>,
    pub properties: Option<Seq<(VariantView, VariantView)>>,
}

impl DeepView for Open {
    type V = OpenView;

    open spec fn deep_view(&self) -> OpenView {
        OpenView {
            container_id: self.container_id.deep_view(),
            hostname: self.hostname.deep_view(),
            max_frame_size: self.max_frame_size,
            channel_max: self.channel_max,
            idle_time_out: self.idle_time_out,
            outgoing_locales: self.outgoing_locales.deep_view(),
            incoming_locales: self.incoming_locales.deep_view(),
            offered_capabilities: self.offered_capabilities.deep_view(),
            desired_capabilities: self.desired_capabilities.deep_view(),
            properties: self.properties.deep_view(),
        }
    }
}

impl Described for Open {
    open spec fn spec_descriptor_name() -> Seq<char> {
        "amqp:open:list"@
    }

    open spec fn spec_descriptor_domain() -> u32 {
        0
    }

    open spec fn spec_descriptor_code() -> u32 {
        0x10
    }

    fn descriptor_name(&self) -> (name: &'static str) {
        "amqp:open:list"
    }

    fn descriptor_domain(&self) -> (domain: u32) {
        0
    }

    fn descriptor_code(&self) -> (code: u32) {
        0x10
    }
}

impl Open {
    /// An `Open` that says who the sender is and leaves everything else at
    /// its default.
    pub fn new(container_id: ByteStr) -> (open: Open)
        ensures
            open.deep_view() == (OpenView {
                container_id: container_id.deep_view(),
                hostname: None,
                max_frame_size: DEFAULT_MAX_FRAME_SIZE,
                channel_max: DEFAULT_CHANNEL_MAX,
                idle_time_out: None,
                outgoing_locales: None,
                incoming_locales: None,
                offered_capabilities: None,
                desired_capabilities: None,
                properties: None,
            }),
    {
        Open {
            container_id,
            hostname: None,
            max_frame_size: DEFAULT_MAX_FRAME_SIZE,
            channel_max: DEFAULT_CHANNEL_MAX,
            idle_time_out: None,
            outgoing_locales: None,
            incoming_locales: None,
            offered_capabilities: None,
            desired_capabilities: None,
            properties: None,
        }
    }

    /// The fields of an `Open`, from a list that holds `count` of them.
    /// Fields that the list does not hold any more are absent or at their
    /// default; the first field has neither and must be there.
    #[verifier::opaque]
    pub open spec fn spec_decode_fields(input: Seq<u8>, count: nat) -> Decoded<OpenView> {
        match spec_decode_required_field::<ByteStr>(input, count, "container_id") {
            Ok((input, count, container_id)) => match spec_decode_optional_field::<ByteStr>(
                input,
                count,
            ) {
                Ok((input, count, hostname)) => match spec_decode_default_field::<u32>(
                    input,
                    count,
                    DEFAULT_MAX_FRAME_SIZE,
                ) {
                    Ok((input, count, max_frame_size)) => match spec_decode_default_field::<u16>(
                        input,
                        count,
                        DEFAULT_CHANNEL_MAX,
                    ) {
                        Ok((input, count, channel_max)) => match spec_decode_optional_field::<u32>(
                            input,
                            count,
                        ) {
                            Ok((input, count, idle_time_out)) => Self::spec_decode_last_fields(
                                input,
                                count,
                                container_id,
                                hostname,
                                max_frame_size,
                                channel_max,
                                idle_time_out,
                            ),
                            Err(e) => Err(e),
                        },
                        Err(e) => Err(e),
                    },
                    Err(e) => Err(e),
                },
                Err(e) => Err(e),
            },
            Err(e) => Err(e),
        }
    }

    /// The last five fields of an `Open`, behind the first five.
    #[verifier::opaque]
    pub open spec fn spec_decode_last_fields(
        input: Seq<u8>,
        count: nat,
        container_id: Seq<char>,
        hostname: Option<Seq<char>>,
        max_frame_size: u32,
        channel_max: u16,
        idle_time_out: Option<u32>,
    ) -> Decoded<OpenView> {
        match spec_decode_optional_field::<Multiple<Symbol>>(input, count) {
            Ok((input, count, outgoing_locales)) => match spec_decode_optional_field::<
                Multiple<Symbol>,
            >(input, count) {
                Ok((input, count, incoming_locales)) => match spec_decode_optional_field::<
                    Multiple<Symbol>,
                >(input, count) {
                    Ok((input, count, offered_capabilities)) => match spec_decode_optional_field::<
                        Multiple<Symbol>,
                    >(input, count) {
                        Ok((input, count, desired_capabilities)) => match spec_decode_optional_field::<
                            VariantMap,
                        >(input, count) {
                            Ok((input, _, properties)) => Ok(
                                (
                                    input,
                                    OpenView {
                                        container_id,
                                        hostname,
                                        max_frame_size,
                                        channel_max,
                                        idle_time_out,
                                        outgoing_locales,
                                        incoming_locales,
                                        offered_capabilities,
                                        desired_capabilities,
                                        properties,
                                    },
                                ),
                            ),
                            Err(e) => Err(e),
                        },
                        Err(e) => Err(e),
                    },
                    Err(e) => Err(e),
                },
                Err(e) => Err(e),
            },
            Err(e) => Err(e),
        }
    }

}

impl Open {
    /// Decoding the fields takes bytes from the front of the input and
    /// nowhere else.
    pub proof fn lemma_fields_leave_suffix(input: Seq<u8>, count: nat)
        ensures
            Self::spec_decode_fields(input, count) matches Ok((rest, _)) ==> is_suffix(rest, input),
    {
        reveal(Open::spec_decode_fields);
        let name = "container_id";
        lemma_field_leaves_suffix::<ByteStr>(input, count, Seq::empty(), name);
        if let Ok((r1, c1, container_id)) = spec_decode_required_field::<ByteStr>(
            input,
            count,
            name,
        ) {
            lemma_field_leaves_suffix::<ByteStr>(r1, c1, Seq::empty(), name);
            if let Ok((r2, c2, hostname)) = spec_decode_optional_field::<ByteStr>(r1, c1) {
                lemma_suffix_of_suffix(r2, r1, input);
                lemma_field_leaves_suffix::<u32>(r2, c2, DEFAULT_MAX_FRAME_SIZE, name);
                if let Ok((r3, c3, max_frame_size)) = spec_decode_default_field::<u32>(
                    r2,
                    c2,
                    DEFAULT_MAX_FRAME_SIZE,
                ) {
                    lemma_suffix_of_suffix(r3, r2, input);
                    lemma_field_leaves_suffix::<u16>(r3, c3, DEFAULT_CHANNEL_MAX, name);
                    if let Ok((r4, c4, channel_max)) = spec_decode_default_field::<u16>(
                        r3,
                        c3,
                        DEFAULT_CHANNEL_MAX,
                    ) {
                        lemma_suffix_of_suffix(r4, r3, input);
                        lemma_field_leaves_suffix::<u32>(r4, c4, 0, name);
                        if let Ok((r5, c5, idle_time_out)) = spec_decode_optional_field::<u32>(
                            r4,
                            c4,
                        ) {
                            lemma_suffix_of_suffix(r5, r4, input);
                            Self::lemma_last_fields_leave_suffix(
                                r5,
                                c5,
                                container_id,
                                hostname,
                                max_frame_size,
                                channel_max,
                                idle_time_out,
                            );
                            if let Ok((r10, _)) = Self::spec_decode_last_fields(
                                r5,
                                c5,
                                container_id,
                                hostname,
                                max_frame_size,
                                channel_max,
                                idle_time_out,
                            ) {
                                lemma_suffix_of_suffix(r10, r5, input);
                            }
                        }
                    }
                }
            }
        }
    }

    /// Decoding the last five fields takes bytes from the front of the
    /// input and nowhere else.
    pub proof fn lemma_last_fields_leave_suffix(
        input: Seq<u8>,
        count: nat,
        container_id: Seq<char>,
        hostname: Option<Seq<char>>,
        max_frame_size: u32,
        channel_max: u16,
        idle_time_out: Option<u32>,
    )
        ensures
            Self::spec_decode_last_fields(
                input,
                count,
                container_id,
                hostname,
                max_frame_size,
                channel_max,
                idle_time_out,
            ) matches Ok((rest, _)) ==> is_suffix(rest, input),
    {
        reveal(Open::spec_decode_last_fields);
        let name = "container_id";
        lemma_field_leaves_suffix::<Multiple<Symbol>>(input, count, Seq::empty(), name);
        if let Ok((r1, c1, _)) = spec_decode_optional_field::<Multiple<Symbol>>(input, count) {
            lemma_field_leaves_suffix::<Multiple<Symbol>>(r1, c1, Seq::empty(), name);
            if let Ok((r2, c2, _)) = spec_decode_optional_field::<Multiple<Symbol>>(r1, c1) {
                lemma_suffix_of_suffix(r2, r1, input);
                lemma_field_leaves_suffix::<Multiple<Symbol>>(r2, c2, Seq::empty(), name);
                if let Ok((r3, c3, _)) = spec_decode_optional_field::<Multiple<Symbol>>(r2, c2) {
                    lemma_suffix_of_suffix(r3, r2, input);
                    lemma_field_leaves_suffix::<Multiple<Symbol>>(r3, c3, Seq::empty(), name);
                    if let Ok((r4, c4, _)) = spec_decode_optional_field::<Multiple<Symbol>>(
                        r3,
                        c3,
                    ) {
                        lemma_suffix_of_suffix(r4, r3, input);
                        lemma_field_leaves_suffix::<VariantMap>(r4, c4, Seq::empty(), name);
                        if let Ok((r5, _, _)) = spec_decode_optional_field::<VariantMap>(r4, c4) {
                            lemma_suffix_of_suffix(r5, r4, input);
                        }
                    }
                }
            }
        }
    }
}

impl Open {
    /// The number of fields that the list of an `Open` holds: all up to
    /// the last field that is there. The first four always are; behind
    /// them, absent fields are left out from the end only.
    pub open spec fn spec_field_count(v: OpenView) -> nat {
        if v.properties is Some {
            10
        } else if v.desired_capabilities is Some {
            9
        } else if v.offered_capabilities is Some {
            8
        } else if v.incoming_locales is Some {
            7
        } else if v.outgoing_locales is Some {
            6
        } else if v.idle_time_out is Some {
            5
        } else {
            4
        }
    }

    /// The number of fields that the list of the value holds.
    pub fn field_count(&self) -> (count: u32)
        ensures
            count == Self::spec_field_count(self.deep_view()),
    {
        if self.properties.is_some() {
            10
        } else if self.desired_capabilities.is_some() {
            9
        } else if self.offered_capabilities.is_some() {
            8
        } else if self.incoming_locales.is_some() {
            7
        } else if self.outgoing_locales.is_some() {
            6
        } else if self.idle_time_out.is_some() {
            5
        } else {
            4
        }
    }

    /// The bytes of the first five fields of an `Open` in a list of
    /// `count` fields.
    pub open spec fn spec_encode_first_fields(v: OpenView, count: nat) -> Seq<u8> {
        spec_encode_field::<ByteStr>(v.container_id, count) + spec_encode_field::<Option<ByteStr>>(
            v.hostname,
            fields_left(count, 1),
        ) + spec_encode_field::<u32>(v.max_frame_size, fields_left(count, 2))
            + spec_encode_field::<u16>(v.channel_max, fields_left(count, 3))
            + spec_encode_field::<Option<u32>>(v.idle_time_out, fields_left(count, 4))
    }

    /// The bytes of the last five fields of an `Open` in a list of `count`
    /// fields.
    pub open spec fn spec_encode_last_fields(v: OpenView, count: nat) -> Seq<u8> {
        spec_encode_field::<Option<Multiple<Symbol>>>(v.outgoing_locales, fields_left(count, 5))
            + spec_encode_field::<Option<Multiple<Symbol>>>(
            v.incoming_locales,
            fields_left(count, 6),
        ) + spec_encode_field::<Option<Multiple<Symbol>>>(
            v.offered_capabilities,
            fields_left(count, 7),
        ) + spec_encode_field::<Option<Multiple<Symbol>>>(
            v.desired_capabilities,
            fields_left(count, 8),
        ) + spec_encode_field::<Option<VariantMap>>(v.properties, fields_left(count, 9))
    }

    /// The bytes of the fields of an `Open` in a list of `count` fields.
    pub open spec fn spec_encode_fields(v: OpenView, count: nat) -> Seq<u8> {
        Self::spec_encode_first_fields(v, count) + Self::spec_encode_last_fields(v, count)
    }

    /// Every field has an encoding.
    #[verifier::opaque]
    pub open spec fn fields_encodable(v: OpenView) -> bool {
        &&& <ByteStr as Encode>::encodable(v.container_id)
        &&& <Option<ByteStr> as Encode>::encodable(v.hostname)
        &&& <Option<Multiple<Symbol>> as Encode>::encodable(v.outgoing_locales)
        &&& <Option<Multiple<Symbol>> as Encode>::encodable(v.incoming_locales)
        &&& <Option<Multiple<Symbol>> as Encode>::encodable(v.offered_capabilities)
        &&& <Option<Multiple<Symbol>> as Encode>::encodable(v.desired_capabilities)
        &&& <Option<VariantMap> as Encode>::encodable(v.properties)
    }

    /// The values that have an encoding: every field has one, and the
    /// fields fit the header of the list.
    pub open spec fn fits(v: OpenView) -> bool {
        Self::fields_encodable(v) && compound_fits(
            Self::spec_encode_fields(v, Self::spec_field_count(v)).len(),
            Self::spec_field_count(v),
        )
    }

    /// The values that decoding gives back as they went in: all that can
    /// be encoded, where the properties are a map that comes back.
    pub open spec fn comes_back(v: OpenView) -> bool {
        Self::fits(v) && (v.properties matches Some(m) ==> map_round_trips(m))
    }

    /// The number of bytes that the fields take in a list of `count`
    /// fields.
    pub fn fields_encoded_size(&self, count: u32) -> (n: usize)
        requires
            Self::fields_encodable(self.deep_view()),
            Self::spec_encode_fields(self.deep_view(), count as nat).len() <= usize::MAX,
        ensures
            n == Self::spec_encode_fields(self.deep_view(), count as nat).len(),
    {
        proof {
            reveal(Open::fields_encodable);
        }
        let c: u32 = count;
        let n0 = field_encoded_size::<ByteStr>(&self.container_id, c);
        let c: u32 = if c > 0 { c - 1 } else { 0 };
        let n1 = field_encoded_size::<Option<ByteStr>>(&self.hostname, c);
        let c: u32 = if c > 0 { c - 1 } else { 0 };
        let n2 = field_encoded_size::<u32>(&self.max_frame_size, c);
        let c: u32 = if c > 0 { c - 1 } else { 0 };
        let n3 = field_encoded_size::<u16>(&self.channel_max, c);
        let c: u32 = if c > 0 { c - 1 } else { 0 };
        let n4 = field_encoded_size::<Option<u32>>(&self.idle_time_out, c);
        let c: u32 = if c > 0 { c - 1 } else { 0 };
        let n5 = field_encoded_size::<Option<Multiple<Symbol>>>(&self.outgoing_locales, c);
        let c: u32 = if c > 0 { c - 1 } else { 0 };
        let n6 = field_encoded_size::<Option<Multiple<Symbol>>>(&self.incoming_locales, c);
        let c: u32 = if c > 0 { c - 1 } else { 0 };
        let n7 = field_encoded_size::<Option<Multiple<Symbol>>>(&self.offered_capabilities, c);
        let c: u32 = if c > 0 { c - 1 } else { 0 };
        let n8 = field_encoded_size::<Option<Multiple<Symbol>>>(&self.desired_capabilities, c);
        let c: u32 = if c > 0 { c - 1 } else { 0 };
        let n9 = field_encoded_size::<Option<VariantMap>>(&self.properties, c);
        n0 + n1 + n2 + n3 + n4 + n5 + n6 + n7 + n8 + n9
    }

    /// The number of bytes that the fields take in a list of `count`
    /// fields, where every field has an encoding and they take at most
    /// `limit` bytes.
    pub fn fields_size_within(&self, count: u32, limit: usize) -> (size: Option<usize>)
        requires
            count == Self::spec_field_count(self.deep_view()),
        ensures
            size matches Some(n) ==> Self::fields_encodable(self.deep_view()) && n
                == Self::spec_encode_fields(self.deep_view(), count as nat).len() && n <= limit,
            size is None ==> !(Self::fields_encodable(self.deep_view())
                && Self::spec_encode_fields(self.deep_view(), count as nat).len() <= limit),
    {
        proof {
            reveal(Open::fields_encodable);
        }
        let n0 = match field_size_within::<ByteStr>(&self.container_id, count, limit) {
            Some(n) => n,
            None => {
                return None;
            },
        };
        let n1 = match field_size_within::<Option<ByteStr>>(&self.hostname, count - 1, limit - n0) {
            Some(n) => n,
            None => {
                return None;
            },
        };
        let n2 = match field_size_within::<u32>(&self.max_frame_size, count - 2, limit - n0 - n1) {
            Some(n) => n,
            None => {
                return None;
            },
        };
        let n3 = match field_size_within::<u16>(
            &self.channel_max,
            count - 3,
            limit - n0 - n1 - n2,
        ) {
            Some(n) => n,
            None => {
                return None;
            },
        };
        let first: usize = n0 + n1 + n2 + n3;
        let n4 = match field_size_within::<Option<u32>>(
            &self.idle_time_out,
            count - 4,
            limit - first,
        ) {
            Some(n) => n,
            None => {
                return None;
            },
        };
        let n5 = match field_size_within::<Option<Multiple<Symbol>>>(
            &self.outgoing_locales,
            if count > 5 { count - 5 } else { 0 },
            limit - first - n4,
        ) {
            Some(n) => n,
            None => {
                return None;
            },
        };
        let n6 = match field_size_within::<Option<Multiple<Symbol>>>(
            &self.incoming_locales,
            if count > 6 { count - 6 } else { 0 },
            limit - first - n4 - n5,
        ) {
            Some(n) => n,
            None => {
                return None;
            },
        };
        let n7 = match field_size_within::<Option<Multiple<Symbol>>>(
            &self.offered_capabilities,
            if count > 7 { count - 7 } else { 0 },
            limit - first - n4 - n5 - n6,
        ) {
            Some(n) => n,
            None => {
                return None;
            },
        };
        let second: usize = first + n4 + n5 + n6 + n7;
        let n8 = match field_size_within::<Option<Multiple<Symbol>>>(
            &self.desired_capabilities,
            if count > 8 { count - 8 } else { 0 },
            limit - second,
        ) {
            Some(n) => n,
            None => {
                return None;
            },
        };
        let n9 = match field_size_within::<Option<VariantMap>>(
            &self.properties,
            if count > 9 { count - 9 } else { 0 },
            limit - second - n8,
        ) {
            Some(n) => n,
            None => {
                return None;
            },
        };
        Some(second + n8 + n9)
    }

    /// Appends the first five fields.
    fn encode_first_fields(&self, count: u32, buf: &mut BytesMut)
        requires
            Self::fields_encodable(self.deep_view()),
            buf_bytes(*old(buf)).len() + Self::spec_encode_first_fields(
                self.deep_view(),
                count as nat,
            ).len() <= BUF_MAX,
        ensures
            buf_bytes(*final(buf)) == buf_bytes(*old(buf)) + Self::spec_encode_first_fields(
                self.deep_view(),
                count as nat,
            ),
    {
        proof {
            reveal(Open::fields_encodable);
        }
        let c = encode_field::<ByteStr>(&self.container_id, count, buf);
        let c = encode_field::<Option<ByteStr>>(&self.hostname, c, buf);
        let c = encode_field::<u32>(&self.max_frame_size, c, buf);
        let c = encode_field::<u16>(&self.channel_max, c, buf);
        let _ = encode_field::<Option<u32>>(&self.idle_time_out, c, buf);
        assert(buf_bytes(*buf) =~= buf_bytes(*old(buf)) + Self::spec_encode_first_fields(
            self.deep_view(),
            count as nat,
        ));
    }

    /// Appends the last five fields.
    fn encode_last_fields(&self, count: u32, buf: &mut BytesMut)
        requires
            Self::fields_encodable(self.deep_view()),
            buf_bytes(*old(buf)).len() + Self::spec_encode_last_fields(
                self.deep_view(),
                count as nat,
            ).len() <= BUF_MAX,
        ensures
            buf_bytes(*final(buf)) == buf_bytes(*old(buf)) + Self::spec_encode_last_fields(
                self.deep_view(),
                count as nat,
            ),
    {
        proof {
            reveal(Open::fields_encodable);
        }
        let ghost v = self.deep_view();
        let ghost start = buf_bytes(*buf);
        let ghost e5 = spec_encode_field::<Option<Multiple<Symbol>>>(
            v.outgoing_locales,
            fields_left(count as nat, 5),
        );
        let ghost e6 = spec_encode_field::<Option<Multiple<Symbol>>>(
            v.incoming_locales,
            fields_left(count as nat, 6),
        );
        let ghost e7 = spec_encode_field::<Option<Multiple<Symbol>>>(
            v.offered_capabilities,
            fields_left(count as nat, 7),
        );
        let ghost e8 = spec_encode_field::<Option<Multiple<Symbol>>>(
            v.desired_capabilities,
            fields_left(count as nat, 8),
        );
        let ghost e9 = spec_encode_field::<Option<VariantMap>>(
            v.properties,
            fields_left(count as nat, 9),
        );
        assert(Self::spec_encode_last_fields(v, count as nat) == e5 + e6 + e7 + e8 + e9);
        assert((e5 + e6 + e7 + e8 + e9).len() == e5.len() + e6.len() + e7.len() + e8.len()
            + e9.len());
        let c: u32 = if count > 5 { count - 5 } else { 0 };
        let c = encode_field::<Option<Multiple<Symbol>>>(&self.outgoing_locales, c, buf);
        assert(buf_bytes(*buf) == start + e5);
        let c = encode_field::<Option<Multiple<Symbol>>>(&self.incoming_locales, c, buf);
        assert(buf_bytes(*buf) == start + e5 + e6);
        let c = encode_field::<Option<Multiple<Symbol>>>(&self.offered_capabilities, c, buf);
        assert(buf_bytes(*buf) == start + e5 + e6 + e7);
        let c = encode_field::<Option<Multiple<Symbol>>>(&self.desired_capabilities, c, buf);
        assert(buf_bytes(*buf) == start + e5 + e6 + e7 + e8);
        let _ = encode_field::<Option<VariantMap>>(&self.properties, c, buf);
        assert(buf_bytes(*buf) == start + e5 + e6 + e7 + e8 + e9);
        assert(start + e5 + e6 + e7 + e8 + e9 =~= start + (e5 + e6 + e7 + e8 + e9));
    }

}

/// Text that may be absent comes back where it can be encoded.
pub proof fn lemma_optional_text_round_trips(v: Option<Seq<char>>)
    requires
        <Option<ByteStr> as Encode>::encodable(v),
    ensures
        <Option<ByteStr> as RoundTrip>::round_trips(v),
{
    if let Some(x) = v {
        lemma_variable_round_trip(
            encode_utf8(x),
            FORMATCODE_STRING8,
            FORMATCODE_STRING32,
            Seq::empty(),
        );
    }
}

/// Symbols that may be absent come back where they can be encoded.
pub proof fn lemma_optional_symbols_round_trip(v: Option<Seq<Seq<char>>>)
    requires
        <Option<Multiple<Symbol>> as Encode>::encodable(v),
    ensures
        <Option<Multiple<Symbol>> as RoundTrip>::round_trips(v),
{
    if let Some(xs) = v {
        if xs.len() == 1 {
            lemma_variable_round_trip(
                encode_utf8(xs[0]),
                FORMATCODE_SYMBOL8,
                FORMATCODE_SYMBOL32,
                Seq::empty(),
            );
        } else {
            lemma_array_round_trip::<Symbol>(xs, Seq::empty());
        }
    }
}

/// A map that may be absent comes back where it is one that does.
pub proof fn lemma_optional_map_round_trips(v: Option<Seq<(VariantView, VariantView)>>)
    requires
        v matches Some(m) ==> map_round_trips(m),
    ensures
        <Option<VariantMap> as RoundTrip>::round_trips(v),
{
    if let Some(m) = v {
        lemma_map_round_trip(m, Seq::empty());
    }
}

impl Open {
    /// A list that holds fewer fields than an `Open` has: the first field
    /// is mandatory and is missed where the list holds none; every other
    /// field that the list does not hold any more is absent, or is its
    /// default where it has one.
    pub proof fn law_omitted_fields(input: Seq<u8>, count: nat)
        ensures
            count == 0 ==> Self::spec_decode_fields(input, count) == Err::<
                (Seq<u8>, OpenView),
                Error,
            >(Error::RequiredFieldOmitted("container_id")),
            Self::spec_decode_fields(input, count) matches Ok((_, open)) ==> {
                &&& count <= 1 ==> open.hostname is None
                &&& count <= 2 ==> open.max_frame_size == DEFAULT_MAX_FRAME_SIZE
                &&& count <= 3 ==> open.channel_max == DEFAULT_CHANNEL_MAX
                &&& count <= 4 ==> open.idle_time_out is None
                &&& count <= 5 ==> open.outgoing_locales is None
                &&& count <= 6 ==> open.incoming_locales is None
                &&& count <= 7 ==> open.offered_capabilities is None
                &&& count <= 8 ==> open.desired_capabilities is None
                &&& count <= 9 ==> open.properties is None
            },
    {
        reveal(Open::spec_decode_fields);
        reveal(Open::spec_decode_last_fields);
        reveal(spec_decode_required_field);
        reveal(spec_decode_optional_field);
        reveal(spec_decode_default_field);
    }

    /// The last five fields come back from their bytes.
    pub proof fn lemma_last_fields_round_trip(v: OpenView, count: nat, tail: Seq<u8>)
        requires
            <Option<Multiple<Symbol>> as RoundTrip>::round_trips(v.outgoing_locales),
            <Option<Multiple<Symbol>> as RoundTrip>::round_trips(v.incoming_locales),
            <Option<Multiple<Symbol>> as RoundTrip>::round_trips(v.offered_capabilities),
            <Option<Multiple<Symbol>> as RoundTrip>::round_trips(v.desired_capabilities),
            <Option<VariantMap> as RoundTrip>::round_trips(v.properties),
            count == Self::spec_field_count(v),
        ensures
            Self::spec_decode_last_fields(
                Self::spec_encode_last_fields(v, count) + tail,
                fields_left(count, 5),
                v.container_id,
                v.hostname,
                v.max_frame_size,
                v.channel_max,
                v.idle_time_out,
            ) == Ok::<(Seq<u8>, OpenView), Error>((tail, v)),
    {
        reveal(Open::spec_decode_last_fields);
        let e5 = spec_encode_field::<Option<Multiple<Symbol>>>(
            v.outgoing_locales,
            fields_left(count, 5),
        );
        let e6 = spec_encode_field::<Option<Multiple<Symbol>>>(
            v.incoming_locales,
            fields_left(count, 6),
        );
        let e7 = spec_encode_field::<Option<Multiple<Symbol>>>(
            v.offered_capabilities,
            fields_left(count, 7),
        );
        let e8 = spec_encode_field::<Option<Multiple<Symbol>>>(
            v.desired_capabilities,
            fields_left(count, 8),
        );
        let e9 = spec_encode_field::<Option<VariantMap>>(v.properties, fields_left(count, 9));
        let t9 = e9 + tail;
        let t8 = e8 + t9;
        let t7 = e7 + t8;
        let t6 = e6 + t7;
        let t5 = e5 + t6;
        assert(Self::spec_encode_last_fields(v, count) + tail =~= t5);
        lemma_optional_field_round_trip::<Multiple<Symbol>>(
            v.outgoing_locales,
            fields_left(count, 5),
            t6,
        );
        lemma_optional_field_round_trip::<Multiple<Symbol>>(
            v.incoming_locales,
            fields_left(count, 6),
            t7,
        );
        lemma_optional_field_round_trip::<Multiple<Symbol>>(
            v.offered_capabilities,
            fields_left(count, 7),
            t8,
        );
        lemma_optional_field_round_trip::<Multiple<Symbol>>(
            v.desired_capabilities,
            fields_left(count, 8),
            t9,
        );
        lemma_optional_field_round_trip::<VariantMap>(v.properties, fields_left(count, 9), tail);
    }

    /// The first five fields come back from their bytes, where the last
    /// five come back from what follows.
    pub proof fn lemma_first_fields_round_trip(v: OpenView, count: nat, rest: Seq<u8>)
        requires
            <ByteStr as RoundTrip>::round_trips(v.container_id),
            <Option<ByteStr> as RoundTrip>::round_trips(v.hostname),
            count == Self::spec_field_count(v),
        ensures
            Self::spec_decode_fields(Self::spec_encode_first_fields(v, count) + rest, count)
                == Self::spec_decode_last_fields(
                rest,
                fields_left(count, 5),
                v.container_id,
                v.hostname,
                v.max_frame_size,
                v.channel_max,
                v.idle_time_out,
            ),
    {
        reveal(Open::spec_decode_fields);
        let e0 = spec_encode_field::<ByteStr>(v.container_id, count);
        let e1 = spec_encode_field::<Option<ByteStr>>(v.hostname, fields_left(count, 1));
        let e2 = spec_encode_field::<u32>(v.max_frame_size, fields_left(count, 2));
        let e3 = spec_encode_field::<u16>(v.channel_max, fields_left(count, 3));
        let e4 = spec_encode_field::<Option<u32>>(v.idle_time_out, fields_left(count, 4));
        let t4 = e4 + rest;
        let t3 = e3 + t4;
        let t2 = e2 + t3;
        let t1 = e1 + t2;
        let t0 = e0 + t1;
        assert(Self::spec_encode_first_fields(v, count) + rest =~= t0);
        lemma_required_field_round_trip::<ByteStr>(v.container_id, "container_id", count, t1);
        lemma_optional_field_round_trip::<ByteStr>(v.hostname, fields_left(count, 1), t2);
        lemma_default_field_round_trip::<u32>(
            v.max_frame_size,
            DEFAULT_MAX_FRAME_SIZE,
            fields_left(count, 2),
            t3,
        );
        lemma_default_field_round_trip::<u16>(
            v.channel_max,
            DEFAULT_CHANNEL_MAX,
            fields_left(count, 3),
            t4,
        );
        lemma_optional_field_round_trip::<u32>(v.idle_time_out, fields_left(count, 4), rest);
    }

    /// The fields come back from their bytes.
    pub proof fn lemma_fields_round_trip(v: OpenView, count: nat, tail: Seq<u8>)
        requires
            Self::comes_back(v),
            count == Self::spec_field_count(v),
        ensures
            Self::spec_decode_fields(Self::spec_encode_fields(v, count) + tail, count) == Ok::<
                (Seq<u8>, OpenView),
                Error,
            >((tail, v)),
    {
        reveal(Open::fields_encodable);
        let last = Self::spec_encode_last_fields(v, count);
        assert(Self::spec_encode_fields(v, count) + tail =~= Self::spec_encode_first_fields(
            v,
            count,
        ) + (last + tail));
        lemma_optional_text_round_trips(v.hostname);
        lemma_optional_symbols_round_trip(v.outgoing_locales);
        lemma_optional_symbols_round_trip(v.incoming_locales);
        lemma_optional_symbols_round_trip(v.offered_capabilities);
        lemma_optional_symbols_round_trip(v.desired_capabilities);
        lemma_optional_map_round_trips(v.properties);
        Self::lemma_first_fields_round_trip(v, count, last + tail);
        Self::lemma_last_fields_round_trip(v, count, tail);
    }
}

impl DescribedList for Open {
    fn descriptor() -> (d: (u64, &'static str)) {
        (descriptor_code(0, 0x10), "amqp:open:list")
    }

    /// The fields are read one after the other, as many as the header of
    /// the list counts; the size that it declares is not consulted.
    open spec fn spec_decode_list(input: Seq<u8>, fmt: u8) -> Decoded<OpenView> {
        match spec_decode_list_header(input, fmt) {
            Ok((rest, header)) => Self::spec_decode_fields(rest, header.count as nat),
            Err(e) => Err(e),
        }
    }

    proof fn list_leaves_suffix(input: Seq<u8>, fmt: u8)
    {
        match spec_decode_list_header(input, fmt) {
            Ok((rest, header)) => {
                Self::lemma_fields_leave_suffix(rest, header.count as nat);
            },
            Err(_) => {},
        }
    }

    fn decode_list<'a>(input: &'a [u8], fmt: u8) -> (r: Result<(&'a [u8], Open), Error>)
    {
        let (input, header) = decode_list_header(input, fmt)?;
        let count: u32 = header.count;
        proof {
            reveal(Open::spec_decode_fields);
            reveal(Open::spec_decode_last_fields);
        }
        let (input, count, container_id) = decode_required_field::<ByteStr>(
            input,
            count,
            "container_id",
        )?;
        let (input, count, hostname) = decode_optional_field::<ByteStr>(input, count)?;
        let (input, count, max_frame_size) = decode_default_field::<u32>(
            input,
            count,
            DEFAULT_MAX_FRAME_SIZE,
        )?;
        let (input, count, channel_max) = decode_default_field::<u16>(
            input,
            count,
            DEFAULT_CHANNEL_MAX,
        )?;
        let (input, count, idle_time_out) = decode_optional_field::<u32>(input, count)?;
        let (input, count, outgoing_locales) = decode_optional_field::<Multiple<Symbol>>(
            input,
            count,
        )?;
        let (input, count, incoming_locales) = decode_optional_field::<Multiple<Symbol>>(
            input,
            count,
        )?;
        let (input, count, offered_capabilities) = decode_optional_field::<Multiple<Symbol>>(
            input,
            count,
        )?;
        let (input, count, desired_capabilities) = decode_optional_field::<Multiple<Symbol>>(
            input,
            count,
        )?;
        let (input, _, properties) = decode_optional_field::<VariantMap>(input, count)?;
        Ok(
            (
                input,
                Open {
                    container_id,
                    hostname,
                    max_frame_size,
                    channel_max,
                    idle_time_out,
                    outgoing_locales,
                    incoming_locales,
                    offered_capabilities,
                    desired_capabilities,
                    properties,
                },
            ),
        )
    }

    open spec fn list_encodable(v: OpenView) -> bool {
        Open::fits(v)
    }

    /// The header of the list and the fields.
    open spec fn spec_encode_list(v: OpenView) -> Seq<u8> {
        spec_list_header(
            Self::spec_encode_fields(v, Self::spec_field_count(v)).len(),
            Self::spec_field_count(v),
        ) + Self::spec_encode_fields(v, Self::spec_field_count(v))
    }

    fn list_encoded_size(&self) -> (n: usize) {
        let count: u32 = self.field_count();
        let content_len = self.fields_encoded_size(count);
        list_header_size(content_len, count) + content_len
    }

    fn list_size_within(&self, limit: usize) -> (size: Option<usize>) {
        let count: u32 = self.field_count();
        let most: usize = if limit < 0xffff_fffb {
            limit
        } else {
            0xffff_fffb
        };
        match self.fields_size_within(count, most) {
            Some(content_len) => {
                let header: usize = list_header_size(content_len, count);
                if limit - content_len < header {
                    None
                } else {
                    Some(content_len + header)
                }
            },
            None => None,
        }
    }

    fn encode_list(&self, buf: &mut BytesMut)
    {
        let count: u32 = self.field_count();
        let content_len = self.fields_encoded_size(count);
        put_list_header(buf, content_len, count);
        self.encode_first_fields(count, buf);
        self.encode_last_fields(count, buf);
        assert(buf_bytes(*buf) =~= buf_bytes(*old(buf)) + Self::spec_encode_list(
            self.deep_view(),
        ));
    }

    open spec fn list_round_trips(v: OpenView) -> bool {
        Open::comes_back(v)
    }

    proof fn law_list_round_trip(v: OpenView, tail: Seq<u8>)
    {
        let count = Self::spec_field_count(v);
        let content = Self::spec_encode_fields(v, count);
        let header = spec_list_header(
            content.len(),
            count,
        );
        assert(Self::spec_encode_list(v) + tail =~= header + (content + tail));
        lemma_list_header_round_trip(content.len(), count, content + tail);
        Self::lemma_fields_round_trip(v, count, tail);
    }
}

impl DecodeFormatted for Open {
    open spec fn spec_decode_with_format(input: Seq<u8>, fmt: u8) -> Decoded<OpenView> {
        spec_decode_described::<Open>(input, fmt)
    }

    proof fn decoding_leaves_suffix(input: Seq<u8>, fmt: u8) {
        lemma_described_leaves_suffix::<Open>(input, fmt);
    }

    fn decode_with_format<'a>(input: &'a [u8], fmt: u8) -> (r: Result<(&'a [u8], Self), Error>) {
        decode_described::<Open>(input, fmt)
    }
}

impl Encode for Open {
    open spec fn encodable(v: OpenView) -> bool {
        Open::list_encodable(v)
    }

    open spec fn spec_encode(v: OpenView) -> Seq<u8> {
        spec_encode_described::<Open>(v)
    }

    fn encoded_size(&self) -> (n: usize) {
        described_encoded_size::<Open>(self)
    }

    fn size_within(&self, limit: usize) -> (size: Option<usize>) {
        described_size_within::<Open>(self, limit)
    }

    fn encode(&self, buf: &mut BytesMut) {
        encode_described::<Open>(self, buf)
    }
}

impl RoundTrip for Open {
    open spec fn round_trips(v: OpenView) -> bool {
        Open::list_round_trips(v)
    }

    proof fn law_round_trip(v: OpenView, tail: Seq<u8>) {
        lemma_described_round_trip::<Open>(v, tail);
    }
}

} // verus!
