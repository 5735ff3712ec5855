//! The performative that carries the flow state of a session.

use vstd::prelude::*;
use bytes::BytesMut;
use crate::buffer::{buf_bytes, BUF_MAX};
use crate::errors::Error;
use crate::codec::decode::{decode_list_header, lemma_suffix_of_suffix, spec_decode_list_header};
use crate::codec::described::{
    decode_default_field, decode_described, decode_optional_field, decode_required_field,
    described_encoded_size, described_size_within, descriptor_code, encode_described,
    encode_field, field_encoded_size, field_size_within, lemma_default_field_round_trip,
    lemma_described_leaves_suffix, lemma_described_round_trip, lemma_field_leaves_suffix,
    lemma_optional_field_round_trip, lemma_required_field_round_trip, spec_decode_default_field,
    spec_decode_described, spec_decode_optional_field, spec_decode_required_field,
    spec_encode_described, spec_encode_field, fields_left, left_of, DescribedList,
};
use crate::codec::encode::{compound_fits, list_header_size, put_list_header, spec_list_header};
use crate::codec::laws::lemma_list_header_round_trip;
use crate::codec::{DecodeFormatted, Decoded, Encode, RoundTrip};
use crate::protocol::Described;
use crate::types::{VariantMap, VariantView};

verus! {

/// The performative that updates the state of a session and of a link on it.
#[derive(Debug, PartialEq, Eq)]
pub struct Flow {
    pub next_incoming_id: Option<u32>,
    pub incoming_window: u32,
    pub next_outgoing_id: u32,
    pub outgoing_window: u32,
    pub handle: Option<u32>,
    pub delivery_count: Option<u32>,
    pub link_credit: Option<u32>,
    pub available: Option<u32>,
    pub drain: bool,
    pub echo: bool,
    pub properties: Option<VariantMap>,
}

/// The model of a `Flow`.
pub struct FlowView {
    pub next_incoming_id: Option<u32>,
    pub incoming_window: u32,
    pub next_outgoing_id: u32,
    pub outgoing_window: u32,
    pub handle: Option<u32>,
    pub delivery_count: Option<u32>,
    pub link_credit: Option<u32>,
    pub available: Option<u32>,
    pub drain: bool,
    pub echo: bool,
    pub properties: Option<Seq<(VariantView, VariantView)>>,
}

impl DeepView for Flow {
    type V = FlowView;

    open spec fn deep_view(&self) -> FlowView {
        FlowView {
            next_incoming_id: self.next_incoming_id.deep_view(),
            incoming_window: self.incoming_window.deep_view(),
            next_outgoing_id: self.next_outgoing_id.deep_view(),
            outgoing_window: self.outgoing_window.deep_view(),
            handle: self.handle.deep_view(),
            delivery_count: self.delivery_count.deep_view(),
            link_credit: self.link_credit.deep_view(),
            available: self.available.deep_view(),
            drain: self.drain.deep_view(),
            echo: self.echo.deep_view(),
            properties: self.properties.deep_view(),
        }
    }
}

impl Described for Flow {
    open spec fn spec_descriptor_name() -> Seq<char> {
        "amqp:flow:list"@
    }

    open spec fn spec_descriptor_domain() -> u32 {
        0
    }

    open spec fn spec_descriptor_code() -> u32 {
        0x13
    }

    fn descriptor_name(&self) -> (name: &'static str) {
        "amqp:flow:list"
    }

    fn descriptor_domain(&self) -> (domain: u32) {
        0
    }

    fn descriptor_code(&self) -> (code: u32) {
        0x13
    }
}

impl Flow {
    /// The fields of a `Flow`, from a list that holds `count` of them.
    #[verifier::opaque]
    pub open spec fn spec_decode_fields(input: Seq<u8>, count: nat) -> Decoded<FlowView> {
        match spec_decode_optional_field::<u32>(input, count) {
            Ok((input, count, next_incoming_id)) => match spec_decode_required_field::<u32>(
                input,
                count,
                "incoming_window",
            ) {
                Ok((input, count, incoming_window)) => match spec_decode_required_field::<u32>(
                    input,
                    count,
                    "next_outgoing_id",
                ) {
                    Ok((input, count, next_outgoing_id)) => match spec_decode_required_field::<u32>(
                        input,
                        count,
                        "outgoing_window",
                    ) {
                        Ok((input, count, outgoing_window)) => match spec_decode_optional_field::<u32>(
                            input,
                            count,
                        ) {
                            Ok((input, count, handle)) => match spec_decode_optional_field::<u32>(
                                input,
                                count,
                            ) {
                                Ok((input, count, delivery_count)) => match spec_decode_optional_field::<u32>(
                                    input,
                                    count,
                                ) {
                                    Ok((input, count, link_credit)) => match spec_decode_optional_field::<u32>(
                                        input,
                                        count,
                                    ) {
                                        Ok((input, count, available)) => match spec_decode_default_field::<bool>(
                                            input,
                                            count,
                                            false,
                                        ) {
                                            Ok((input, count, drain)) => match spec_decode_default_field::<bool>(
                                                input,
                                                count,
                                                false,
                                            ) {
                                                Ok((input, count, echo)) => match spec_decode_optional_field::<VariantMap>(
                                                    input,
                                                    count,
                                                ) {
                                                    Ok((input, _, properties)) => Ok(
                                                        (
                                                            input,
                                                            FlowView {
                                                                next_incoming_id,
                                                                incoming_window,
                                                                next_outgoing_id,
                                                                outgoing_window,
                                                                handle,
                                                                delivery_count,
                                                                link_credit,
                                                                available,
                                                                drain,
                                                                echo,
                                                                properties,
                                                            },
                                                        ),
                                                    ),
                                                    Err(e) => Err(e),
                                                },
                                                Err(e) => Err(e),
                                            },
                                            Err(e) => Err(e),
                                        },
                                        Err(e) => Err(e),
                                    },
                                    Err(e) => Err(e),
                                },
                                Err(e) => Err(e),
                            },
                            Err(e) => Err(e),
                        },
                        Err(e) => Err(e),
                    },
                    Err(e) => Err(e),
                },
                Err(e) => Err(e),
            },
            Err(e) => Err(e),
        }
    }

    /// The number of fields that the list holds: all up to the last one
    /// that is there.
    pub open spec fn spec_field_count(v: FlowView) -> nat {
        if v.properties is Some {
            11
        } else {
            10
        }
    }

    /// The number of fields that the list of the value holds.
    pub fn field_count(&self) -> (count: u32)
        ensures
            count == Self::spec_field_count(self.deep_view()),
    {
        if self.properties.is_some() {
            11
        } else {
            10
        }
    }

    /// The bytes of fields 1 to 4 in a list of `count` fields.
    pub open spec fn spec_encode_fields_a(v: FlowView, count: nat) -> Seq<u8> {
        spec_encode_field::<Option<u32>>(v.next_incoming_id, count)
            + spec_encode_field::<u32>(v.incoming_window, fields_left(count, 1))
            + spec_encode_field::<u32>(v.next_outgoing_id, fields_left(count, 2))
            + spec_encode_field::<u32>(v.outgoing_window, fields_left(count, 3))
    }

    /// Each of fields 1 to 4 has an encoding.
    pub open spec fn fields_encodable_a(v: FlowView) -> bool {
        &&& <Option<u32> as Encode>::encodable(v.next_incoming_id)
        &&& <u32 as Encode>::encodable(v.incoming_window)
        &&& <u32 as Encode>::encodable(v.next_outgoing_id)
        &&& <u32 as Encode>::encodable(v.outgoing_window)
    }

    /// The bytes of fields 5 to 8 in a list of `count` fields.
    pub open spec fn spec_encode_fields_b(v: FlowView, count: nat) -> Seq<u8> {
        spec_encode_field::<Option<u32>>(v.handle, fields_left(count, 4))
            + spec_encode_field::<Option<u32>>(v.delivery_count, fields_left(count, 5))
            + spec_encode_field::<Option<u32>>(v.link_credit, fields_left(count, 6))
            + spec_encode_field::<Option<u32>>(v.available, fields_left(count, 7))
    }

    /// Each of fields 5 to 8 has an encoding.
    pub open spec fn fields_encodable_b(v: FlowView) -> bool {
        &&& <Option<u32> as Encode>::encodable(v.handle)
        &&& <Option<u32> as Encode>::encodable(v.delivery_count)
        &&& <Option<u32> as Encode>::encodable(v.link_credit)
        &&& <Option<u32> as Encode>::encodable(v.available)
    }

    /// The bytes of fields 9 to 11 in a list of `count` fields.
    pub open spec fn spec_encode_fields_c(v: FlowView, count: nat) -> Seq<u8> {
        spec_encode_field::<bool>(v.drain, fields_left(count, 8))
            + spec_encode_field::<bool>(v.echo, fields_left(count, 9))
            + spec_encode_field::<Option<VariantMap>>(v.properties, fields_left(count, 10))
    }

    /// Each of fields 9 to 11 has an encoding.
    pub open spec fn fields_encodable_c(v: FlowView) -> bool {
        &&& <bool as Encode>::encodable(v.drain)
        &&& <bool as Encode>::encodable(v.echo)
        &&& <Option<VariantMap> as Encode>::encodable(v.properties)
    }

    /// The bytes of the fields in a list of `count` fields.
    pub open spec fn spec_encode_fields(v: FlowView, count: nat) -> Seq<u8> {
        Self::spec_encode_fields_a(v, count) + Self::spec_encode_fields_b(v, count) + Self::spec_encode_fields_c(
            v,
            count,
        )
    }

    /// The values that have an encoding: every field has one, and the
    /// fields fit the header of the list.
    pub open spec fn fits(v: FlowView) -> bool {
        &&& Self::fields_encodable_a(v)
        &&& Self::fields_encodable_b(v)
        &&& Self::fields_encodable_c(v)
        &&& compound_fits(
            Self::spec_encode_fields(v, Self::spec_field_count(v)).len(),
            Self::spec_field_count(v),
        )
    }

    /// The number of bytes that fields 1 to 4 take, where each of them has an
    /// encoding and they take at most `limit` bytes.
    fn fields_size_within_a(&self, count: u32, limit: usize) -> (size: Option<usize>)
        requires
            count == Self::spec_field_count(self.deep_view()),
        ensures
            size matches Some(n) ==> Self::fields_encodable_a(self.deep_view()) && n
                == Self::spec_encode_fields_a(self.deep_view(), count as nat).len() && n <= limit,
            size is None ==> !(Self::fields_encodable_a(self.deep_view())
                && Self::spec_encode_fields_a(self.deep_view(), count as nat).len() <= limit),
    {
        let ghost v = self.deep_view();
        let ghost e0 = spec_encode_field::<Option<u32>>(v.next_incoming_id, count as nat);
        let ghost e1 = spec_encode_field::<u32>(v.incoming_window, fields_left(count as nat, 1));
        let ghost e2 = spec_encode_field::<u32>(v.next_outgoing_id, fields_left(count as nat, 2));
        let ghost e3 = spec_encode_field::<u32>(v.outgoing_window, fields_left(count as nat, 3));
        assert(Self::spec_encode_fields_a(v, count as nat) == e0 + e1 + e2 + e3);
        assert((e0 + e1 + e2 + e3).len() == e0.len() + e1.len() + e2.len() + e3.len());
        let n0 = match field_size_within::<Option<u32>>(&self.next_incoming_id, count, limit) {
            Some(n) => n,
            None => {
                return None;
            },
        };
        let n1 = match field_size_within::<u32>(
            &self.incoming_window,
            left_of(count, 1),
            limit - n0,
        ) {
            Some(n) => n,
            None => {
                return None;
            },
        };
        let n2 = match field_size_within::<u32>(
            &self.next_outgoing_id,
            left_of(count, 2),
            limit - n0 - n1,
        ) {
            Some(n) => n,
            None => {
                return None;
            },
        };
        let n3 = match field_size_within::<u32>(
            &self.outgoing_window,
            left_of(count, 3),
            limit - n0 - n1 - n2,
        ) {
            Some(n) => n,
            None => {
                return None;
            },
        };
        Some(n0 + n1 + n2 + n3)
    }

    /// The number of bytes that fields 1 to 4 take.
    fn fields_encoded_size_a(&self, count: u32) -> (n: usize)
        requires
            Self::fields_encodable_a(self.deep_view()),
            Self::spec_encode_fields_a(self.deep_view(), count as nat).len() <= usize::MAX,
        ensures
            n == Self::spec_encode_fields_a(self.deep_view(), count as nat).len(),
    {
        let ghost v = self.deep_view();
        let ghost e0 = spec_encode_field::<Option<u32>>(v.next_incoming_id, count as nat);
        let ghost e1 = spec_encode_field::<u32>(v.incoming_window, fields_left(count as nat, 1));
        let ghost e2 = spec_encode_field::<u32>(v.next_outgoing_id, fields_left(count as nat, 2));
        let ghost e3 = spec_encode_field::<u32>(v.outgoing_window, fields_left(count as nat, 3));
        assert(Self::spec_encode_fields_a(v, count as nat) == e0 + e1 + e2 + e3);
        assert((e0 + e1 + e2 + e3).len() == e0.len() + e1.len() + e2.len() + e3.len());
        let n0 = field_encoded_size::<Option<u32>>(&self.next_incoming_id, count);
        let n1 = field_encoded_size::<u32>(&self.incoming_window, left_of(count, 1));
        let n2 = field_encoded_size::<u32>(&self.next_outgoing_id, left_of(count, 2));
        let n3 = field_encoded_size::<u32>(&self.outgoing_window, left_of(count, 3));
        n0 + n1 + n2 + n3
    }

    /// Appends fields 1 to 4.
    fn encode_fields_a(&self, count: u32, buf: &mut BytesMut)
        requires
            Self::fields_encodable_a(self.deep_view()),
            buf_bytes(*old(buf)).len() + Self::spec_encode_fields_a(
                self.deep_view(),
                count as nat,
            ).len() <= BUF_MAX,
        ensures
            buf_bytes(*final(buf)) == buf_bytes(*old(buf)) + Self::spec_encode_fields_a(
                self.deep_view(),
                count as nat,
            ),
    {
        let ghost v = self.deep_view();
        let ghost e0 = spec_encode_field::<Option<u32>>(v.next_incoming_id, count as nat);
        let ghost e1 = spec_encode_field::<u32>(v.incoming_window, fields_left(count as nat, 1));
        let ghost e2 = spec_encode_field::<u32>(v.next_outgoing_id, fields_left(count as nat, 2));
        let ghost e3 = spec_encode_field::<u32>(v.outgoing_window, fields_left(count as nat, 3));
        assert(Self::spec_encode_fields_a(v, count as nat) == e0 + e1 + e2 + e3);
        assert((e0 + e1 + e2 + e3).len() == e0.len() + e1.len() + e2.len() + e3.len());
        let ghost start = buf_bytes(*buf);
        let _ = encode_field::<Option<u32>>(&self.next_incoming_id, count, buf);
        assert(buf_bytes(*buf) == start + e0);
        let _ = encode_field::<u32>(&self.incoming_window, left_of(count, 1), buf);
        assert(buf_bytes(*buf) == start + e0 + e1);
        let _ = encode_field::<u32>(&self.next_outgoing_id, left_of(count, 2), buf);
        assert(buf_bytes(*buf) == start + e0 + e1 + e2);
        let _ = encode_field::<u32>(&self.outgoing_window, left_of(count, 3), buf);
        assert(buf_bytes(*buf) == start + e0 + e1 + e2 + e3);
        assert(start + e0 + e1 + e2 + e3 =~= start + (e0 + e1 + e2 + e3));
    }

    /// The number of bytes that fields 5 to 8 take, where each of them has an
    /// encoding and they take at most `limit` bytes.
    fn fields_size_within_b(&self, count: u32, limit: usize) -> (size: Option<usize>)
        requires
            count == Self::spec_field_count(self.deep_view()),
        ensures
            size matches Some(n) ==> Self::fields_encodable_b(self.deep_view()) && n
                == Self::spec_encode_fields_b(self.deep_view(), count as nat).len() && n <= limit,
            size is None ==> !(Self::fields_encodable_b(self.deep_view())
                && Self::spec_encode_fields_b(self.deep_view(), count as nat).len() <= limit),
    {
        let ghost v = self.deep_view();
        let ghost e4 = spec_encode_field::<Option<u32>>(v.handle, fields_left(count as nat, 4));
        let ghost e5 = spec_encode_field::<Option<u32>>(
            v.delivery_count,
            fields_left(count as nat, 5),
        );
        let ghost e6 = spec_encode_field::<Option<u32>>(
            v.link_credit,
            fields_left(count as nat, 6),
        );
        let ghost e7 = spec_encode_field::<Option<u32>>(v.available, fields_left(count as nat, 7));
        assert(Self::spec_encode_fields_b(v, count as nat) == e4 + e5 + e6 + e7);
        assert((e4 + e5 + e6 + e7).len() == e4.len() + e5.len() + e6.len() + e7.len());
        let n4 = match field_size_within::<Option<u32>>(&self.handle, left_of(count, 4), limit) {
            Some(n) => n,
            None => {
                return None;
            },
        };
        let n5 = match field_size_within::<Option<u32>>(
            &self.delivery_count,
            left_of(count, 5),
            limit - n4,
        ) {
            Some(n) => n,
            None => {
                return None;
            },
        };
        let n6 = match field_size_within::<Option<u32>>(
            &self.link_credit,
            left_of(count, 6),
            limit - n4 - n5,
        ) {
            Some(n) => n,
            None => {
                return None;
            },
        };
        let n7 = match field_size_within::<Option<u32>>(
            &self.available,
            left_of(count, 7),
            limit - n4 - n5 - n6,
        ) {
            Some(n) => n,
            None => {
                return None;
            },
        };
        Some(n4 + n5 + n6 + n7)
    }

    /// The number of bytes that fields 5 to 8 take.
    fn fields_encoded_size_b(&self, count: u32) -> (n: usize)
        requires
            Self::fields_encodable_b(self.deep_view()),
            Self::spec_encode_fields_b(self.deep_view(), count as nat).len() <= usize::MAX,
        ensures
            n == Self::spec_encode_fields_b(self.deep_view(), count as nat).len(),
    {
        let ghost v = self.deep_view();
        let ghost e4 = spec_encode_field::<Option<u32>>(v.handle, fields_left(count as nat, 4));
        let ghost e5 = spec_encode_field::<Option<u32>>(
            v.delivery_count,
            fields_left(count as nat, 5),
        );
        let ghost e6 = spec_encode_field::<Option<u32>>(
            v.link_credit,
            fields_left(count as nat, 6),
        );
        let ghost e7 = spec_encode_field::<Option<u32>>(v.available, fields_left(count as nat, 7));
        assert(Self::spec_encode_fields_b(v, count as nat) == e4 + e5 + e6 + e7);
        assert((e4 + e5 + e6 + e7).len() == e4.len() + e5.len() + e6.len() + e7.len());
        let n4 = field_encoded_size::<Option<u32>>(&self.handle, left_of(count, 4));
        let n5 = field_encoded_size::<Option<u32>>(&self.delivery_count, left_of(count, 5));
        let n6 = field_encoded_size::<Option<u32>>(&self.link_credit, left_of(count, 6));
        let n7 = field_encoded_size::<Option<u32>>(&self.available, left_of(count, 7));
        n4 + n5 + n6 + n7
    }

    /// Appends fields 5 to 8.
    fn encode_fields_b(&self, count: u32, buf: &mut BytesMut)
        requires
            Self::fields_encodable_b(self.deep_view()),
            buf_bytes(*old(buf)).len() + Self::spec_encode_fields_b(
                self.deep_view(),
                count as nat,
            ).len() <= BUF_MAX,
        ensures
            buf_bytes(*final(buf)) == buf_bytes(*old(buf)) + Self::spec_encode_fields_b(
                self.deep_view(),
                count as nat,
            ),
    {
        let ghost v = self.deep_view();
        let ghost e4 = spec_encode_field::<Option<u32>>(v.handle, fields_left(count as nat, 4));
        let ghost e5 = spec_encode_field::<Option<u32>>(
            v.delivery_count,
            fields_left(count as nat, 5),
        );
        let ghost e6 = spec_encode_field::<Option<u32>>(
            v.link_credit,
            fields_left(count as nat, 6),
        );
        let ghost e7 = spec_encode_field::<Option<u32>>(v.available, fields_left(count as nat, 7));
        assert(Self::spec_encode_fields_b(v, count as nat) == e4 + e5 + e6 + e7);
        assert((e4 + e5 + e6 + e7).len() == e4.len() + e5.len() + e6.len() + e7.len());
        let ghost start = buf_bytes(*buf);
        let _ = encode_field::<Option<u32>>(&self.handle, left_of(count, 4), buf);
        assert(buf_bytes(*buf) == start + e4);
        let _ = encode_field::<Option<u32>>(&self.delivery_count, left_of(count, 5), buf);
        assert(buf_bytes(*buf) == start + e4 + e5);
        let _ = encode_field::<Option<u32>>(&self.link_credit, left_of(count, 6), buf);
        assert(buf_bytes(*buf) == start + e4 + e5 + e6);
        let _ = encode_field::<Option<u32>>(&self.available, left_of(count, 7), buf);
        assert(buf_bytes(*buf) == start + e4 + e5 + e6 + e7);
        assert(start + e4 + e5 + e6 + e7 =~= start + (e4 + e5 + e6 + e7));
    }

    /// The number of bytes that fields 9 to 11 take, where each of them has an
    /// encoding and they take at most `limit` bytes.
    fn fields_size_within_c(&self, count: u32, limit: usize) -> (size: Option<usize>)
        requires
            count == Self::spec_field_count(self.deep_view()),
        ensures
            size matches Some(n) ==> Self::fields_encodable_c(self.deep_view()) && n
                == Self::spec_encode_fields_c(self.deep_view(), count as nat).len() && n <= limit,
            size is None ==> !(Self::fields_encodable_c(self.deep_view())
                && Self::spec_encode_fields_c(self.deep_view(), count as nat).len() <= limit),
    {
        let ghost v = self.deep_view();
        let ghost e8 = spec_encode_field::<bool>(v.drain, fields_left(count as nat, 8));
        let ghost e9 = spec_encode_field::<bool>(v.echo, fields_left(count as nat, 9));
        let ghost e10 = spec_encode_field::<Option<VariantMap>>(
            v.properties,
            fields_left(count as nat, 10),
        );
        assert(Self::spec_encode_fields_c(v, count as nat) == e8 + e9 + e10);
        assert((e8 + e9 + e10).len() == e8.len() + e9.len() + e10.len());
        let n8 = match field_size_within::<bool>(&self.drain, left_of(count, 8), limit) {
            Some(n) => n,
            None => {
                return None;
            },
        };
        let n9 = match field_size_within::<bool>(&self.echo, left_of(count, 9), limit - n8) {
            Some(n) => n,
            None => {
                return None;
            },
        };
        let n10 = match field_size_within::<Option<VariantMap>>(
            &self.properties,
            left_of(count, 10),
            limit - n8 - n9,
        ) {
            Some(n) => n,
            None => {
                return None;
            },
        };
        Some(n8 + n9 + n10)
    }

    /// The number of bytes that fields 9 to 11 take.
    fn fields_encoded_size_c(&self, count: u32) -> (n: usize)
        requires
            Self::fields_encodable_c(self.deep_view()),
            Self::spec_encode_fields_c(self.deep_view(), count as nat).len() <= usize::MAX,
        ensures
            n == Self::spec_encode_fields_c(self.deep_view(), count as nat).len(),
    {
        let ghost v = self.deep_view();
        let ghost e8 = spec_encode_field::<bool>(v.drain, fields_left(count as nat, 8));
        let ghost e9 = spec_encode_field::<bool>(v.echo, fields_left(count as nat, 9));
        let ghost e10 = spec_encode_field::<Option<VariantMap>>(
            v.properties,
            fields_left(count as nat, 10),
        );
        assert(Self::spec_encode_fields_c(v, count as nat) == e8 + e9 + e10);
        assert((e8 + e9 + e10).len() == e8.len() + e9.len() + e10.len());
        let n8 = field_encoded_size::<bool>(&self.drain, left_of(count, 8));
        let n9 = field_encoded_size::<bool>(&self.echo, left_of(count, 9));
        let n10 = field_encoded_size::<Option<VariantMap>>(&self.properties, left_of(count, 10));
        n8 + n9 + n10
    }

    /// Appends fields 9 to 11.
    fn encode_fields_c(&self, count: u32, buf: &mut BytesMut)
        requires
            Self::fields_encodable_c(self.deep_view()),
            buf_bytes(*old(buf)).len() + Self::spec_encode_fields_c(
                self.deep_view(),
                count as nat,
            ).len() <= BUF_MAX,
        ensures
            buf_bytes(*final(buf)) == buf_bytes(*old(buf)) + Self::spec_encode_fields_c(
                self.deep_view(),
                count as nat,
            ),
    {
        let ghost v = self.deep_view();
        let ghost e8 = spec_encode_field::<bool>(v.drain, fields_left(count as nat, 8));
        let ghost e9 = spec_encode_field::<bool>(v.echo, fields_left(count as nat, 9));
        let ghost e10 = spec_encode_field::<Option<VariantMap>>(
            v.properties,
            fields_left(count as nat, 10),
        );
        assert(Self::spec_encode_fields_c(v, count as nat) == e8 + e9 + e10);
        assert((e8 + e9 + e10).len() == e8.len() + e9.len() + e10.len());
        let ghost start = buf_bytes(*buf);
        let _ = encode_field::<bool>(&self.drain, left_of(count, 8), buf);
        assert(buf_bytes(*buf) == start + e8);
        let _ = encode_field::<bool>(&self.echo, left_of(count, 9), buf);
        assert(buf_bytes(*buf) == start + e8 + e9);
        let _ = encode_field::<Option<VariantMap>>(&self.properties, left_of(count, 10), buf);
        assert(buf_bytes(*buf) == start + e8 + e9 + e10);
        assert(start + e8 + e9 + e10 =~= start + (e8 + e9 + e10));
    }

    /// The values that decoding gives back as they went in.
    pub open spec fn comes_back(v: FlowView) -> bool {
        &&& Self::fits(v)
        &&& <Option<u32> as RoundTrip>::round_trips(v.next_incoming_id)
        &&& <u32 as RoundTrip>::round_trips(v.incoming_window)
        &&& <u32 as RoundTrip>::round_trips(v.next_outgoing_id)
        &&& <u32 as RoundTrip>::round_trips(v.outgoing_window)
        &&& <Option<u32> as RoundTrip>::round_trips(v.handle)
        &&& <Option<u32> as RoundTrip>::round_trips(v.delivery_count)
        &&& <Option<u32> as RoundTrip>::round_trips(v.link_credit)
        &&& <Option<u32> as RoundTrip>::round_trips(v.available)
        &&& <bool as RoundTrip>::round_trips(v.drain)
        &&& <bool as RoundTrip>::round_trips(v.echo)
        &&& <Option<VariantMap> as RoundTrip>::round_trips(v.properties)
    }

    /// The fields come back from their bytes.
    pub proof fn lemma_fields_round_trip(v: FlowView, count: nat, tail: Seq<u8>)
        requires
            <Option<u32> as RoundTrip>::round_trips(v.next_incoming_id),
            <u32 as RoundTrip>::round_trips(v.incoming_window),
            <u32 as RoundTrip>::round_trips(v.next_outgoing_id),
            <u32 as RoundTrip>::round_trips(v.outgoing_window),
            <Option<u32> as RoundTrip>::round_trips(v.handle),
            <Option<u32> as RoundTrip>::round_trips(v.delivery_count),
            <Option<u32> as RoundTrip>::round_trips(v.link_credit),
            <Option<u32> as RoundTrip>::round_trips(v.available),
            <bool as RoundTrip>::round_trips(v.drain),
            <bool as RoundTrip>::round_trips(v.echo),
            <Option<VariantMap> as RoundTrip>::round_trips(v.properties),
            count == Self::spec_field_count(v),
        ensures
            Self::spec_decode_fields(Self::spec_encode_fields(v, count) + tail, count) == Ok::<
                (Seq<u8>, FlowView),
                Error,
            >((tail, v)),
    {
        reveal(Flow::spec_decode_fields);
        let e0 = spec_encode_field::<Option<u32>>(v.next_incoming_id, count);
        let e1 = spec_encode_field::<u32>(v.incoming_window, fields_left(count, 1));
        let e2 = spec_encode_field::<u32>(v.next_outgoing_id, fields_left(count, 2));
        let e3 = spec_encode_field::<u32>(v.outgoing_window, fields_left(count, 3));
        let e4 = spec_encode_field::<Option<u32>>(v.handle, fields_left(count, 4));
        let e5 = spec_encode_field::<Option<u32>>(v.delivery_count, fields_left(count, 5));
        let e6 = spec_encode_field::<Option<u32>>(v.link_credit, fields_left(count, 6));
        let e7 = spec_encode_field::<Option<u32>>(v.available, fields_left(count, 7));
        let e8 = spec_encode_field::<bool>(v.drain, fields_left(count, 8));
        let e9 = spec_encode_field::<bool>(v.echo, fields_left(count, 9));
        let e10 = spec_encode_field::<Option<VariantMap>>(v.properties, fields_left(count, 10));
        let t10 = e10 + tail;
        let t9 = e9 + t10;
        let t8 = e8 + t9;
        let t7 = e7 + t8;
        let t6 = e6 + t7;
        let t5 = e5 + t6;
        let t4 = e4 + t5;
        let t3 = e3 + t4;
        let t2 = e2 + t3;
        let t1 = e1 + t2;
        assert(Self::spec_encode_fields(v, count) + tail =~= e0 + t1);
        lemma_optional_field_round_trip::<u32>(v.next_incoming_id, count, t1);
        lemma_required_field_round_trip::<u32>(
            v.incoming_window,
            "incoming_window",
            fields_left(count, 1),
            t2,
        );
        lemma_required_field_round_trip::<u32>(
            v.next_outgoing_id,
            "next_outgoing_id",
            fields_left(count, 2),
            t3,
        );
        lemma_required_field_round_trip::<u32>(
            v.outgoing_window,
            "outgoing_window",
            fields_left(count, 3),
            t4,
        );
        lemma_optional_field_round_trip::<u32>(v.handle, fields_left(count, 4), t5);
        lemma_optional_field_round_trip::<u32>(v.delivery_count, fields_left(count, 5), t6);
        lemma_optional_field_round_trip::<u32>(v.link_credit, fields_left(count, 6), t7);
        lemma_optional_field_round_trip::<u32>(v.available, fields_left(count, 7), t8);
        lemma_default_field_round_trip::<bool>(v.drain, false, fields_left(count, 8), t9);
        lemma_default_field_round_trip::<bool>(v.echo, false, fields_left(count, 9), t10);
        lemma_optional_field_round_trip::<VariantMap>(v.properties, fields_left(count, 10), tail);
    }
}

impl DescribedList for Flow {
    fn descriptor() -> (d: (u64, &'static str)) {
        (descriptor_code(0, 0x13), "amqp:flow:list")
    }

    open spec fn spec_decode_list(input: Seq<u8>, fmt: u8) -> Decoded<FlowView> {
        match spec_decode_list_header(input, fmt) {
            Ok((rest, header)) => Self::spec_decode_fields(rest, header.count as nat),
            Err(e) => Err(e),
        }
    }

    proof fn list_leaves_suffix(input: Seq<u8>, fmt: u8) {
        reveal(Flow::spec_decode_fields);
        if let Ok((r0, header)) = spec_decode_list_header(input, fmt) {
            let c0 = header.count as nat;
            lemma_field_leaves_suffix::<u32>(r0, c0, arbitrary(), "next_incoming_id");
            if let Ok((r1, c1, _)) = spec_decode_optional_field::<u32>(r0, c0) {
                lemma_suffix_of_suffix(r1, r0, input);
                lemma_field_leaves_suffix::<u32>(r1, c1, arbitrary(), "incoming_window");
                if let Ok((r2, c2, _)) = spec_decode_required_field::<u32>(
                    r1,
                    c1,
                    "incoming_window",
                ) {
                    lemma_suffix_of_suffix(r2, r1, input);
                    lemma_field_leaves_suffix::<u32>(r2, c2, arbitrary(), "next_outgoing_id");
                    if let Ok((r3, c3, _)) = spec_decode_required_field::<u32>(
                        r2,
                        c2,
                        "next_outgoing_id",
                    ) {
                        lemma_suffix_of_suffix(r3, r2, input);
                        lemma_field_leaves_suffix::<u32>(r3, c3, arbitrary(), "outgoing_window");
                        if let Ok((r4, c4, _)) = spec_decode_required_field::<u32>(
                            r3,
                            c3,
                            "outgoing_window",
                        ) {
                            lemma_suffix_of_suffix(r4, r3, input);
                            lemma_field_leaves_suffix::<u32>(r4, c4, arbitrary(), "handle");
                            if let Ok((r5, c5, _)) = spec_decode_optional_field::<u32>(r4, c4) {
                                lemma_suffix_of_suffix(r5, r4, input);
                                lemma_field_leaves_suffix::<u32>(
                                    r5,
                                    c5,
                                    arbitrary(),
                                    "delivery_count",
                                );
                                if let Ok((r6, c6, _)) = spec_decode_optional_field::<u32>(r5, c5) {
                                    lemma_suffix_of_suffix(r6, r5, input);
                                    lemma_field_leaves_suffix::<u32>(
                                        r6,
                                        c6,
                                        arbitrary(),
                                        "link_credit",
                                    );
                                    if let Ok((r7, c7, _)) = spec_decode_optional_field::<u32>(
                                        r6,
                                        c6,
                                    ) {
                                        lemma_suffix_of_suffix(r7, r6, input);
                                        lemma_field_leaves_suffix::<u32>(
                                            r7,
                                            c7,
                                            arbitrary(),
                                            "available",
                                        );
                                        if let Ok((r8, c8, _)) = spec_decode_optional_field::<u32>(
                                            r7,
                                            c7,
                                        ) {
                                            lemma_suffix_of_suffix(r8, r7, input);
                                            lemma_field_leaves_suffix::<bool>(
                                                r8,
                                                c8,
                                                false,
                                                "drain",
                                            );
                                            if let Ok((r9, c9, _)) = spec_decode_default_field::<bool>(
                                                r8,
                                                c8,
                                                false,
                                            ) {
                                                lemma_suffix_of_suffix(r9, r8, input);
                                                lemma_field_leaves_suffix::<bool>(
                                                    r9,
                                                    c9,
                                                    false,
                                                    "echo",
                                                );
                                                if let Ok((r10, c10, _)) = spec_decode_default_field::<bool>(
                                                    r9,
                                                    c9,
                                                    false,
                                                ) {
                                                    lemma_suffix_of_suffix(r10, r9, input);
                                                    lemma_field_leaves_suffix::<VariantMap>(
                                                        r10,
                                                        c10,
                                                        arbitrary(),
                                                        "properties",
                                                    );
                                                    if let Ok((r11, c11, _)) = spec_decode_optional_field::<VariantMap>(
                                                        r10,
                                                        c10,
                                                    ) {
                                                        lemma_suffix_of_suffix(r11, r10, input);
                                                    }
                                                }
                                            }
                                        }
                                    }
                                }
                            }
                        }
                    }
                }
            }
        }
    }

    fn decode_list<'a>(input: &'a [u8], fmt: u8) -> (r: Result<(&'a [u8], Flow), Error>) {
        proof {
            reveal(Flow::spec_decode_fields);
        }
        let (input, header) = decode_list_header(input, fmt)?;
        let count: u32 = header.count;
        let (input, count, next_incoming_id) = decode_optional_field::<u32>(input, count)?;
        let (input, count, incoming_window) = decode_required_field::<u32>(
            input,
            count,
            "incoming_window",
        )?;
        let (input, count, next_outgoing_id) = decode_required_field::<u32>(
            input,
            count,
            "next_outgoing_id",
        )?;
        let (input, count, outgoing_window) = decode_required_field::<u32>(
            input,
            count,
            "outgoing_window",
        )?;
        let (input, count, handle) = decode_optional_field::<u32>(input, count)?;
        let (input, count, delivery_count) = decode_optional_field::<u32>(input, count)?;
        let (input, count, link_credit) = decode_optional_field::<u32>(input, count)?;
        let (input, count, available) = decode_optional_field::<u32>(input, count)?;
        let (input, count, drain) = decode_default_field::<bool>(input, count, false)?;
        let (input, count, echo) = decode_default_field::<bool>(input, count, false)?;
        let (input, _, properties) = decode_optional_field::<VariantMap>(input, count)?;
        Ok(
            (
                input,
                Flow {
                    next_incoming_id,
                    incoming_window,
                    next_outgoing_id,
                    outgoing_window,
                    handle,
                    delivery_count,
                    link_credit,
                    available,
                    drain,
                    echo,
                    properties,
                },
            ),
        )
    }

    open spec fn list_encodable(v: FlowView) -> bool {
        Flow::fits(v)
    }

    open spec fn spec_encode_list(v: FlowView) -> Seq<u8> {
        spec_list_header(
            Self::spec_encode_fields(v, Self::spec_field_count(v)).len(),
            Self::spec_field_count(v),
        ) + Self::spec_encode_fields(v, Self::spec_field_count(v))
    }

    fn list_encoded_size(&self) -> (n: usize) {
        let count: u32 = self.field_count();
        let na = self.fields_encoded_size_a(count);
        let nb = self.fields_encoded_size_b(count);
        let nc = self.fields_encoded_size_c(count);
        let content_len = na + nb + nc;
        list_header_size(content_len, count) + content_len
    }

    fn list_size_within(&self, limit: usize) -> (size: Option<usize>) {
        let count: u32 = self.field_count();
        let most: usize = if limit < 0xffff_fffb {
            limit
        } else {
            0xffff_fffb
        };
        let na = match self.fields_size_within_a(count, most) {
            Some(n) => n,
            None => {
                return None;
            },
        };
        let nb = match self.fields_size_within_b(count, most - na) {
            Some(n) => n,
            None => {
                return None;
            },
        };
        let nc = match self.fields_size_within_c(count, most - na - nb) {
            Some(n) => n,
            None => {
                return None;
            },
        };
        let content_len = na + nb + nc;
        let header: usize = list_header_size(content_len, count);
        if limit - content_len < header {
            None
        } else {
            Some(content_len + header)
        }
    }

    fn encode_list(&self, buf: &mut BytesMut) {
        let count: u32 = self.field_count();
        let na = self.fields_encoded_size_a(count);
        let nb = self.fields_encoded_size_b(count);
        let nc = self.fields_encoded_size_c(count);
        let content_len = na + nb + nc;
        put_list_header(buf, content_len, count);
        self.encode_fields_a(count, buf);
        self.encode_fields_b(count, buf);
        self.encode_fields_c(count, buf);
        assert(buf_bytes(*buf) =~= buf_bytes(*old(buf)) + Self::spec_encode_list(
            self.deep_view(),
        ));
    }

    open spec fn list_round_trips(v: FlowView) -> bool {
        Flow::comes_back(v)
    }

    proof fn law_list_round_trip(v: FlowView, tail: Seq<u8>) {
        let count = Self::spec_field_count(v);
        let content = Self::spec_encode_fields(v, count);
        let header = spec_list_header(content.len(), count);
        assert(Self::spec_encode_list(v) + tail =~= header + (content + tail));
        lemma_list_header_round_trip(content.len(), count, content + tail);
        Self::lemma_fields_round_trip(v, count, tail);
    }
}

impl DecodeFormatted for Flow {
    open spec fn spec_decode_with_format(input: Seq<u8>, fmt: u8) -> Decoded<FlowView> {
        spec_decode_described::<Flow>(input, fmt)
    }

    proof fn decoding_leaves_suffix(input: Seq<u8>, fmt: u8) {
        lemma_described_leaves_suffix::<Flow>(input, fmt);
    }

    fn decode_with_format<'a>(input: &'a [u8], fmt: u8) -> (r: Result<(&'a [u8], Self), Error>) {
        decode_described::<Flow>(input, fmt)
    }
}

impl Encode for Flow {
    open spec fn encodable(v: FlowView) -> bool {
        Flow::fits(v)
    }

    open spec fn spec_encode(v: FlowView) -> Seq<u8> {
        spec_encode_described::<Flow>(v)
    }

    fn encoded_size(&self) -> (n: usize) {
        described_encoded_size::<Flow>(self)
    }

    fn size_within(&self, limit: usize) -> (size: Option<usize>) {
        described_size_within::<Flow>(self, limit)
    }

    fn encode(&self, buf: &mut BytesMut) {
        encode_described::<Flow>(self, buf)
    }
}

impl RoundTrip for Flow {
    open spec fn round_trips(v: FlowView) -> bool {
        Flow::comes_back(v)
    }

    proof fn law_round_trip(v: FlowView, tail: Seq<u8>) {
        lemma_described_round_trip::<Flow>(v, tail);
    }
}

} // verus!
