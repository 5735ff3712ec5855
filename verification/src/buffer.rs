//! The byte buffer that the codec writes into and the frame decoder reads
//! from: `bytes::BytesMut`. Verus does not look inside it; what this module
//! states about it is taken on trust from the `bytes` crate.

use vstd::prelude::*;
use bytes::BytesMut;

verus! {

#[verifier::external_type_specification]
#[verifier::external_body]
pub struct ExBytesMut(bytes::BytesMut);

/// The most bytes that the codec lets a buffer hold: a quarter of the
/// address space. A buffer grows to the sum of the bytes held and the bytes
/// asked for, or to twice its capacity where that is more; up to this
/// limit neither is more than an allocation can have.
pub const BUF_MAX: usize = usize::MAX / 4;

/// The bytes that a buffer holds, first to last.
pub uninterp spec fn buf_bytes(buf: BytesMut) -> Seq<u8>;

/// `BytesMut::len`: the number of bytes held.
#[verifier::external_body]
pub(crate) fn buf_len(buf: &BytesMut) -> (n: usize)
    ensures
        n == buf_bytes(*buf).len(),
{
    buf.len()
}

/// `BytesMut::as_ref`: the bytes held, as a slice.
#[verifier::external_body]
pub(crate) fn buf_as_slice(buf: &BytesMut) -> (s: &[u8])
    ensures
        s@ == buf_bytes(*buf),
{
    buf.as_ref()
}

/// `BytesMut::reserve`: makes room for `additional` more bytes and leaves
/// the bytes held as they are. It panics where the new capacity is more
/// than an allocation can have. The precondition keeps the bytes held and
/// the bytes asked for within `BUF_MAX`; of the room that the buffer has
/// given up in front of its bytes, which counts towards the capacity and
/// is no part of the contents, nothing is stated.
#[verifier::external_body]
pub(crate) fn buf_reserve(buf: &mut BytesMut, additional: usize)
    requires
        buf_bytes(*old(buf)).len() + additional <= BUF_MAX,
    ensures
        buf_bytes(*final(buf)) == buf_bytes(*old(buf)),
{
    buf.reserve(additional)
}

/// `BytesMut::extend_from_slice`: appends `bytes`, growing the buffer where
/// it has to. It reserves first, so the precondition is that of `reserve`.
#[verifier::external_body]
pub(crate) fn buf_extend(buf: &mut BytesMut, bytes: &[u8])
    requires
        buf_bytes(*old(buf)).len() + bytes@.len() <= BUF_MAX,
    ensures
        buf_bytes(*final(buf)) == buf_bytes(*old(buf)) + bytes@,
{
    buf.extend_from_slice(bytes)
}

/// `BytesMut::split_to`: takes the first `at` bytes out of the buffer and
/// returns them; the buffer keeps the rest. It panics where `at` is beyond
/// the length.
#[verifier::external_body]
pub(crate) fn buf_split_to(buf: &mut BytesMut, at: usize) -> (front: BytesMut)
    requires
        at <= buf_bytes(*old(buf)).len(),
    ensures
        buf_bytes(front) == buf_bytes(*old(buf)).subrange(0, at as int),
        buf_bytes(*final(buf)) == buf_bytes(*old(buf)).subrange(
            at as int,
            buf_bytes(*old(buf)).len() as int,
        ),
{
    buf.split_to(at)
}

} // verus!
