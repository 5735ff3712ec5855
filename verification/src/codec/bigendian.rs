//! Integers as big-endian bytes, the byte order of every AMQP number.

use vstd::prelude::*;

verus! {

/// The number that two bytes hold, most significant byte first.
pub open spec fn be_u16(b: Seq<u8>) -> u16
    recommends
        b.len() >= 2,
{
    (b[0] as int * 0x100 + b[1] as int) as u16
}

/// The number that four bytes hold, most significant byte first.
pub open spec fn be_u32(b: Seq<u8>) -> u32
    recommends
        b.len() >= 4,
{
    (b[0] as int * 0x100_0000 + b[1] as int * 0x1_0000 + b[2] as int * 0x100 + b[3] as int) as u32
}

/// The number that eight bytes hold, most significant byte first.
pub open spec fn be_u64(b: Seq<u8>) -> u64
    recommends
        b.len() >= 8,
{
    (be_u32(b.subrange(0, 4)) as int * 0x1_0000_0000 + be_u32(b.subrange(4, 8)) as int) as u64
}

/// The two bytes of a number, most significant byte first.
pub open spec fn u16_be(v: u16) -> Seq<u8> {
    seq![(v / 0x100) as u8, (v % 0x100) as u8]
}

/// The four bytes of a number, most significant byte first.
pub open spec fn u32_be(v: u32) -> Seq<u8> {
    seq![
        (v / 0x100_0000) as u8,
        (v / 0x1_0000 % 0x100) as u8,
        (v / 0x100 % 0x100) as u8,
        (v % 0x100) as u8,
    ]
}

/// The eight bytes of a number, most significant byte first.
pub open spec fn u64_be(v: u64) -> Seq<u8> {
    u32_be((v / 0x1_0000_0000) as u32) + u32_be((v % 0x1_0000_0000) as u32)
}

/// A byte read as a two's complement number.
pub open spec fn i8_of(v: u8) -> i8 {
    if v < 0x80 {
        v as i8
    } else {
        (v - 0x100) as i8
    }
}

/// Sixteen bits read as a two's complement number.
pub open spec fn i16_of(v: u16) -> i16 {
    if v < 0x8000 {
        v as i16
    } else {
        (v - 0x1_0000) as i16
    }
}

/// Thirty-two bits read as a two's complement number.
pub open spec fn i32_of(v: u32) -> i32 {
    if v < 0x8000_0000 {
        v as i32
    } else {
        (v - 0x1_0000_0000) as i32
    }
}

/// Sixty-four bits read as a two's complement number.
pub open spec fn i64_of(v: u64) -> i64 {
    if v < 0x8000_0000_0000_0000 {
        v as i64
    } else {
        (v - 0x1_0000_0000_0000_0000) as i64
    }
}

/// The byte that holds a number in two's complement.
pub open spec fn u8_of(v: i8) -> u8 {
    if v >= 0 {
        v as u8
    } else {
        (v + 0x100) as u8
    }
}

/// The sixteen bits that hold a number in two's complement.
pub open spec fn u16_of(v: i16) -> u16 {
    if v >= 0 {
        v as u16
    } else {
        (v + 0x1_0000) as u16
    }
}

/// The thirty-two bits that hold a number in two's complement.
pub open spec fn u32_of(v: i32) -> u32 {
    if v >= 0 {
        v as u32
    } else {
        (v + 0x1_0000_0000) as u32
    }
}

/// The sixty-four bits that hold a number in two's complement.
pub open spec fn u64_of(v: i64) -> u64 {
    if v >= 0 {
        v as u64
    } else {
        (v + 0x1_0000_0000_0000_0000) as u64
    }
}

/// Reading the bytes of a number gives the number back, whatever follows.
pub proof fn lemma_be_u16_of_bytes(v: u16, tail: Seq<u8>)
    ensures
        be_u16(u16_be(v) + tail) == v,
        u16_be(v).len() == 2,
{
}

pub proof fn lemma_be_u32_of_bytes(v: u32, tail: Seq<u8>)
    ensures
        be_u32(u32_be(v) + tail) == v,
        u32_be(v).len() == 4,
{
}

pub proof fn lemma_be_u64_of_bytes(v: u64, tail: Seq<u8>)
    ensures
        be_u64(u64_be(v) + tail) == v,
        u64_be(v).len() == 8,
{
    let hi = (v / 0x1_0000_0000) as u32;
    let lo = (v % 0x1_0000_0000) as u32;
    let all = u64_be(v) + tail;
    assert(all.subrange(0, 4) =~= u32_be(hi) + Seq::<u8>::empty());
    assert(all.subrange(4, 8) =~= u32_be(lo) + Seq::<u8>::empty());
    lemma_be_u32_of_bytes(hi, Seq::empty());
    lemma_be_u32_of_bytes(lo, Seq::empty());
}

/// Two's complement loses nothing, in either direction.
pub proof fn lemma_twos_complement(a: u8, b: u16, c: u32, d: u64, e: i8, f: i16, g: i32, h: i64)
    ensures
        u8_of(i8_of(a)) == a,
        u16_of(i16_of(b)) == b,
        u32_of(i32_of(c)) == c,
        u64_of(i64_of(d)) == d,
        i8_of(u8_of(e)) == e,
        i16_of(u16_of(f)) == f,
        i32_of(u32_of(g)) == g,
        i64_of(u64_of(h)) == h,
{
}

/// Reads a big-endian `u16` from the front of `input`.
pub fn read_be_u16(input: &[u8]) -> (v: u16)
    requires
        input@.len() >= 2,
    ensures
        v == be_u16(input@),
{
    (input[0] as u16) * 0x100 + (input[1] as u16)
}

/// Reads a big-endian `u32` from the front of `input`.
pub fn read_be_u32(input: &[u8]) -> (v: u32)
    requires
        input@.len() >= 4,
    ensures
        v == be_u32(input@),
{
    (input[0] as u32) * 0x100_0000 + (input[1] as u32) * 0x1_0000 + (input[2] as u32) * 0x100 + (
    input[3] as u32)
}

/// Reads a big-endian `u64` from the front of `input`.
pub fn read_be_u64(input: &[u8]) -> (v: u64)
    requires
        input@.len() >= 8,
    ensures
        v == be_u64(input@),
{
    let hi: u32 = read_be_u32(vstd::slice::slice_subrange(input, 0, 4));
    let lo: u32 = read_be_u32(vstd::slice::slice_subrange(input, 4, 8));
    (hi as u64) * 0x1_0000_0000 + (lo as u64)
}

/// The two bytes of `v`, most significant first.
pub fn be_bytes_u16(v: u16) -> (b: [u8; 2])
    ensures
        b@ == u16_be(v),
{
    let b: [u8; 2] = [(v / 0x100) as u8, (v % 0x100) as u8];
    assert(b@ =~= u16_be(v));
    b
}

/// The four bytes of `v`, most significant first.
pub fn be_bytes_u32(v: u32) -> (b: [u8; 4])
    ensures
        b@ == u32_be(v),
{
    let b: [u8; 4] = [
        (v / 0x100_0000) as u8,
        (v / 0x1_0000 % 0x100) as u8,
        (v / 0x100 % 0x100) as u8,
        (v % 0x100) as u8,
    ];
    assert(b@ =~= u32_be(v));
    b
}

/// The eight bytes of `v`, most significant first.
pub fn be_bytes_u64(v: u64) -> (b: [u8; 8])
    ensures
        b@ == u64_be(v),
{
    let hi: [u8; 4] = be_bytes_u32((v / 0x1_0000_0000) as u32);
    let lo: [u8; 4] = be_bytes_u32((v % 0x1_0000_0000) as u32);
    let b: [u8; 8] = [hi[0], hi[1], hi[2], hi[3], lo[0], lo[1], lo[2], lo[3]];
    assert(b@ =~= u64_be(v));
    b
}

/// `v` read as a two's complement number.
pub fn to_i8(v: u8) -> (r: i8)
    ensures
        r == i8_of(v),
{
    if v < 0x80 {
        v as i8
    } else {
        (v as i16 - 0x100) as i8
    }
}

pub fn to_i16(v: u16) -> (r: i16)
    ensures
        r == i16_of(v),
{
    if v < 0x8000 {
        v as i16
    } else {
        (v as i32 - 0x1_0000) as i16
    }
}

pub fn to_i32(v: u32) -> (r: i32)
    ensures
        r == i32_of(v),
{
    if v < 0x8000_0000 {
        v as i32
    } else {
        (v as i64 - 0x1_0000_0000) as i32
    }
}

pub fn to_i64(v: u64) -> (r: i64)
    ensures
        r == i64_of(v),
{
    if v < 0x8000_0000_0000_0000 {
        v as i64
    } else {
        (v as i128 - 0x1_0000_0000_0000_0000) as i64
    }
}

/// The bits that hold `v` in two's complement.
pub fn from_i8(v: i8) -> (r: u8)
    ensures
        r == u8_of(v),
{
    if v >= 0 {
        v as u8
    } else {
        (v as i16 + 0x100) as u8
    }
}

pub fn from_i16(v: i16) -> (r: u16)
    ensures
        r == u16_of(v),
{
    if v >= 0 {
        v as u16
    } else {
        (v as i32 + 0x1_0000) as u16
    }
}

pub fn from_i32(v: i32) -> (r: u32)
    ensures
        r == u32_of(v),
{
    if v >= 0 {
        v as u32
    } else {
        (v as i64 + 0x1_0000_0000) as u32
    }
}

pub fn from_i64(v: i64) -> (r: u64)
    ensures
        r == u64_of(v),
{
    if v >= 0 {
        v as u64
    } else {
        (v as i128 + 0x1_0000_0000_0000_0000) as u64
    }
}

} // verus!
