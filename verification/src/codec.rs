//! Little-endian encodings of the integers a packet carries, and the
//! decodings that read them back.
use vstd::prelude::*;

verus! {

/// The two little-endian bytes of a 16-bit value.
pub open spec fn le_u16(u: u16) -> Seq<u8> {
    seq![(u % 256) as u8, (u / 256) as u8]
}

/// The four little-endian bytes of a 32-bit value.
pub open spec fn le_u32(u: u32) -> Seq<u8> {
    seq![
        (u % 256) as u8,
        ((u / 256) % 256) as u8,
        ((u / 65536) % 256) as u8,
        (u / 16777216) as u8,
    ]
}

/// The eight little-endian bytes of a 64-bit value.
pub open spec fn le_u64(u: u64) -> Seq<u8> {
    le_u32((u % 4294967296) as u32) + le_u32((u / 4294967296) as u32)
}

/// Encoding of a signed 16-bit value (two's complement, little endian).
pub open spec fn le_i16(v: i16) -> Seq<u8> {
    le_u16(v as u16)
}

/// Encoding of a signed 32-bit value (two's complement, little endian).
pub open spec fn le_i32(v: i32) -> Seq<u8> {
    le_u32(v as u32)
}

/// Encoding of a signed 64-bit value (two's complement, little endian).
pub open spec fn le_i64(v: i64) -> Seq<u8> {
    le_u64(v as u64)
}

/// The unsigned value of the first two bytes, read little endian.
pub open spec fn u16_of_le(s: Seq<u8>) -> u16 {
    (s[0] + 256 * s[1]) as u16
}

/// The unsigned value of the first four bytes, read little endian.
pub open spec fn u32_of_le(s: Seq<u8>) -> u32 {
    (s[0] + 256 * s[1] + 65536 * s[2] + 16777216 * s[3]) as u32
}

/// The signed value of the first two bytes, read little endian.
pub open spec fn i16_of_le(s: Seq<u8>) -> i16 {
    u16_of_le(s) as i16
}

/// The signed value of the first four bytes, read little endian.
pub open spec fn i32_of_le(s: Seq<u8>) -> i32 {
    u32_of_le(s) as i32
}

/// Reading a 16-bit value back from its encoding gives the value, whatever follows it.
pub proof fn lemma_i16_round_trip(v: i16, rest: Seq<u8>)
    ensures
        i16_of_le(le_i16(v) + rest) == v,
        (le_i16(v) + rest).len() == rest.len() + 2,
        (le_i16(v) + rest).skip(2) == rest,
{
    let u = v as u16;
    assert((u as i16) == v) by (bit_vector)
        requires
            u == v as u16,
    ;
    let s = le_i16(v) + rest;
    assert(s[0] == (u % 256) as u8);
    assert(s[1] == (u / 256) as u8);
    assert(s[0] + 256 * s[1] == u);
    assert(s.skip(2) =~= rest);
}

/// Reading a 32-bit value back from its encoding gives the value, whatever follows it.
pub proof fn lemma_i32_round_trip(v: i32, rest: Seq<u8>)
    ensures
        i32_of_le(le_i32(v) + rest) == v,
        (le_i32(v) + rest).len() == rest.len() + 4,
        (le_i32(v) + rest).skip(4) == rest,
{
    let u = v as u32;
    assert((u as i32) == v) by (bit_vector)
        requires
            u == v as u32,
    ;
    let s = le_i32(v) + rest;
    let b0 = u % 256;
    let b1 = (u / 256) % 256;
    let b2 = (u / 65536) % 256;
    let b3 = u / 16777216;
    assert(s[0] == b0 && s[1] == b1 && s[2] == b2 && s[3] == b3);
    assert(b0 + 256 * b1 + 65536 * b2 + 16777216 * b3 == u) by (nonlinear_arith)
        requires
            b0 == u % 256,
            b1 == (u / 256) % 256,
            b2 == (u / 65536) % 256,
            b3 == u / 16777216,
    ;
    assert(s.skip(4) =~= rest);
}

/// Reading an unsigned byte-pair back from its encoding gives the value.
pub proof fn lemma_u16_round_trip(u: u16, rest: Seq<u8>)
    ensures
        u16_of_le(le_u16(u) + rest) == u,
{
    let s = le_u16(u) + rest;
    assert(s[0] + 256 * s[1] == u);
}

} // verus!
