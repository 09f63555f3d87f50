//! The packet buffer: a growable byte buffer (`bytes::BytesMut`) that
//! handlers write little-endian fields into and read them back from.
use crate::codec::{i16_of_le, i32_of_le, le_i16, le_i32, le_i64};
use bytes::{Buf, BufMut, Bytes, BytesMut};
use crate::text::{hex_byte, push_char, push_hex_byte};
use vstd::prelude::*;
use vstd::slice::slice_subrange;
use vstd::string::StringSliceAdditionalSpecFns;
use vstd::utf8::*;

verus! {

// ---------------------------------------------------------------------------
// The outside buffer types and what they hold
// ---------------------------------------------------------------------------

#[verifier::external_type_specification]
#[verifier::external_body]
pub struct ExBytesMut(BytesMut);

#[verifier::external_type_specification]
#[verifier::external_body]
pub struct ExBytes(Bytes);

/// The bytes a `BytesMut` holds, front to back (from its read position to its end).
pub uninterp spec fn buffer_contents(b: BytesMut) -> Seq<u8>;

/// The bytes a frozen `Bytes` holds, front to back.
pub uninterp spec fn frozen_contents(b: Bytes) -> Seq<u8>;

/// Largest number of bytes a `BytesMut` may hold: its writers reserve room up to
/// `isize::MAX` bytes and panic past it.
pub open spec fn buffer_fits(len: nat) -> bool {
    len <= isize::MAX
}

/// `Clone` for `BytesMut`: a copy holding the same bytes.
pub assume_specification[ <BytesMut as Clone>::clone ](b: &BytesMut) -> (r: BytesMut)
    ensures
        buffer_contents(r) == buffer_contents(*b),
;

/// `BytesMut::with_capacity`: a new, empty buffer.
#[verifier::external_body]
fn buffer_with_capacity(capacity: usize) -> (b: BytesMut)
    requires
        capacity <= isize::MAX,
    ensures
        buffer_contents(b) == Seq::<u8>::empty(),
{
    BytesMut::with_capacity(capacity)
}

/// `BufMut::put_u8` on a `BytesMut`: appends one byte.
#[verifier::external_body]
fn buffer_put_u8(b: &mut BytesMut, byte: u8)
    requires
        buffer_fits(buffer_contents(*old(b)).len() + 1),
    ensures
        buffer_contents(*final(b)) == buffer_contents(*old(b)).push(byte),
{
    b.put_u8(byte)
}

/// `BufMut::put_slice` on a `BytesMut`: appends the slice's bytes.
#[verifier::external_body]
fn buffer_put_slice(b: &mut BytesMut, src: &[u8])
    requires
        buffer_fits(buffer_contents(*old(b)).len() + src@.len()),
    ensures
        buffer_contents(*final(b)) == buffer_contents(*old(b)) + src@,
{
    b.put_slice(src)
}

/// `BufMut::put_i16_le` on a `BytesMut`: appends the value's two little-endian bytes.
#[verifier::external_body]
fn buffer_put_i16_le(b: &mut BytesMut, v: i16)
    requires
        buffer_fits(buffer_contents(*old(b)).len() + 2),
    ensures
        buffer_contents(*final(b)) == buffer_contents(*old(b)) + le_i16(v),
{
    b.put_i16_le(v)
}

/// `BufMut::put_i32_le` on a `BytesMut`: appends the value's four little-endian bytes.
#[verifier::external_body]
fn buffer_put_i32_le(b: &mut BytesMut, v: i32)
    requires
        buffer_fits(buffer_contents(*old(b)).len() + 4),
    ensures
        buffer_contents(*final(b)) == buffer_contents(*old(b)) + le_i32(v),
{
    b.put_i32_le(v)
}

/// `BufMut::put_i64_le` on a `BytesMut`: appends the value's eight little-endian bytes.
#[verifier::external_body]
fn buffer_put_i64_le(b: &mut BytesMut, v: i64)
    requires
        buffer_fits(buffer_contents(*old(b)).len() + 8),
    ensures
        buffer_contents(*final(b)) == buffer_contents(*old(b)) + le_i64(v),
{
    b.put_i64_le(v)
}

/// `Buf::get_u8` on a `BytesMut`: takes the first byte off the front.
#[verifier::external_body]
fn buffer_get_u8(b: &mut BytesMut) -> (r: u8)
    requires
        buffer_contents(*old(b)).len() >= 1,
    ensures
        r == buffer_contents(*old(b))[0],
        buffer_contents(*final(b)) == buffer_contents(*old(b)).skip(1),
{
    b.get_u8()
}

/// `Buf::get_i16_le` on a `BytesMut`: takes two bytes off the front, read little endian.
#[verifier::external_body]
fn buffer_get_i16_le(b: &mut BytesMut) -> (r: i16)
    requires
        buffer_contents(*old(b)).len() >= 2,
    ensures
        r == i16_of_le(buffer_contents(*old(b))),
        buffer_contents(*final(b)) == buffer_contents(*old(b)).skip(2),
{
    b.get_i16_le()
}

/// `Buf::get_i32_le` on a `BytesMut`: takes four bytes off the front, read little endian.
#[verifier::external_body]
fn buffer_get_i32_le(b: &mut BytesMut) -> (r: i32)
    requires
        buffer_contents(*old(b)).len() >= 4,
    ensures
        r == i32_of_le(buffer_contents(*old(b))),
        buffer_contents(*final(b)) == buffer_contents(*old(b)).skip(4),
{
    b.get_i32_le()
}

/// `BytesMut::split_to`: splits off and returns the first `at` bytes.
#[verifier::external_body]
fn buffer_split_to(b: &mut BytesMut, at: usize) -> (front: BytesMut)
    requires
        at <= buffer_contents(*old(b)).len(),
    ensures
        buffer_contents(front) == buffer_contents(*old(b)).take(at as int),
        buffer_contents(*final(b)) == buffer_contents(*old(b)).skip(at as int),
{
    b.split_to(at)
}

/// `BytesMut::freeze`: the same bytes as an immutable `Bytes`.
#[verifier::external_body]
fn buffer_freeze(b: BytesMut) -> (r: Bytes)
    ensures
        frozen_contents(r) == buffer_contents(b),
{
    b.freeze()
}

/// `Buf::advance` on a `BytesMut`: drops `n` bytes from the front.
#[verifier::external_body]
fn buffer_advance(b: &mut BytesMut, n: usize)
    requires
        n <= buffer_contents(*old(b)).len(),
    ensures
        buffer_contents(*final(b)) == buffer_contents(*old(b)).skip(n as int),
{
    b.advance(n)
}

/// `BytesMut::len`: the number of bytes held.
#[verifier::external_body]
fn buffer_len(b: &BytesMut) -> (r: usize)
    ensures
        r == buffer_contents(*b).len(),
{
    b.len()
}

/// `Buf::remaining` on a `BytesMut`: the number of bytes left to read.
#[verifier::external_body]
fn buffer_remaining(b: &BytesMut) -> (r: usize)
    ensures
        r == buffer_contents(*b).len(),
{
    b.remaining()
}

/// `BytesMut` as a byte slice (its `Deref`).
#[verifier::external_body]
fn buffer_as_slice(b: &BytesMut) -> (r: &[u8])
    ensures
        r@ == buffer_contents(*b),
{
    b.as_ref()
}

/// `std::str::from_utf8` followed by an owned copy: decodes valid UTF-8 bytes.
#[verifier::external_body]
fn utf8_to_string(bytes: &[u8]) -> (s: String)
    requires
        valid_utf8(bytes@),
    ensures
        s@ == decode_utf8(bytes@),
{
    std::str::from_utf8(bytes).unwrap().to_string()
}

// ---------------------------------------------------------------------------
// Packet
// ---------------------------------------------------------------------------

/// A game packet: the bytes still to be read (or written so far), and whether
/// the stream should encrypt it when sending.
#[derive(Clone, Debug)]
pub struct Packet {
    pub bytes: BytesMut,
    pub use_encryption: bool,
}

impl View for Packet {
    type V = Seq<u8>;

    open spec fn view(&self) -> Seq<u8> {
        buffer_contents(self.bytes)
    }
}

impl Packet {
    /// There is room for `n` more bytes.
    pub open spec fn has_room(&self, n: nat) -> bool {
        buffer_fits(self@.len() + n)
    }

    /// A new packet that starts with the given op code.
    pub fn new(op_code: i16) -> (packet: Self)
        ensures
            packet@ == le_i16(op_code),
            packet.use_encryption,
    {
        let mut packet = Self { bytes: buffer_with_capacity(1024), use_encryption: true };
        packet.write_short(op_code);
        proof {
            assert(packet@ =~= le_i16(op_code));
        }
        packet
    }

    /// A packet holding the given bytes.
    pub fn wrap(bytes: BytesMut) -> (packet: Self)
        ensures
            packet@ == buffer_contents(bytes),
            packet.use_encryption,
    {
        Self { bytes, use_encryption: true }
    }

    /// A packet with no bytes.
    pub fn empty() -> (packet: Self)
        ensures
            packet@ == Seq::<u8>::empty(),
            packet.use_encryption,
    {
        Self { bytes: buffer_with_capacity(1024), use_encryption: true }
    }

    pub fn write_byte(&mut self, byte: u8)
        requires
            old(self).has_room(1),
        ensures
            final(self)@ == old(self)@.push(byte),
            final(self).use_encryption == old(self).use_encryption,
    {
        buffer_put_u8(&mut self.bytes, byte);
    }

    pub fn write_bytes(&mut self, bytes: &[u8])
        requires
            old(self).has_room(bytes@.len()),
        ensures
            final(self)@ == old(self)@ + bytes@,
            final(self).use_encryption == old(self).use_encryption,
    {
        buffer_put_slice(&mut self.bytes, bytes);
    }

    pub fn write_short(&mut self, value: i16)
        requires
            old(self).has_room(2),
        ensures
            final(self)@ == old(self)@ + le_i16(value),
            final(self).use_encryption == old(self).use_encryption,
    {
        buffer_put_i16_le(&mut self.bytes, value);
    }

    pub fn write_int(&mut self, value: i32)
        requires
            old(self).has_room(4),
        ensures
            final(self)@ == old(self)@ + le_i32(value),
            final(self).use_encryption == old(self).use_encryption,
    {
        buffer_put_i32_le(&mut self.bytes, value);
    }

    pub fn write_long(&mut self, value: i64)
        requires
            old(self).has_room(8),
        ensures
            final(self)@ == old(self)@ + le_i64(value),
            final(self).use_encryption == old(self).use_encryption,
    {
        buffer_put_i64_le(&mut self.bytes, value);
    }

    /// Writes the string's UTF-8 byte length (as a 16-bit value, truncated) and then its bytes.
    pub fn write_string(&mut self, string: &str)
        requires
            old(self).has_room(2 + string.spec_bytes().len()),
        ensures
            final(self)@ == old(self)@ + string_field(string@),
            final(self).use_encryption == old(self).use_encryption,
    {
        let bytes = string.as_bytes();
        self.write_short(bytes.len() as i16);
        self.write_bytes(bytes);
        proof {
            assert(final(self)@ =~= old(self)@ + string_field(string@));
        }
    }

    /// Writes the string's UTF-8 bytes with no length in front.
    pub fn write_fixed_string(&mut self, string: &str)
        requires
            old(self).has_room(string.spec_bytes().len()),
        ensures
            final(self)@ == old(self)@ + encode_utf8(string@),
            final(self).use_encryption == old(self).use_encryption,
    {
        self.write_bytes(string.as_bytes());
    }

    /// Writes a position as two 16-bit values (each coordinate truncated).
    pub fn write_position(&mut self, pos: (i32, i32))
        requires
            old(self).has_room(4),
        ensures
            final(self)@ == old(self)@ + position_field(pos),
            final(self).use_encryption == old(self).use_encryption,
    {
        self.write_short(pos.0 as i16);
        self.write_short(pos.1 as i16);
        proof {
            assert(final(self)@ =~= old(self)@ + position_field(pos));
        }
    }

    pub fn read_byte(&mut self) -> (byte: u8)
        requires
            old(self)@.len() >= 1,
        ensures
            byte == old(self)@[0],
            final(self)@ == old(self)@.skip(1),
            final(self).use_encryption == old(self).use_encryption,
    {
        buffer_get_u8(&mut self.bytes)
    }

    pub fn read_bytes(&mut self, len: usize) -> (bytes: Bytes)
        requires
            len <= old(self)@.len(),
        ensures
            frozen_contents(bytes) == old(self)@.take(len as int),
            final(self)@ == old(self)@.skip(len as int),
            final(self).use_encryption == old(self).use_encryption,
    {
        buffer_freeze(buffer_split_to(&mut self.bytes, len))
    }

    pub fn read_short(&mut self) -> (value: i16)
        requires
            old(self)@.len() >= 2,
        ensures
            value == i16_of_le(old(self)@),
            final(self)@ == old(self)@.skip(2),
            final(self).use_encryption == old(self).use_encryption,
    {
        buffer_get_i16_le(&mut self.bytes)
    }

    pub fn read_int(&mut self) -> (value: i32)
        requires
            old(self)@.len() >= 4,
        ensures
            value == i32_of_le(old(self)@),
            final(self)@ == old(self)@.skip(4),
            final(self).use_encryption == old(self).use_encryption,
    {
        buffer_get_i32_le(&mut self.bytes)
    }

    /// Reads a 16-bit length, then that many bytes of UTF-8 text.
    pub fn read_string(&mut self) -> (string: String)
        requires
            string_field_readable(old(self)@),
        ensures
            string@ == string_field_text(old(self)@),
            final(self)@ == old(self)@.skip(string_field_len(old(self)@)),
            final(self).use_encryption == old(self).use_encryption,
    {
        let len = self.read_short() as usize;
        let bytes = buffer_split_to(&mut self.bytes, len);
        let slice = buffer_as_slice(&bytes);
        proof {
            assert(self@ =~= old(self)@.skip(string_field_len(old(self)@)));
            assert(slice@ =~= old(self)@.subrange(2, string_field_len(old(self)@)));
        }
        utf8_to_string(slice)
    }

    pub fn skip(&mut self, num: usize)
        requires
            num <= old(self)@.len(),
        ensures
            final(self)@ == old(self)@.skip(num as int),
            final(self).use_encryption == old(self).use_encryption,
    {
        buffer_advance(&mut self.bytes, num)
    }

    pub fn len(&self) -> (len: usize)
        ensures
            len == self@.len(),
    {
        buffer_len(&self.bytes)
    }

    /// The bytes as upper-case hexadecimal pairs, comma separated, in brackets
    /// (what the packet logs show, e.g. `[0A, 00]`).
    pub fn to_hex_string(&self) -> (text: String)
        ensures
            text@ == hex_listing(self@),
    {
        let bytes = buffer_as_slice(&self.bytes);
        let len = bytes.len();
        let mut text = String::new();
        push_char(&mut text, '[');
        let mut i: usize = 0;
        while i < len
            invariant
                len == bytes@.len(),
                bytes@ == self@,
                i <= len,
                text@ == seq!['['] + hex_items(bytes@.take(i as int)),
            decreases len - i,
        {
            if i != 0 {
                push_char(&mut text, ',');
                push_char(&mut text, ' ');
            }
            push_hex_byte(&mut text, bytes[i]);
            proof {
                assert(bytes@.take(i + 1).drop_last() =~= bytes@.take(i as int));
                assert(text@ =~= seq!['['] + hex_items(bytes@.take(i + 1)));
            }
            i += 1;
        }
        push_char(&mut text, ']');
        proof {
            assert(bytes@.take(len as int) =~= bytes@);
            assert(text@ =~= hex_listing(self@));
        }
        text
    }

    pub fn remaining(&self) -> (remaining: usize)
        ensures
            remaining == self@.len(),
    {
        buffer_remaining(&self.bytes)
    }
}

/// The bytes a packet holds.
pub(crate) fn packet_bytes(packet: &Packet) -> (bytes: &[u8])
    ensures
        bytes@ == packet@,
{
    buffer_as_slice(&packet.bytes)
}

/// Whether the packet starts with a readable string field: a non-negative
/// 16-bit length, that many bytes, and valid UTF-8 in them.
pub fn has_string_field(packet: &Packet) -> (readable: bool)
    ensures
        readable == string_field_readable(packet@),
{
    let bytes = buffer_as_slice(&packet.bytes);
    if bytes.len() < 2 {
        return false;
    }
    let len16: i16 = (bytes[0] as u16 + 256 * (bytes[1] as u16)) as i16;
    proof {
        assert(len16 == i16_of_le(packet@));
    }
    if len16 < 0 {
        return false;
    }
    let end: usize = 2 + len16 as usize;
    if end > bytes.len() {
        return false;
    }
    let field = slice_subrange(bytes, 2, end);
    proof {
        assert(field@ =~= packet@.subrange(2, string_field_len(packet@)));
    }
    is_valid_utf8(field)
}

/// Whether the bytes are valid UTF-8 (`std::str::from_utf8` succeeds).
#[verifier::external_body]
fn is_valid_utf8(bytes: &[u8]) -> (valid: bool)
    ensures
        valid == valid_utf8(bytes@),
{
    std::str::from_utf8(bytes).is_ok()
}

// ---------------------------------------------------------------------------
// Field encodings
// ---------------------------------------------------------------------------

/// Hexadecimal pairs of the bytes, separated by `", "`.
pub open spec fn hex_items(s: Seq<u8>) -> Seq<char>
    decreases s.len(),
{
    if s.len() == 0 {
        Seq::empty()
    } else if s.len() == 1 {
        hex_byte(s[0])
    } else {
        hex_items(s.drop_last()) + seq![',', ' '] + hex_byte(s.last())
    }
}

/// Hexadecimal listing of the bytes in brackets.
pub open spec fn hex_listing(s: Seq<u8>) -> Seq<char> {
    seq!['['] + hex_items(s) + seq![']']
}

/// A length-prefixed string field: the UTF-8 byte length as a 16-bit value, then the bytes.
pub open spec fn string_field(text: Seq<char>) -> Seq<u8> {
    le_i16(encode_utf8(text).len() as i16) + encode_utf8(text)
}

/// A position field: both coordinates as (truncated) 16-bit values.
pub open spec fn position_field(pos: (i32, i32)) -> Seq<u8> {
    le_i16(pos.0 as i16) + le_i16(pos.1 as i16)
}

/// The number of bytes a string field at the front of `s` takes, length prefix included.
pub open spec fn string_field_len(s: Seq<u8>) -> int {
    2 + i16_of_le(s)
}

/// A string field can be read from the front of `s`: the length is there, is not
/// negative, the bytes are there, and they are valid UTF-8.
pub open spec fn string_field_readable(s: Seq<u8>) -> bool {
    &&& s.len() >= 2
    &&& i16_of_le(s) >= 0
    &&& string_field_len(s) <= s.len()
    &&& valid_utf8(s.subrange(2, string_field_len(s)))
}

/// The text of the string field at the front of `s`.
pub open spec fn string_field_text(s: Seq<u8>) -> Seq<char> {
    decode_utf8(s.subrange(2, string_field_len(s)))
}


// ---------------------------------------------------------------------------
// What a read gives back of a write
// ---------------------------------------------------------------------------

/// A string field written in front of any bytes reads back as the same text, and
/// reading it leaves exactly the bytes that followed it (for texts whose UTF-8
/// encoding is shorter than 32768 bytes, so that the 16-bit length is not truncated).
pub proof fn lemma_string_field_round_trip(text: Seq<char>, rest: Seq<u8>)
    requires
        encode_utf8(text).len() < 32768,
    ensures
        string_field_readable(string_field(text) + rest),
        string_field_text(string_field(text) + rest) == text,
        (string_field(text) + rest).skip(string_field_len(string_field(text) + rest)) == rest,
{
    let bytes = encode_utf8(text);
    let n = bytes.len() as i16;
    let s = string_field(text) + rest;
    crate::codec::lemma_i16_round_trip(n, bytes + rest);
    assert(s =~= le_i16(n) + (bytes + rest));
    assert(i16_of_le(s) == bytes.len());
    assert(s.subrange(2, string_field_len(s)) =~= bytes);
    encode_utf8_valid_utf8(text);
    encode_utf8_decode_utf8(text);
    assert(s.skip(string_field_len(s)) =~= rest);
}

/// A 16-bit value written in front of any bytes reads back as the same value.
pub proof fn lemma_short_field_round_trip(v: i16, rest: Seq<u8>)
    ensures
        i16_of_le(le_i16(v) + rest) == v,
        (le_i16(v) + rest).skip(2) == rest,
{
    crate::codec::lemma_i16_round_trip(v, rest);
}

/// A 32-bit value written in front of any bytes reads back as the same value.
pub proof fn lemma_int_field_round_trip(v: i32, rest: Seq<u8>)
    ensures
        i32_of_le(le_i32(v) + rest) == v,
        (le_i32(v) + rest).skip(4) == rest,
{
    crate::codec::lemma_i32_round_trip(v, rest);
}

} // verus!
