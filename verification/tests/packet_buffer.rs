use bytes::BytesMut;
use slate::packet::{has_string_field, Packet};

fn bytes_of(packet: &Packet) -> Vec<u8> {
    packet.bytes.to_vec()
}

#[test]
fn new_packet_starts_with_op_code() {
    let packet = Packet::new(0x0A);
    assert_eq!(bytes_of(&packet), vec![0x0A, 0x00]);
    assert!(packet.use_encryption);
    assert_eq!(packet.len(), 2);
}

#[test]
fn empty_packet_has_no_bytes() {
    let packet = Packet::empty();
    assert_eq!(packet.len(), 0);
    assert_eq!(packet.remaining(), 0);
}

#[test]
fn wrap_keeps_bytes() {
    let packet = Packet::wrap(BytesMut::from(&[1u8, 2, 3][..]));
    assert_eq!(bytes_of(&packet), vec![1, 2, 3]);
    assert!(packet.use_encryption);
}

#[test]
fn writes_are_little_endian() {
    let mut packet = Packet::empty();
    packet.write_byte(0xAB);
    packet.write_short(-2);
    packet.write_int(0x01020304);
    packet.write_long(-1);
    packet.write_position((300, -2));
    assert_eq!(
        bytes_of(&packet),
        vec![
            0xAB, 0xFE, 0xFF, 0x04, 0x03, 0x02, 0x01, 0xFF, 0xFF, 0xFF, 0xFF, 0xFF, 0xFF, 0xFF,
            0xFF, 0x2C, 0x01, 0xFE, 0xFF
        ]
    );
}

#[test]
fn write_string_prefixes_byte_length() {
    let mut packet = Packet::empty();
    packet.write_string("héllo");
    assert_eq!(bytes_of(&packet), vec![6, 0, b'h', 0xC3, 0xA9, b'l', b'l', b'o']);
    let mut fixed = Packet::empty();
    fixed.write_fixed_string("ab");
    assert_eq!(bytes_of(&fixed), vec![b'a', b'b']);
}

#[test]
fn string_round_trip() {
    let mut packet = Packet::empty();
    packet.write_string("Maple");
    packet.write_byte(7);
    assert!(has_string_field(&packet));
    assert_eq!(packet.read_string(), "Maple");
    assert_eq!(packet.read_byte(), 7);
    assert_eq!(packet.remaining(), 0);
}

#[test]
fn short_and_int_round_trip() {
    let mut packet = Packet::empty();
    packet.write_short(-12345);
    packet.write_int(-987654321);
    packet.write_bytes(&[9, 8, 7]);
    assert_eq!(packet.read_short(), -12345);
    assert_eq!(packet.read_int(), -987654321);
    let rest = packet.read_bytes(2);
    assert_eq!(&rest[..], &[9, 8]);
    packet.skip(1);
    assert_eq!(packet.remaining(), 0);
}

#[test]
fn string_field_needs_its_bytes() {
    let mut packet = Packet::empty();
    packet.write_short(5);
    packet.write_bytes(b"abc");
    assert!(!has_string_field(&packet));
    let mut invalid = Packet::empty();
    invalid.write_short(1);
    invalid.write_byte(0xFF);
    assert!(!has_string_field(&invalid));
    let negative = Packet::wrap(BytesMut::from(&[0xFFu8, 0xFF][..]));
    assert!(!has_string_field(&negative));
}

#[test]
fn hex_listing_of_bytes() {
    let mut packet = Packet::new(0x0A);
    packet.write_byte(0xFF);
    assert_eq!(packet.to_hex_string(), "[0A, 00, FF]");
    assert_eq!(Packet::empty().to_hex_string(), "[]");
}
