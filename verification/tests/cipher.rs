use slate::shanda::{decrypt, encrypt, rotl, rotr};

#[test]
fn encrypt_known_bytes() {
    let mut data = [1u8, 2, 3, 4, 5];
    encrypt(&mut data);
    assert_eq!(data, [24, 3, 161, 158, 245]);
}

#[test]
fn encrypt_single_byte() {
    let mut data = [0xFFu8];
    encrypt(&mut data);
    assert_eq!(data, [54]);
}

#[test]
fn encrypt_op_code() {
    let mut data = [0x0Au8, 0x00];
    encrypt(&mut data);
    assert_eq!(data, [175, 27]);
}

#[test]
fn decrypt_known_bytes() {
    let mut data = [24u8, 3, 161, 158, 245];
    decrypt(&mut data);
    assert_eq!(data, [1, 2, 3, 4, 5]);
}

#[test]
fn cipher_empty_input() {
    let mut data: [u8; 0] = [];
    encrypt(&mut data);
    decrypt(&mut data);
    assert_eq!(data.len(), 0);
}

#[test]
fn decrypt_undoes_encrypt() {
    let plain: Vec<u8> = (0..300u32).map(|i| (i * 37 % 256) as u8).collect();
    let mut data = plain.clone();
    encrypt(&mut data);
    assert_ne!(data, plain);
    assert_eq!(data.len(), plain.len());
    decrypt(&mut data);
    assert_eq!(data, plain);
}

#[test]
fn encrypt_undoes_decrypt() {
    let plain: Vec<u8> = (0..64u32).map(|i| (255 - i * 3) as u8).collect();
    let mut data = plain.clone();
    decrypt(&mut data);
    encrypt(&mut data);
    assert_eq!(data, plain);
}

#[test]
fn byte_rotations() {
    assert_eq!(rotl(0b1000_0001, 1), 0b0000_0011);
    assert_eq!(rotr(0b1000_0001, 1), 0b1100_0000);
    assert_eq!(rotl(0x12, 8), 0x12);
    assert_eq!(rotl(0x12, 12), 0x21);
    for b in 0..=255u8 {
        for k in 0..20u32 {
            assert_eq!(rotr(rotl(b, k), k), b);
            assert_eq!(rotl(rotr(b, k), k), b);
            assert_eq!(rotr(b, k), rotl(b, (8 - k % 8) % 8));
        }
    }
}
