use hmac::{Hmac, Mac};
use lattice::hex::hex_to_bytes;
use lattice::packet::build_packet;
use sha2::Sha256;

#[test]
fn packet_has_magic_version_and_fields() {
    let secret = [7u8; 16];
    let p = build_packet(0x01020304, 0x1112131415161718, 0x2122232425262728, &secret);
    assert_eq!(p.len(), 32);
    assert_eq!(&p[0..4], b"LATO");
    assert_eq!(&p[4..8], &[0, 0, 0, 1]);
    assert_eq!(&p[8..16], &[0x11, 0x12, 0x13, 0x14, 0x15, 0x16, 0x17, 0x18]);
    assert_eq!(&p[16..20], &[1, 2, 3, 4]);
    assert_eq!(&p[20..28], &[0x21, 0x22, 0x23, 0x24, 0x25, 0x26, 0x27, 0x28]);
}

#[test]
fn packet_tag_is_truncated_hmac_of_header() {
    let secret = hex_to_bytes("000102030405060708090a0b0c0d0e0f").unwrap();
    let p = build_packet(5, 1_700_000_000_000_000_000, 42, &secret);
    let mut mac = <Hmac<Sha256> as Mac>::new_from_slice(&secret).unwrap();
    mac.update(&p[..28]);
    let tag = mac.finalize().into_bytes();
    assert_eq!(&p[28..32], &tag[..4]);
    assert_ne!(&p[28..32], &p[0..4]);
}

#[test]
fn packet_tag_depends_on_secret_and_content() {
    let a = build_packet(1, 2, 3, &[1u8; 16]);
    let b = build_packet(1, 2, 3, &[2u8; 16]);
    let c = build_packet(2, 2, 3, &[1u8; 16]);
    assert_eq!(&a[..28], &b[..28]);
    assert_ne!(&a[28..], &b[28..]);
    assert_ne!(&a[28..], &c[28..]);
}

#[test]
fn hmac_matches_known_vector() {
    // RFC 4231, test case 2, truncated to the four bytes that a frame keeps:
    // key "Jefe", data "what do ya want for nothing?".
    let mut mac = <Hmac<Sha256> as Mac>::new_from_slice(b"Jefe").unwrap();
    mac.update(b"what do ya want for nothing?");
    let tag = mac.finalize().into_bytes();
    assert_eq!(&tag[..4], &[0x5b, 0xdc, 0xc1, 0x46]);
}
