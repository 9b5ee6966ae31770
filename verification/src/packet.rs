//! The 32-byte probe frame.
//!
//! | offset | size | field                                   |
//! |--------|------|-----------------------------------------|
//! | 0      | 4    | magic `LATO`                            |
//! | 4      | 4    | version, 1                              |
//! | 8      | 8    | send time, realtime nanoseconds         |
//! | 16     | 4    | sequence number                         |
//! | 20     | 8    | nonce                                   |
//! | 28     | 4    | first bytes of HMAC-SHA256 over 0..28   |
//!
//! All integers are big-endian.

use hmac::{Hmac, Mac};
use sha2::Sha256;
use vstd::prelude::*;

verus! {

/// The length of a frame.
pub const PACKET_LEN: usize = 32;

/// The length of what the tag covers.
pub const HEADER_LEN: usize = 28;

/// The length of the tag that a frame keeps.
pub const TAG_LEN: usize = 4;

/// The version of the frame layout.
pub const VERSION: u32 = 1;

/// The HMAC-SHA256 tag of `data` under `key`.
pub uninterp spec fn hmac_sha256_tag(key: Seq<u8>, data: Seq<u8>) -> Seq<u8>;

/// `Hmac::<Sha256>::new_from_slice`, `update` and `finalize`: the tag that
/// HMAC-SHA256 gives `data` under `key`. A key of any length is accepted, and
/// the tag is 32 bytes long.
#[verifier::external_body]
fn hmac_sha256(key: &[u8], data: &[u8]) -> (tag: [u8; 32])
    ensures
        tag@ == hmac_sha256_tag(key@, data@),
{
    let mut mac = <Hmac<Sha256> as Mac>::new_from_slice(key).expect("HMAC key");
    mac.update(data);
    mac.finalize().into_bytes().into()
}

/// The `width` low-order base-256 digits of `x`, most significant first.
pub open spec fn be_bytes(x: nat, width: nat) -> Seq<u8>
    decreases width,
{
    if width == 0 {
        Seq::empty()
    } else {
        be_bytes(x / 256, (width - 1) as nat).push((x % 256) as u8)
    }
}

/// The magic that opens every frame: ASCII `LATO`.
pub open spec fn magic() -> Seq<u8> {
    seq![0x4Cu8, 0x41u8, 0x54u8, 0x4Fu8]
}

/// Bytes 0..28 of a frame.
pub open spec fn packet_header(seq: u32, send_ns: u64, nonce: u64) -> Seq<u8> {
    magic() + be_bytes(VERSION as nat, 4) + be_bytes(send_ns as nat, 8) + be_bytes(seq as nat, 4)
        + be_bytes(nonce as nat, 8)
}

/// A frame: the header, then the first four bytes of `tag`.
pub open spec fn framed(header: Seq<u8>, tag: Seq<u8>) -> Seq<u8> {
    header + tag.take(TAG_LEN as int)
}

/// The frame for the given fields under `secret`.
pub open spec fn packet_bytes(seq: u32, send_ns: u64, nonce: u64, secret: Seq<u8>) -> Seq<u8> {
    let header = packet_header(seq, send_ns, nonce);
    framed(header, hmac_sha256_tag(secret, header))
}

/// `be_bytes` gives as many bytes as asked for.
pub proof fn lemma_be_bytes_len(x: nat, width: nat)
    ensures
        be_bytes(x, width).len() == width,
    decreases width,
{
    if width > 0 {
        lemma_be_bytes_len(x / 256, (width - 1) as nat);
    }
}

/// A header is 28 bytes long and opens with the magic and the version.
pub proof fn lemma_header_layout(seq: u32, send_ns: u64, nonce: u64)
    ensures
        packet_header(seq, send_ns, nonce).len() == HEADER_LEN,
        packet_header(seq, send_ns, nonce).subrange(0, 4) == magic(),
        packet_header(seq, send_ns, nonce).subrange(4, 8) == seq![0u8, 0u8, 0u8, 1u8],
        packet_header(seq, send_ns, nonce).subrange(8, 16) == be_bytes(send_ns as nat, 8),
        packet_header(seq, send_ns, nonce).subrange(16, 20) == be_bytes(seq as nat, 4),
        packet_header(seq, send_ns, nonce).subrange(20, 28) == be_bytes(nonce as nat, 8),
{
    lemma_be_bytes_len(VERSION as nat, 4);
    lemma_be_bytes_len(send_ns as nat, 8);
    lemma_be_bytes_len(seq as nat, 4);
    lemma_be_bytes_len(nonce as nat, 8);
    let h = packet_header(seq, send_ns, nonce);
    assert(h.subrange(0, 4) =~= magic());
    assert(h.subrange(4, 8) =~= be_bytes(VERSION as nat, 4));
    assert(h.subrange(8, 16) =~= be_bytes(send_ns as nat, 8));
    assert(h.subrange(16, 20) =~= be_bytes(seq as nat, 4));
    assert(h.subrange(20, 28) =~= be_bytes(nonce as nat, 8));
    reveal_with_fuel(be_bytes, 5);
    assert(be_bytes(1, 4) =~= seq![0u8, 0u8, 0u8, 1u8]);
}

/// A frame is 32 bytes long; its first 28 bytes are the header, which opens
/// with `LATO` and the version `00 00 00 01`; its last four bytes are the
/// first four bytes of the HMAC-SHA256 tag of the first 28 under the secret.
pub proof fn lemma_packet_layout(seq: u32, send_ns: u64, nonce: u64, secret: Seq<u8>)
    requires
        hmac_sha256_tag(secret, packet_header(seq, send_ns, nonce)).len() >= TAG_LEN,
    ensures
        ({
            let p = packet_bytes(seq, send_ns, nonce, secret);
            &&& p.len() == PACKET_LEN
            &&& p.subrange(0, 4) == magic()
            &&& p.subrange(4, 8) == seq![0u8, 0u8, 0u8, 1u8]
            &&& p.subrange(0, 28) == packet_header(seq, send_ns, nonce)
            &&& p.subrange(28, 32) == hmac_sha256_tag(secret, p.subrange(0, 28)).take(4)
        }),
{
    lemma_header_layout(seq, send_ns, nonce);
    let h = packet_header(seq, send_ns, nonce);
    let p = packet_bytes(seq, send_ns, nonce, secret);
    assert(p.subrange(0, 28) =~= h);
    assert(p.subrange(0, 4) =~= h.subrange(0, 4));
    assert(p.subrange(4, 8) =~= h.subrange(4, 8));
    assert(p.subrange(28, 32) =~= hmac_sha256_tag(secret, h).take(4));
}

/// Appends the `width` low-order bytes of `x`, most significant first.
fn put_be(buf: &mut Vec<u8>, x: u64, width: usize)
    ensures
        final(buf)@ == old(buf)@ + be_bytes(x as nat, width as nat),
    decreases width,
{
    if width > 0 {
        put_be(buf, x / 256, (width - 1) as usize);
        buf.push((x % 256) as u8);
        assert(buf@ =~= old(buf)@ + be_bytes(x as nat, width as nat));
    } else {
        assert(buf@ =~= old(buf)@ + be_bytes(x as nat, 0));
    }
}

/// Bytes 0..28 of the frame for the given fields.
pub fn packet_header_bytes(seq: u32, send_ns: u64, nonce: u64) -> (header: [u8; 28])
    ensures
        header@ == packet_header(seq, send_ns, nonce),
{
    let mut buf: Vec<u8> = Vec::new();
    buf.push(0x4Cu8);
    buf.push(0x41u8);
    buf.push(0x54u8);
    buf.push(0x4Fu8);
    assert(buf@ =~= magic());
    put_be(&mut buf, VERSION as u64, 4);
    put_be(&mut buf, send_ns, 8);
    put_be(&mut buf, seq as u64, 4);
    put_be(&mut buf, nonce, 8);
    proof {
        lemma_header_layout(seq, send_ns, nonce);
    }
    let mut header: [u8; 28] = [0u8; 28];
    let mut i: usize = 0;
    while i < 28
        invariant
            i <= 28,
            buf@.len() == 28,
            forall|j: int| 0 <= j < i ==> header@[j] == buf@[j],
        decreases 28 - i,
    {
        header[i] = buf[i];
        i += 1;
    }
    assert(header@ =~= buf@);
    header
}

/// Closes a frame: the 28 header bytes, then the first four bytes of `tag`.
pub fn seal(header: &[u8; 28], tag: &[u8; 32]) -> (packet: [u8; 32])
    ensures
        packet@ == framed(header@, tag@),
{
    let mut packet: [u8; 32] = [0u8; 32];
    let mut i: usize = 0;
    while i < 32
        invariant
            i <= 32,
            forall|j: int| 0 <= j < i ==> packet@[j] == framed(header@, tag@)[j],
        decreases 32 - i,
    {
        let b: u8 = if i < HEADER_LEN {
            header[i]
        } else {
            tag[i - HEADER_LEN]
        };
        packet[i] = b;
        i += 1;
    }
    assert(packet@ =~= framed(header@, tag@));
    packet
}

/// Builds the probe frame for a sequence number, a send time and a nonce,
/// authenticated under `secret`.
pub fn build_packet(seq: u32, send_ns: u64, nonce: u64, secret: &[u8]) -> (packet: [u8; 32])
    ensures
        packet@ == packet_bytes(seq, send_ns, nonce, secret@),
        packet@.len() == PACKET_LEN,
        packet@.subrange(0, 4) == magic(),
        packet@.subrange(4, 8) == seq![0u8, 0u8, 0u8, 1u8],
        packet@.subrange(8, 16) == be_bytes(send_ns as nat, 8),
        packet@.subrange(16, 20) == be_bytes(seq as nat, 4),
        packet@.subrange(20, 28) == be_bytes(nonce as nat, 8),
        packet@.subrange(28, 32) == hmac_sha256_tag(secret@, packet@.subrange(0, 28)).take(4),
{
    let header = packet_header_bytes(seq, send_ns, nonce);
    let tag = hmac_sha256(secret, header.as_slice());
    let packet = seal(&header, &tag);
    proof {
        lemma_packet_layout(seq, send_ns, nonce, secret@);
        lemma_header_layout(seq, send_ns, nonce);
        let h = packet_header(seq, send_ns, nonce);
        assert(packet@.subrange(0, 28) == h);
        assert(packet@.subrange(8, 16) =~= h.subrange(8, 16));
        assert(packet@.subrange(16, 20) =~= h.subrange(16, 20));
        assert(packet@.subrange(20, 28) =~= h.subrange(20, 28));
    }
    packet
}

} // verus!
