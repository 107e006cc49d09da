//! Checksums: the protocol's own payload checksum (built on SeaHash) and the
//! ICMPv6 checksum (computed by `pnet_packet`).

use vstd::prelude::*;

verus! {

/// What `seahash::SeaHasher::finish` returns after a fresh
/// `SeaHasher::new()` was fed `first` and then `second` through
/// `Hasher::write`.
pub uninterp spec fn sea_hasher_digest(first: Seq<u8>, second: Seq<u8>) -> u64;

/// What `pnet_packet::icmpv6::checksum` returns for the ICMPv6 message
/// `packet` sent from `src` to `dst` (addresses as their 16 octets).
pub uninterp spec fn pnet_icmpv6_checksum(packet: Seq<u8>, src: Seq<u8>, dst: Seq<u8>) -> u16;

/// Runs `seahash::SeaHasher`: `new()`, `write(first)`, `write(second)`,
/// `finish()`.  The contract only names the digest; SeaHash itself is not
/// restated.
#[verifier::external_body]
fn sea_hasher_digest_of(first: &[u8], second: &[u8]) -> (res: u64)
    ensures
        res == sea_hasher_digest(first@, second@),
{
    let mut hasher = seahash::SeaHasher::new();
    std::hash::Hasher::write(&mut hasher, first);
    std::hash::Hasher::write(&mut hasher, second);
    std::hash::Hasher::finish(&hasher)
}

/// The longest message whose ICMPv6 checksum is computed here: `pnet_packet`
/// sums the 16-bit words of the message and of the pseudo-header into a
/// `u32`, which stays below 2^32 for messages of up to this many bytes.
pub const MAX_CHECKSUMMED_LEN: usize = 131000;

/// Calls `pnet_packet::icmpv6::checksum` on `packet` viewed as an
/// `Icmpv6Packet`.  The function skips the checksum field (bytes 2 and 3):
/// the contract says so by naming the result of the message with that field
/// zeroed.  It needs the 4-byte header to view the bytes as a packet, and
/// the message must keep its word sum within a `u32`.
#[verifier::external_body]
fn pnet_checksum(packet: &[u8], src: [u8; 16], dst: [u8; 16]) -> (res: u16)
    requires
        4 <= packet@.len() <= MAX_CHECKSUMMED_LEN,
    ensures
        res == pnet_icmpv6_checksum(packet@.update(2, 0u8).update(3, 0u8), src@, dst@),
{
    let view = pnet_packet::icmpv6::Icmpv6Packet::new(packet).unwrap();
    pnet_packet::icmpv6::checksum(&view, &src.into(), &dst.into())
}

/// The two big-endian bytes of `x`.
pub open spec fn be_bytes(x: u16) -> Seq<u8> {
    seq![(x / 256) as u8, (x % 256) as u8]
}

/// The protocol checksum of `payload`: the low 16 bits of the SeaHash digest
/// of the payload length (as two big-endian bytes, modulo 2^16) followed by
/// the payload.
pub open spec fn ping6_checksum(payload: Seq<u8>) -> u16 {
    (sea_hasher_digest(be_bytes((payload.len() % 65536) as u16), payload) % 65536) as u16
}

/// The protocol checksum hashes, before the payload, the payload length as
/// a 16-bit big-endian number: its high byte, then its low byte.
pub proof fn lemma_checksum_hashes_length(payload: Seq<u8>)
    ensures
        ping6_checksum(payload) == (sea_hasher_digest(
            seq![((payload.len() / 256) % 256) as u8, (payload.len() % 256) as u8],
            payload,
        ) % 65536) as u16,
{
    let len = payload.len() as int;
    let x = len % 65536;
    vstd::arithmetic::div_mod::lemma_mod_breakdown(len, 256, 256);
    assert(x == 256 * ((len / 256) % 256) + len % 256);
    vstd::arithmetic::div_mod::lemma_fundamental_div_mod_converse(x, 256, (len / 256) % 256, len % 256);
    assert(be_bytes(x as u16) =~= seq![((len / 256) % 256) as u8, (len % 256) as u8]);
}

/// The ICMPv6 checksum of `packet` from `src` to `dst`; the checksum field
/// itself does not count.
pub open spec fn icmpv6_checksum(packet: Seq<u8>, src: Seq<u8>, dst: Seq<u8>) -> u16 {
    pnet_icmpv6_checksum(packet.update(2, 0u8).update(3, 0u8), src, dst)
}

/// Big-endian encoding of `x`.
pub fn u16_to_bytes_be(x: u16) -> (res: [u8; 2])
    ensures
        res@ == be_bytes(x),
{
    let res = [(x / 256) as u8, (x % 256) as u8];
    proof {
        assert(res@ =~= be_bytes(x));
    }
    res
}

/// The protocol checksum of `payload`.
pub fn ping6_data_checksum(payload: &[u8]) -> (res: u16)
    ensures
        res == ping6_checksum(payload@),
        res == (sea_hasher_digest(
            seq![((payload@.len() / 256) % 256) as u8, (payload@.len() % 256) as u8],
            payload@,
        ) % 65536) as u16,
{
    proof {
        lemma_checksum_hashes_length(payload@);
    }
    let len = (payload.len() % 65536) as u16;
    let buf = u16_to_bytes_be(len);
    let digest = sea_hasher_digest_of(&buf, payload);
    let res = (digest & 0xffff) as u16;
    proof {
        assert(digest & 0xffff == digest % 65536) by (bit_vector);
    }
    res
}

/// The ICMPv6 checksum of `packet` sent from `src` to `dst`.
pub fn icmpv6_packet_checksum(packet: &[u8], src: [u8; 16], dst: [u8; 16]) -> (res: u16)
    requires
        4 <= packet@.len() <= MAX_CHECKSUMMED_LEN,
    ensures
        res == icmpv6_checksum(packet@, src@, dst@),
{
    pnet_checksum(packet, src, dst)
}

} // verus!
