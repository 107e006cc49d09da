//! Wire format of the ping6 data protocol.
//!
//! Every message travels as the payload of an ICMPv6 echo request: byte 0 is
//! the ICMPv6 type (128), byte 1 the code (0), bytes 2 and 3 the ICMPv6
//! checksum.  A stream packet then holds the protocol checksum (2 bytes,
//! over the rest of the payload), a reserved byte (0xff) and the flag byte.
//! A client packet goes on with one sequence number, a server packet with
//! the first and the last sequence number of an acknowledged range; the data
//! comes last.

use vstd::prelude::*;

use crate::checksum::{
    be_bytes, icmpv6_checksum, MAX_CHECKSUMMED_LEN, icmpv6_packet_checksum, ping6_checksum, ping6_data_checksum,
    u16_to_bytes_be,
};
use crate::constants::{
    valid_flag_bits, StreamPacketFlags, ICMPV6_ECHO_REQUEST, ICMPV6_ECHO_REQUEST_HEADER_SIZE,
    STREAM_CLIENT_FULL_HEADER_SIZE, STREAM_CLIENT_HEADER_SIZE, STREAM_SERVER_FULL_HEADER_SIZE,
};

verus! {

/// The big-endian 16-bit number made of `hi` and `lo`.
pub open spec fn be16(hi: u8, lo: u8) -> u16 {
    (hi as int * 256 + lo as int) as u16
}

/// Decoding the two big-endian bytes of `x` gives `x` back.
pub proof fn lemma_be16_of_be_bytes(x: u16)
    ensures
        be16(be_bytes(x)[0], be_bytes(x)[1]) == x,
{
}

/// Reads the big-endian 16-bit number at `i`.
pub fn read_u16_be(b: &[u8], i: usize) -> (res: u16)
    requires
        i + 1 < b@.len(),
    ensures
        res == be16(b@[i as int], b@[i + 1]),
{
    (b[i] as u16) * 256 + (b[i + 1] as u16)
}

/// Appends the bytes of `s` to `v`.
pub(crate) fn append_bytes(v: &mut Vec<u8>, s: &[u8])
    ensures
        final(v)@ == old(v)@ + s@,
{
    let ghost start = v@;
    let mut i: usize = 0;
    while i < s.len()
        invariant
            i <= s@.len(),
            v@ =~= start + s@.take(i as int),
        decreases s@.len() - i,
    {
        v.push(s[i]);
        i = i + 1;
        proof {
            assert(s@.take(i as int) =~= s@.take(i - 1).push(s@[i - 1]));
        }
    }
    proof {
        assert(s@.take(i as int) =~= s@);
    }
}

/// `p` with its ICMPv6 checksum field set to the checksum of `p` from `src`
/// to `dst`.
pub open spec fn with_icmpv6_checksum(p: Seq<u8>, src: Seq<u8>, dst: Seq<u8>) -> Seq<u8> {
    let cs = be_bytes(icmpv6_checksum(p, src, dst));
    p.update(2, cs[0]).update(3, cs[1])
}

/// The part of a client packet that the protocol checksum covers.
pub open spec fn client_body(flags: u8, seqno: u16, data: Seq<u8>) -> Seq<u8> {
    seq![255u8, flags] + be_bytes(seqno) + data
}

/// The part of a server packet that the protocol checksum covers.
pub open spec fn server_body(flags: u8, seqno_start: u16, seqno_end: u16, data: Seq<u8>) -> Seq<u8> {
    seq![255u8, flags] + be_bytes(seqno_start) + be_bytes(seqno_end) + data
}

/// An echo request whose payload is the protocol checksum of `body`
/// followed by `body`, with its ICMPv6 checksum from `src` to `dst`.
pub open spec fn stream_packet(body: Seq<u8>, src: Seq<u8>, dst: Seq<u8>) -> Seq<u8> {
    with_icmpv6_checksum(
        seq![ICMPV6_ECHO_REQUEST, 0u8, 0u8, 0u8] + be_bytes(ping6_checksum(body)) + body,
        src,
        dst,
    )
}

/// The stream packet that a client sends.
pub open spec fn client_packet(
    src: Seq<u8>,
    dst: Seq<u8>,
    seqno: u16,
    flags: u8,
    data: Seq<u8>,
) -> Seq<u8> {
    stream_packet(client_body(flags, seqno, data), src, dst)
}

/// The stream packet that a server sends.
pub open spec fn server_packet(
    src: Seq<u8>,
    dst: Seq<u8>,
    seqno_start: u16,
    seqno_end: u16,
    flags: u8,
    data: Seq<u8>,
) -> Seq<u8> {
    stream_packet(server_body(flags, seqno_start, seqno_end, data), src, dst)
}

/// What `validate_stream_packet` accepts: an echo request with code 0, with
/// a right ICMPv6 checksum when the addresses are given, a payload of at
/// least the client header size, a right protocol checksum, valid flags and
/// the reserved byte set to 0xff.
pub open spec fn stream_packet_valid(p: Seq<u8>, addrs: Option<([u8; 16], [u8; 16])>) -> bool {
    &&& p[0] == ICMPV6_ECHO_REQUEST
    &&& p[1] == 0
    &&& (addrs matches Some((src, dst)) ==> be16(p[2], p[3]) == icmpv6_checksum(p, src@, dst@))
    &&& p.len() >= ICMPV6_ECHO_REQUEST_HEADER_SIZE + STREAM_CLIENT_HEADER_SIZE
    &&& be16(p[4], p[5]) == ping6_checksum(p.skip(6))
    &&& valid_flag_bits(p[7])
    &&& p[6] == 255
}

/// Checks a received stream packet (see `stream_packet_valid`); `addrs`
/// holds the source and the destination address when the ICMPv6 checksum is
/// to be checked.
pub fn validate_stream_packet(packet_buff: &[u8], addrs: Option<([u8; 16], [u8; 16])>) -> (res:
    bool)
    requires
        packet_buff@.len() >= ICMPV6_ECHO_REQUEST_HEADER_SIZE,
        addrs is Some ==> packet_buff@.len() <= MAX_CHECKSUMMED_LEN,
    ensures
        res == stream_packet_valid(packet_buff@, addrs),
{
    let p = packet_buff;
    if p[0] != ICMPV6_ECHO_REQUEST || p[1] != 0 {
        return false;
    }
    match addrs {
        Some((src, dst)) => {
            if read_u16_be(p, 2) != icmpv6_packet_checksum(p, src, dst) {
                return false;
            }
        },
        None => {},
    }
    if p.len() - ICMPV6_ECHO_REQUEST_HEADER_SIZE < STREAM_CLIENT_HEADER_SIZE {
        return false;
    }
    let checksum = read_u16_be(p, 4);
    let rest = vstd::slice::slice_subrange(p, 6, p.len());
    if checksum != ping6_data_checksum(rest) {
        return false;
    }
    if StreamPacketFlags::from_bits(p[7]).is_none() {
        return false;
    }
    if p[6] != 255 {
        return false;
    }
    true
}

/// Builds `stream_packet(body, src, dst)`.
fn make_stream_packet(body: &[u8], src: [u8; 16], dst: [u8; 16]) -> (res: Vec<u8>)
    requires
        body@.len() + 6 <= MAX_CHECKSUMMED_LEN,
    ensures
        res@ == stream_packet(body@, src@, dst@),
{
    let mut pkt: Vec<u8> = Vec::new();
    pkt.push(ICMPV6_ECHO_REQUEST);
    pkt.push(0);
    pkt.push(0);
    pkt.push(0);
    let checksum = u16_to_bytes_be(ping6_data_checksum(body));
    append_bytes(&mut pkt, &checksum);
    append_bytes(&mut pkt, body);
    proof {
        assert(pkt@ =~= seq![ICMPV6_ECHO_REQUEST, 0u8, 0u8, 0u8] + be_bytes(
            ping6_checksum(body@),
        ) + body@);
    }
    set_icmpv6_checksum(&mut pkt, src, dst);
    pkt
}

/// Writes into bytes 2 and 3 of the ICMPv6 message `pkt` its checksum from
/// `src` to `dst`.
pub(crate) fn set_icmpv6_checksum(pkt: &mut Vec<u8>, src: [u8; 16], dst: [u8; 16])
    requires
        4 <= old(pkt)@.len() <= MAX_CHECKSUMMED_LEN,
    ensures
        final(pkt)@ == with_icmpv6_checksum(old(pkt)@, src@, dst@),
{
    let cs = u16_to_bytes_be(icmpv6_packet_checksum(pkt.as_slice(), src, dst));
    pkt.set(2, cs[0]);
    pkt.set(3, cs[1]);
    proof {
        assert(pkt@ =~= with_icmpv6_checksum(old(pkt)@, src@, dst@));
    }
}

/// Builds the packet that a client sends: sequence number `seqno`, flags
/// `flags`, data `payload`.  The packet is built in place of the contents of
/// `packet_buff`, which must not be longer than the packet and is left
/// empty.
pub fn make_stream_client_icmpv6_packet(
    packet_buff: &mut Vec<u8>,
    src: [u8; 16],
    dst: [u8; 16],
    seqno: u16,
    flags: StreamPacketFlags,
    payload: &[u8],
) -> (res: Vec<u8>)
    requires
        old(packet_buff)@.len() <= STREAM_CLIENT_FULL_HEADER_SIZE + payload@.len(),
        STREAM_CLIENT_FULL_HEADER_SIZE + payload@.len() <= MAX_CHECKSUMMED_LEN,
        valid_flag_bits(flags.bits),
    ensures
        res@ == client_packet(src@, dst@, seqno, flags.bits, payload@),
        final(packet_buff)@ == Seq::<u8>::empty(),
{
    packet_buff.clear();
    let mut body: Vec<u8> = Vec::new();
    body.push(255);
    body.push(flags.bits());
    append_bytes(&mut body, &u16_to_bytes_be(seqno));
    append_bytes(&mut body, payload);
    proof {
        assert(body@ =~= client_body(flags.bits, seqno, payload@));
    }
    make_stream_packet(body.as_slice(), src, dst)
}

/// Builds the packet that a server sends: acknowledged range
/// `[seqno_start, seqno_end]`, flags `flags`, data `payload`.  The packet is
/// built in place of the contents of `packet_buff`, which must not be longer
/// than the packet and is left empty.
pub fn make_stream_server_icmpv6_packet(
    packet_buff: &mut Vec<u8>,
    src: [u8; 16],
    dst: [u8; 16],
    seqno_start: u16,
    seqno_end: u16,
    flags: StreamPacketFlags,
    payload: &[u8],
) -> (res: Vec<u8>)
    requires
        old(packet_buff)@.len() <= STREAM_SERVER_FULL_HEADER_SIZE + payload@.len(),
        STREAM_SERVER_FULL_HEADER_SIZE + payload@.len() <= MAX_CHECKSUMMED_LEN,
        valid_flag_bits(flags.bits),
    ensures
        res@ == server_packet(src@, dst@, seqno_start, seqno_end, flags.bits, payload@),
        final(packet_buff)@ == Seq::<u8>::empty(),
{
    packet_buff.clear();
    let mut body: Vec<u8> = Vec::new();
    body.push(255);
    body.push(flags.bits());
    append_bytes(&mut body, &u16_to_bytes_be(seqno_start));
    append_bytes(&mut body, &u16_to_bytes_be(seqno_end));
    append_bytes(&mut body, payload);
    proof {
        assert(body@ =~= server_body(flags.bits, seqno_start, seqno_end, payload@));
    }
    make_stream_packet(body.as_slice(), src, dst)
}

/// The fields of a client packet.
pub struct StreamClientPacket<'a> {
    pub flags: StreamPacketFlags,
    pub seqno: u16,
    pub payload: &'a [u8],
}

/// The fields of a server packet.
pub struct StreamServerPacket<'a> {
    pub flags: StreamPacketFlags,
    pub seqno_start: u16,
    pub seqno_end: u16,
    pub payload: &'a [u8],
}

/// Reads the fields of the stream payload of a client packet (the ICMPv6
/// payload).
pub fn parse_stream_client_packet_payload<'a>(payload: &'a [u8]) -> (res: StreamClientPacket<'a>)
    requires
        payload@.len() >= STREAM_CLIENT_HEADER_SIZE,
        valid_flag_bits(payload@[3]),
    ensures
        res.flags.bits == payload@[3],
        res.seqno == be16(payload@[4], payload@[5]),
        res.payload@ == payload@.skip(6),
{
    let flags = StreamPacketFlags::from_bits(payload[3]).unwrap();
    StreamClientPacket {
        flags,
        seqno: read_u16_be(payload, 4),
        payload: vstd::slice::slice_subrange(payload, 6, payload.len()),
    }
}

/// Reads the fields of a client packet.
pub fn parse_stream_client_packet<'a>(packet_buff: &'a [u8]) -> (res: StreamClientPacket<'a>)
    requires
        packet_buff@.len() >= STREAM_CLIENT_FULL_HEADER_SIZE,
        valid_flag_bits(packet_buff@[7]),
    ensures
        res.flags.bits == packet_buff@[7],
        res.seqno == be16(packet_buff@[8], packet_buff@[9]),
        res.payload@ == packet_buff@.skip(10),
{
    let echo_payload = vstd::slice::slice_subrange(packet_buff, 4, packet_buff.len());
    let parsed = parse_stream_client_packet_payload(echo_payload);
    let payload = vstd::slice::slice_subrange(packet_buff, 10, packet_buff.len());
    StreamClientPacket { flags: parsed.flags, seqno: parsed.seqno, payload }
}

/// Reads the fields of a server packet.
pub fn parse_stream_server_packet<'a>(packet_buff: &'a [u8]) -> (res: StreamServerPacket<'a>)
    requires
        packet_buff@.len() >= STREAM_SERVER_FULL_HEADER_SIZE,
        valid_flag_bits(packet_buff@[7]),
    ensures
        res.flags.bits == packet_buff@[7],
        res.seqno_start == be16(packet_buff@[8], packet_buff@[9]),
        res.seqno_end == be16(packet_buff@[10], packet_buff@[11]),
        res.payload@ == packet_buff@.skip(12),
{
    let flags = StreamPacketFlags::from_bits(packet_buff[7]).unwrap();
    StreamServerPacket {
        flags,
        seqno_start: read_u16_be(packet_buff, 8),
        seqno_end: read_u16_be(packet_buff, 10),
        payload: vstd::slice::slice_subrange(packet_buff, 12, packet_buff.len()),
    }
}

/// Setting the ICMPv6 checksum field does not change the checksum, which
/// skips that field.
pub proof fn lemma_checksum_field_ignored(p: Seq<u8>, a: u8, b: u8, src: Seq<u8>, dst: Seq<u8>)
    requires
        p.len() >= 4,
    ensures
        icmpv6_checksum(p.update(2, a).update(3, b), src, dst) == icmpv6_checksum(p, src, dst),
{
    assert(p.update(2, a).update(3, b).update(2, 0u8).update(3, 0u8) =~= p.update(2, 0u8).update(
        3,
        0u8,
    ));
}

/// A stream packet built from `body` passes validation, with or without the
/// addresses it was built for, and holds `body` after the protocol checksum.
proof fn lemma_stream_packet_valid(body: Seq<u8>, src: [u8; 16], dst: [u8; 16])
    requires
        body.len() >= 4,
        body[0] == 255,
        valid_flag_bits(body[1]),
    ensures
        ({
            let p = stream_packet(body, src@, dst@);
            &&& stream_packet_valid(p, Some((src, dst)))
            &&& stream_packet_valid(p, None)
            &&& p.skip(6) == body
            &&& p.len() == body.len() + 6
        }),
{
    let u = seq![ICMPV6_ECHO_REQUEST, 0u8, 0u8, 0u8] + be_bytes(ping6_checksum(body)) + body;
    let p = stream_packet(body, src@, dst@);
    let cs = be_bytes(icmpv6_checksum(u, src@, dst@));
    assert(p == u.update(2, cs[0]).update(3, cs[1]));
    lemma_checksum_field_ignored(u, cs[0], cs[1], src@, dst@);
    lemma_be16_of_be_bytes(icmpv6_checksum(u, src@, dst@));
    lemma_be16_of_be_bytes(ping6_checksum(body));
    assert(p.skip(6) =~= body);
}

/// A client packet passes validation and reads back as the fields it was
/// built from.
pub proof fn lemma_client_packet_roundtrip(
    src: [u8; 16],
    dst: [u8; 16],
    seqno: u16,
    flags: u8,
    data: Seq<u8>,
)
    requires
        valid_flag_bits(flags),
    ensures
        ({
            let p = client_packet(src@, dst@, seqno, flags, data);
            &&& stream_packet_valid(p, Some((src, dst)))
            &&& p.len() >= STREAM_CLIENT_FULL_HEADER_SIZE
            &&& p[7] == flags
            &&& be16(p[8], p[9]) == seqno
            &&& p.skip(10) == data
        }),
{
    let body = client_body(flags, seqno, data);
    lemma_stream_packet_valid(body, src, dst);
    let p = client_packet(src@, dst@, seqno, flags, data);
    assert(p[7] == p.skip(6)[1]);
    assert(p[8] == body[2] && p[9] == body[3]);
    lemma_be16_of_be_bytes(seqno);
    assert(p.skip(10) =~= body.skip(4));
    assert(body.skip(4) =~= data);
}

/// A server packet passes validation and reads back as the fields it was
/// built from.
pub proof fn lemma_server_packet_roundtrip(
    src: [u8; 16],
    dst: [u8; 16],
    seqno_start: u16,
    seqno_end: u16,
    flags: u8,
    data: Seq<u8>,
)
    requires
        valid_flag_bits(flags),
    ensures
        ({
            let p = server_packet(src@, dst@, seqno_start, seqno_end, flags, data);
            &&& stream_packet_valid(p, Some((src, dst)))
            &&& p.len() >= STREAM_SERVER_FULL_HEADER_SIZE
            &&& p[7] == flags
            &&& be16(p[8], p[9]) == seqno_start
            &&& be16(p[10], p[11]) == seqno_end
            &&& p.skip(12) == data
        }),
{
    let body = server_body(flags, seqno_start, seqno_end, data);
    lemma_stream_packet_valid(body, src, dst);
    let p = server_packet(src@, dst@, seqno_start, seqno_end, flags, data);
    assert(p[7] == body[1]);
    assert(p[8] == body[2] && p[9] == body[3]);
    assert(p[10] == body[4] && p[11] == body[5]);
    lemma_be16_of_be_bytes(seqno_start);
    lemma_be16_of_be_bytes(seqno_end);
    assert(p.skip(12) =~= body.skip(6));
    assert(body.skip(6) =~= data);
}

/// A message whose checksum field was set by `with_icmpv6_checksum` holds
/// its own ICMPv6 checksum there.
pub proof fn lemma_with_checksum_valid(p: Seq<u8>, src: Seq<u8>, dst: Seq<u8>)
    requires
        p.len() >= 4,
    ensures
        ({
            let w = with_icmpv6_checksum(p, src, dst);
            &&& w.len() == p.len()
            &&& be16(w[2], w[3]) == icmpv6_checksum(w, src, dst)
            &&& forall|i: int| 0 <= i < p.len() && i != 2 && i != 3 ==> #[trigger] w[i] == p[i]
        }),
{
    let cs = be_bytes(icmpv6_checksum(p, src, dst));
    lemma_checksum_field_ignored(p, cs[0], cs[1], src, dst);
    lemma_be16_of_be_bytes(icmpv6_checksum(p, src, dst));
}

} // verus!
