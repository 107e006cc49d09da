//! Datagram mode: every message travels alone in one ICMPv6 echo request.
//! Unless the raw mode is on, the message is preceded by its protocol
//! checksum and its length (two big-endian bytes each), so that the receiver
//! can tell a message of this protocol from other echo requests.

use vstd::prelude::*;

use crate::checksum::{
    be_bytes, icmpv6_checksum, icmpv6_packet_checksum, ping6_checksum, ping6_data_checksum,
    u16_to_bytes_be, MAX_CHECKSUMMED_LEN,
};
use crate::constants::ICMPV6_ECHO_REQUEST;
use crate::packet::{append_bytes, be16, lemma_be16_of_be_bytes, read_u16_be, set_icmpv6_checksum, with_icmpv6_checksum};
use crate::send_errors::Error;

verus! {

/// The payload that carries `message`: its protocol checksum, its length and
/// the message itself.
pub open spec fn checked_payload(message: Seq<u8>) -> Seq<u8> {
    be_bytes(ping6_checksum(message)) + be_bytes(message.len() as u16) + message
}

/// What `validate_payload` accepts: the length field equals the length of
/// the rest (modulo 2^16) and the checksum field is the protocol checksum of
/// the rest.
pub open spec fn payload_valid(payload: Seq<u8>) -> bool {
    &&& be16(payload[2], payload[3]) == ((payload.len() - 4) % 65536) as u16
    &&& be16(payload[0], payload[1]) == ping6_checksum(payload.skip(4))
}

/// The fields of an ICMPv6 message.
pub struct Icmpv6 {
    pub icmpv6_type: u8,
    pub icmpv6_code: u8,
    pub checksum: u16,
    pub payload: Vec<u8>,
}

/// The bytes of `descr` as a message from `src` to `dst`, with its checksum
/// computed.
pub open spec fn icmpv6_bytes(descr: Icmpv6, src: Seq<u8>, dst: Seq<u8>) -> Seq<u8> {
    with_icmpv6_checksum(
        seq![descr.icmpv6_type, descr.icmpv6_code] + be_bytes(descr.checksum) + descr.payload@,
        src,
        dst,
    )
}

/// The payload for `message`, or `PayloadTooBig` when the message is longer
/// than a length field can say.
pub fn form_checked_payload(payload: &[u8]) -> (res: Result<Vec<u8>, Error>)
    ensures
        payload@.len() > 65535 ==> (res matches Err(Error::PayloadTooBig { size }) && size
            == payload@.len()),
        payload@.len() <= 65535 ==> (res matches Ok(v) && v@ == checked_payload(payload@)),
{
    let len = payload.len();
    if len > 65535 {
        return Err(Error::PayloadTooBig { size: len });
    }
    let checksum = ping6_data_checksum(payload);
    let mut ret: Vec<u8> = Vec::with_capacity(len + 4);
    append_bytes(&mut ret, &u16_to_bytes_be(checksum));
    append_bytes(&mut ret, &u16_to_bytes_be(len as u16));
    append_bytes(&mut ret, payload);
    Ok(ret)
}

/// Checks the checksum and the length field of a received payload.
pub fn validate_payload(payload: &[u8]) -> (res: bool)
    requires
        payload@.len() >= 4,
    ensures
        res == payload_valid(payload@),
{
    let packet_checksum = read_u16_be(payload, 0);
    let len = read_u16_be(payload, 2);
    if len != ((payload.len() - 4) % 65536) as u16 {
        return false;
    }
    let rest = vstd::slice::slice_subrange(payload, 4, payload.len());
    let checksum = ping6_data_checksum(rest);
    packet_checksum == checksum
}

/// The bytes of the message `descr` sent from `src` to `dst`, with its
/// checksum field set.
pub fn make_packet(descr: &Icmpv6, src: [u8; 16], dst: [u8; 16]) -> (res: Vec<u8>)
    requires
        descr.payload@.len() + 4 <= MAX_CHECKSUMMED_LEN,
    ensures
        res@ == icmpv6_bytes(*descr, src@, dst@),
{
    let mut pkt: Vec<u8> = Vec::new();
    pkt.push(descr.icmpv6_type);
    pkt.push(descr.icmpv6_code);
    append_bytes(&mut pkt, &u16_to_bytes_be(descr.checksum));
    append_bytes(&mut pkt, descr.payload.as_slice());
    proof {
        assert(pkt@ =~= seq![descr.icmpv6_type, descr.icmpv6_code] + be_bytes(descr.checksum)
            + descr.payload@);
    }
    set_icmpv6_checksum(&mut pkt, src, dst);
    pkt
}

/// The echo request that carries `message` from `src` to `dst`: the message
/// itself in raw mode, else its checked payload.
pub fn datagram_packet(message: &[u8], raw: bool, src: [u8; 16], dst: [u8; 16]) -> (res: Result<
    Vec<u8>,
    Error,
>)
    requires
        raw ==> message@.len() + 4 <= MAX_CHECKSUMMED_LEN,
    ensures
        !raw && message@.len() > 65535 ==> (res matches Err(Error::PayloadTooBig { size })
            && size == message@.len()),
        raw ==> (res matches Ok(p) && p@ == with_icmpv6_checksum(
            seq![ICMPV6_ECHO_REQUEST, 0u8, 0u8, 0u8] + message@,
            src@,
            dst@,
        )),
        !raw && message@.len() <= 65535 ==> (res matches Ok(p) && p@ == with_icmpv6_checksum(
            seq![ICMPV6_ECHO_REQUEST, 0u8, 0u8, 0u8] + checked_payload(message@),
            src@,
            dst@,
        )),
{
    let payload = if raw {
        let mut v: Vec<u8> = Vec::new();
        append_bytes(&mut v, message);
        v
    } else {
        match form_checked_payload(message) {
            Ok(v) => v,
            Err(e) => {
                return Err(e);
            },
        }
    };
    let descr = Icmpv6 { icmpv6_type: ICMPV6_ECHO_REQUEST, icmpv6_code: 0, checksum: 0, payload };
    let pkt = make_packet(&descr, src, dst);
    proof {
        assert(seq![ICMPV6_ECHO_REQUEST, 0u8] + be_bytes(0u16) + descr.payload@ =~= seq![
            ICMPV6_ECHO_REQUEST,
            0u8,
            0u8,
            0u8,
        ] + descr.payload@);
    }
    Ok(pkt)
}

/// What `validate_icmpv6` accepts: when the destination address is known,
/// the checksum field holds the checksum from `src` to it; and the code is
/// 0.
pub open spec fn icmpv6_valid(packet: Seq<u8>, src: [u8; 16], dst: Option<[u8; 16]>) -> bool {
    &&& (dst matches Some(d) ==> be16(packet[2], packet[3]) == icmpv6_checksum(packet, src@, d@))
    &&& packet[1] == 0
}

/// Checks a received echo request that came from `src` to `dst`.
pub fn validate_icmpv6(packet: &[u8], src: [u8; 16], dst: Option<[u8; 16]>) -> (res: bool)
    requires
        4 <= packet@.len(),
        packet@[0] == ICMPV6_ECHO_REQUEST,
        dst is Some ==> packet@.len() <= MAX_CHECKSUMMED_LEN,
    ensures
        res == icmpv6_valid(packet@, src, dst),
{
    match dst {
        Some(dest_addr) => {
            if read_u16_be(packet, 2) != icmpv6_packet_checksum(packet, src, dest_addr) {
                return false;
            }
        },
        None => {},
    }
    packet[1] == 0
}

/// The message that an echo request payload carries, if any: the whole
/// payload in raw mode, else what follows the checksum and the length when
/// they are valid.
pub open spec fn carried_message(payload: Seq<u8>, raw: bool) -> Option<Seq<u8>> {
    if raw {
        Some(payload)
    } else if payload_valid(payload) {
        Some(payload.skip(4))
    } else {
        None
    }
}

/// The message that `payload` carries (see `carried_message`), to be shown
/// as text.
pub fn regular_output(payload: &[u8], raw: bool) -> (res: Option<Vec<u8>>)
    requires
        !raw ==> payload@.len() >= 4,
    ensures
        res matches Some(m) ==> carried_message(payload@, raw) == Some(m@),
        res is None ==> carried_message(payload@, raw) is None,
{
    if raw {
        let mut v: Vec<u8> = Vec::new();
        append_bytes(&mut v, payload);
        Some(v)
    } else if validate_payload(payload) {
        let mut v: Vec<u8> = Vec::new();
        append_bytes(&mut v, vstd::slice::slice_subrange(payload, 4, payload.len()));
        Some(v)
    } else {
        None
    }
}

/// The bytes written out for `payload` in binary mode: the message that it
/// carries (see `carried_message`), preceded by its length as two big-endian
/// bytes.
pub fn binary_output(payload: &[u8], raw: bool) -> (res: Option<Vec<u8>>)
    requires
        !raw ==> payload@.len() >= 4,
    ensures
        res matches Some(out) ==> (carried_message(payload@, raw) matches Some(m) && out@ == be_bytes(
            (m.len() % 65536) as u16,
        ) + m),
        res is None ==> carried_message(payload@, raw) is None,
{
    match regular_output(payload, raw) {
        Some(m) => {
            let len = (m.len() % 65536) as u16;
            let mut out: Vec<u8> = Vec::new();
            append_bytes(&mut out, &u16_to_bytes_be(len));
            append_bytes(&mut out, m.as_slice());
            Some(out)
        },
        None => None,
    }
}

/// The length announced by the two bytes read before a message.
pub fn message_length(len_buf: [u8; 2]) -> (res: usize)
    ensures
        res == be16(len_buf[0], len_buf[1]),
{
    read_u16_be(&len_buf, 0) as usize
}

/// Checks that a message announced with `len` bytes was read whole: `exp`
/// bytes were read.
pub fn check_message_read(len: usize, exp: usize) -> (res: Result<(), Error>)
    ensures
        exp == len <==> res is Ok,
        exp != len ==> res == Err::<(), Error>(Error::WrongLengthMessage { len, exp }),
{
    if exp == len {
        Ok(())
    } else {
        Err(Error::WrongLengthMessage { len, exp })
    }
}

/// A checked payload passes validation and carries the message it was
/// formed from.
pub proof fn lemma_checked_payload_roundtrip(message: Seq<u8>)
    requires
        message.len() <= 65535,
    ensures
        checked_payload(message).len() >= 4,
        payload_valid(checked_payload(message)),
        carried_message(checked_payload(message), false) == Some(message),
{
    let p = checked_payload(message);
    lemma_be16_of_be_bytes(ping6_checksum(message));
    lemma_be16_of_be_bytes(message.len() as u16);
    assert(p.skip(4) =~= message);
    assert(p[0] == be_bytes(ping6_checksum(message))[0]);
    assert(p[1] == be_bytes(ping6_checksum(message))[1]);
    assert(p[2] == be_bytes(message.len() as u16)[0]);
    assert(p[3] == be_bytes(message.len() as u16)[1]);
}

/// A datagram packet passes the receiver's checks: it is an echo request
/// whose checksum is right for its addresses and whose code is 0, and
/// outside the raw mode its payload carries the message.
pub proof fn lemma_datagram_packet_received(message: Seq<u8>, src: [u8; 16], dst: [u8; 16])
    requires
        message.len() <= 65535,
    ensures
        ({
            let p = with_icmpv6_checksum(
                seq![ICMPV6_ECHO_REQUEST, 0u8, 0u8, 0u8] + checked_payload(message),
                src@,
                dst@,
            );
            &&& p[0] == ICMPV6_ECHO_REQUEST
            &&& icmpv6_valid(p, src, Some(dst))
            &&& carried_message(p.skip(4), false) == Some(message)
        }),
{
    let u = seq![ICMPV6_ECHO_REQUEST, 0u8, 0u8, 0u8] + checked_payload(message);
    let p = with_icmpv6_checksum(u, src@, dst@);
    crate::packet::lemma_with_checksum_valid(u, src@, dst@);
    lemma_checked_payload_roundtrip(message);
    assert(p[0] == u[0]);
    assert(p[1] == u[1]);
    assert(p.skip(4) =~= checked_payload(message));
}

} // verus!
