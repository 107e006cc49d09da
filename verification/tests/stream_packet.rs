use std::hash::Hasher;

use ping6_data::checksum::{icmpv6_packet_checksum, ping6_data_checksum, u16_to_bytes_be};
use ping6_data::constants::{stream_mtu, StreamPacketFlags, IPV6_MIN_MTU};
use ping6_data::packet::{
    make_stream_client_icmpv6_packet, make_stream_server_icmpv6_packet, parse_stream_client_packet,
    parse_stream_client_packet_payload, parse_stream_server_packet, read_u16_be,
    validate_stream_packet,
};

fn addr(last: u8) -> [u8; 16] {
    let mut a = [0u8; 16];
    a[0] = 0xfe;
    a[1] = 0x80;
    a[15] = last;
    a
}

fn loopback() -> [u8; 16] {
    let mut a = [0u8; 16];
    a[15] = 1;
    a
}

#[test]
fn icmpv6_checksum_of_a_known_echo_request() {
    let data: Vec<u8> = vec![
        0x80, 0x00, 0xff, 0xff, 0x00, 0x00, 0x00, 0x01, 0x20, 0x20, 0x75, 0x73, 0x74, 0x20, 0x61,
        0x20, 0x66, 0x6c, 0x65, 0x73, 0x68, 0x20, 0x77, 0x6f, 0x75, 0x6e, 0x64, 0x20, 0x20, 0x74,
        0x69, 0x73, 0x20, 0x62, 0x75, 0x74, 0x20, 0x61, 0x20, 0x73, 0x63, 0x72, 0x61, 0x74, 0x63,
        0x68, 0x20, 0x20, 0x6b, 0x6e, 0x69, 0x67, 0x68, 0x74, 0x73, 0x20, 0x6f, 0x66, 0x20, 0x6e,
        0x69, 0x20, 0x20, 0x20,
    ];
    assert_eq!(icmpv6_packet_checksum(&data, loopback(), loopback()), 0x1d2e);
    let mut other = data.clone();
    other[0] = 0x81;
    assert_eq!(icmpv6_packet_checksum(&other, loopback(), loopback()), 0x1c2e);
}

#[test]
fn icmpv6_checksum_skips_its_own_field() {
    let mut data: Vec<u8> = vec![0x80, 0, 0x12, 0x34, 1, 2, 3, 4, 5];
    let a = icmpv6_packet_checksum(&data, addr(1), addr(2));
    data[2] = 0xab;
    data[3] = 0xcd;
    assert_eq!(icmpv6_packet_checksum(&data, addr(1), addr(2)), a);
    assert_ne!(icmpv6_packet_checksum(&data, addr(1), addr(3)), a);
}

#[test]
fn protocol_checksum_is_seahash_of_length_and_payload() {
    let payload = b"hello, world";
    let mut hasher = seahash::SeaHasher::new();
    hasher.write(&[0, payload.len() as u8]);
    hasher.write(payload);
    let expected = (hasher.finish() & 0xffff) as u16;
    assert_eq!(ping6_data_checksum(payload), expected);
    assert_ne!(ping6_data_checksum(b"hello, world!"), expected);
}

#[test]
fn big_endian_bytes() {
    assert_eq!(u16_to_bytes_be(0x1234), [0x12, 0x34]);
    assert_eq!(read_u16_be(&[0, 0xab, 0xcd], 1), 0xabcd);
}

#[test]
fn client_packet_roundtrip() {
    let src = addr(1);
    let dst = addr(2);
    let mut buf: Vec<u8> = Vec::new();
    let flags = StreamPacketFlags::syn();
    let pkt = make_stream_client_icmpv6_packet(&mut buf, src, dst, 0xbeef, flags, b"data");
    assert!(buf.is_empty());
    assert_eq!(pkt.len(), 10 + 4);
    assert_eq!(pkt[0], 128);
    assert_eq!(pkt[1], 0);
    assert_eq!(pkt[6], 0xff);
    assert_eq!(pkt[7], 128);
    assert_eq!(read_u16_be(&pkt, 4), ping6_data_checksum(&pkt[6..]));
    assert_eq!(read_u16_be(&pkt, 2), icmpv6_packet_checksum(&pkt, src, dst));
    assert!(validate_stream_packet(&pkt, Some((src, dst))));
    assert!(validate_stream_packet(&pkt, None));
    assert!(!validate_stream_packet(&pkt, Some((src, addr(3)))));
    let parsed = parse_stream_client_packet(&pkt);
    assert_eq!(parsed.flags.bits(), 128);
    assert_eq!(parsed.seqno, 0xbeef);
    assert_eq!(parsed.payload, b"data");
    let inner = parse_stream_client_packet_payload(&pkt[4..]);
    assert_eq!(inner.seqno, 0xbeef);
    assert_eq!(inner.payload, b"data");
}

#[test]
fn server_packet_roundtrip() {
    let src = addr(2);
    let dst = addr(1);
    let mut buf: Vec<u8> = Vec::new();
    let flags = StreamPacketFlags::ack().union(StreamPacketFlags::ws());
    let pkt = make_stream_server_icmpv6_packet(&mut buf, src, dst, 10, 20, flags, &[]);
    assert_eq!(pkt.len(), 12);
    assert!(validate_stream_packet(&pkt, Some((src, dst))));
    let parsed = parse_stream_server_packet(&pkt);
    assert_eq!(parsed.flags.bits(), 64 | 16);
    assert_eq!(parsed.seqno_start, 10);
    assert_eq!(parsed.seqno_end, 20);
    assert!(parsed.payload.is_empty());
}

#[test]
fn validation_rejects_damaged_packets() {
    let src = addr(1);
    let dst = addr(2);
    let mut buf: Vec<u8> = Vec::new();
    let pkt = make_stream_client_icmpv6_packet(&mut buf, src, dst, 7, StreamPacketFlags::empty(), b"xyz");
    let mut bad_type = pkt.clone();
    bad_type[0] = 129;
    assert!(!validate_stream_packet(&bad_type, None));
    let mut bad_code = pkt.clone();
    bad_code[1] = 1;
    assert!(!validate_stream_packet(&bad_code, None));
    let mut bad_data = pkt.clone();
    bad_data[12] ^= 1;
    assert!(!validate_stream_packet(&bad_data, None));
    let mut bad_icmp_checksum = pkt.clone();
    bad_icmp_checksum[2] ^= 1;
    assert!(validate_stream_packet(&bad_icmp_checksum, None));
    assert!(!validate_stream_packet(&bad_icmp_checksum, Some((src, dst))));
    assert!(!validate_stream_packet(&pkt[..9], None));
}

#[test]
fn flags_outside_the_four_are_rejected() {
    assert!(StreamPacketFlags::from_bits(0x01).is_none());
    assert_eq!(StreamPacketFlags::from_bits(0xf0).unwrap().bits(), 0xf0);
    let f = StreamPacketFlags::syn().union(StreamPacketFlags::ack());
    assert!(f.contains(StreamPacketFlags::syn()));
    assert!(!f.contains(StreamPacketFlags::fin()));
}

#[test]
fn stream_mtu_choice() {
    assert_eq!(stream_mtu(None), IPV6_MIN_MTU);
    assert_eq!(stream_mtu(Some(1500)), 1500);
    assert_eq!(stream_mtu(Some(70000)), 65535);
}
