use ping6_data::checksum::{icmpv6_packet_checksum, ping6_data_checksum};
use ping6_data::datagram::{
    binary_output, check_message_read, datagram_packet, form_checked_payload, make_packet,
    message_length, regular_output, validate_icmpv6, validate_payload, Icmpv6,
};
use ping6_data::packet::read_u16_be;
use ping6_data::send_errors::Error;

fn addr(last: u8) -> [u8; 16] {
    let mut a = [0u8; 16];
    a[0] = 0x20;
    a[1] = 0x01;
    a[15] = last;
    a
}

#[test]
fn checked_payload_layout() {
    let p = form_checked_payload(b"hi there").unwrap();
    assert_eq!(p.len(), 12);
    assert_eq!(read_u16_be(&p, 0), ping6_data_checksum(b"hi there"));
    assert_eq!(read_u16_be(&p, 2), 8);
    assert_eq!(&p[4..], b"hi there");
    assert!(validate_payload(&p));
}

#[test]
fn payload_too_big() {
    let big = vec![0u8; 65536];
    assert_eq!(form_checked_payload(&big), Err(Error::PayloadTooBig { size: 65536 }));
    let max = vec![7u8; 65535];
    assert_eq!(form_checked_payload(&max).unwrap().len(), 65539);
}

#[test]
fn damaged_payload_is_refused() {
    let mut p = form_checked_payload(b"message").unwrap();
    p[5] ^= 0x20;
    assert!(!validate_payload(&p));
    let mut q = form_checked_payload(b"message").unwrap();
    q[3] = 6;
    assert!(!validate_payload(&q));
    assert!(validate_payload(&form_checked_payload(b"").unwrap()));
}

#[test]
fn packet_from_description() {
    let descr = Icmpv6 { icmpv6_type: 128, icmpv6_code: 0, checksum: 0x5555, payload: vec![1, 2, 3] };
    let pkt = make_packet(&descr, addr(1), addr(2));
    assert_eq!(pkt.len(), 7);
    assert_eq!(&pkt[4..], &[1, 2, 3]);
    assert_eq!(read_u16_be(&pkt, 2), icmpv6_packet_checksum(&pkt, addr(1), addr(2)));
    assert!(validate_icmpv6(&pkt, addr(1), Some(addr(2))));
    assert!(validate_icmpv6(&pkt, addr(9), None));
    assert!(!validate_icmpv6(&pkt, addr(9), Some(addr(2))));
    let mut coded = pkt.clone();
    coded[1] = 3;
    assert!(!validate_icmpv6(&coded, addr(1), None));
}

#[test]
fn datagram_packets_raw_and_checked() {
    let raw = datagram_packet(b"abc", true, addr(1), addr(2)).unwrap();
    assert_eq!(&raw[4..], b"abc");
    assert_eq!(raw[0], 128);
    let checked = datagram_packet(b"abc", false, addr(1), addr(2)).unwrap();
    assert_eq!(checked.len(), 4 + 4 + 3);
    assert!(validate_payload(&checked[4..]));
    assert!(validate_icmpv6(&checked, addr(1), Some(addr(2))));
    assert_eq!(regular_output(&checked[4..], false).unwrap(), b"abc".to_vec());
    let big = vec![0u8; 70000];
    assert_eq!(datagram_packet(&big, false, addr(1), addr(2)), Err(Error::PayloadTooBig { size: 70000 }));
}

#[test]
fn outputs_of_the_receiver() {
    let p = form_checked_payload(b"xyz").unwrap();
    assert_eq!(regular_output(&p, false).unwrap(), b"xyz".to_vec());
    assert_eq!(regular_output(&p, true).unwrap(), p);
    assert_eq!(binary_output(&p, false).unwrap(), vec![0, 3, b'x', b'y', b'z']);
    let mut bad = p.clone();
    bad[0] ^= 1;
    assert!(regular_output(&bad, false).is_none());
    assert!(binary_output(&bad, false).is_none());
    assert_eq!(binary_output(&[9, 8], true).unwrap(), vec![0, 2, 9, 8]);
}

#[test]
fn length_prefixed_messages() {
    assert_eq!(message_length([1, 2]), 258);
    assert_eq!(check_message_read(5, 5), Ok(()));
    assert_eq!(check_message_read(5, 3), Err(Error::WrongLengthMessage { len: 5, exp: 3 }));
}
