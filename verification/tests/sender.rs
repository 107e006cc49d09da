use ping6_data::constants::StreamPacketFlags;
use ping6_data::packet::{make_stream_server_icmpv6_packet, parse_stream_client_packet, validate_stream_packet};
use ping6_data::sender::{is_ack_or_fin, is_fin_ack_for, is_syn_ack_for, on_syn_ack, SendData};

const CLIENT: [u8; 16] = [0xfe, 0x80, 0, 0, 0, 0, 0, 0, 0, 0, 0, 0, 0, 0, 0, 1];
const SERVER: [u8; 16] = [0xfe, 0x80, 0, 0, 0, 0, 0, 0, 0, 0, 0, 0, 0, 0, 0, 2];

fn server_packet(flags: StreamPacketFlags, start: u16, end: u16) -> Vec<u8> {
    let mut buf: Vec<u8> = Vec::new();
    make_stream_server_icmpv6_packet(&mut buf, SERVER, CLIENT, start, end, flags, &[])
}

fn send_next(s: &mut SendData) -> (u16, Vec<u8>) {
    s.fill_next_data();
    assert!(s.has_next_data());
    let pkt = s.make_data_send(CLIENT, SERVER).unwrap();
    assert!(validate_stream_packet(&pkt, Some((CLIENT, SERVER))));
    let parsed = parse_stream_client_packet(&pkt);
    assert_eq!(parsed.flags.bits(), 0);
    s.send_done();
    (parsed.seqno, parsed.payload.to_vec())
}

#[test]
fn data_goes_out_within_the_window() {
    let mut s = SendData::new(2, 1280, 4096, 100);
    assert_eq!(s.read_space(64 * 1024), 4096);
    assert_eq!(s.read_space(10), 10);
    s.input_read(b"hello world");
    assert_eq!(send_next(&mut s), (100, b"hello world".to_vec()));
    s.fill_next_data();
    assert!(!s.has_next_data());
    s.input_read(b"more");
    assert_eq!(send_next(&mut s), (101, b"more".to_vec()));
    assert_eq!(s.get_next_seqno(), 102);
    s.input_read(b"x");
    s.fill_next_data();
    assert!(!s.has_next_data());
    let ack = server_packet(StreamPacketFlags::ack(), 100, 100);
    assert_eq!(s.receive_packet(&ack), (true, true));
    assert_eq!(s.receive_packet(&ack), (true, false));
    assert_eq!(send_next(&mut s), (102, b"x".to_vec()));
}

#[test]
fn a_packet_being_sent_blocks_the_next() {
    let mut s = SendData::new(4, 1280, 4096, 7);
    s.input_read(b"ab");
    s.fill_next_data();
    assert!(s.make_data_send(CLIENT, SERVER).is_some());
    s.input_read(b"cd");
    s.fill_next_data();
    assert!(s.make_data_send(CLIENT, SERVER).is_none());
    s.send_done();
    let pkt = s.make_data_send(CLIENT, SERVER).unwrap();
    assert_eq!(parse_stream_client_packet(&pkt).seqno, 8);
}

#[test]
fn large_input_is_cut_to_the_payload_size() {
    let mut s = SendData::new(8, 1280, 4096, 0);
    let data = vec![0x5a; 3000];
    s.input_read(&data);
    let (_, first) = send_next(&mut s);
    assert_eq!(first.len(), 1280 - 50);
    let (_, second) = send_next(&mut s);
    assert_eq!(second.len(), 1280 - 50);
    let (seqno, third) = send_next(&mut s);
    assert_eq!(seqno, 2);
    assert_eq!(third.len(), 3000 - 2 * (1280 - 50));
}

#[test]
fn timeout_sends_the_unacknowledged_again() {
    let mut s = SendData::new(4, 1280, 4096, 65535);
    s.input_read(b"one");
    assert_eq!(send_next(&mut s), (65535, b"one".to_vec()));
    s.input_read(b"two");
    assert_eq!(send_next(&mut s), (0, b"two".to_vec()));
    assert!(s.ack_timeout());
    assert_eq!(s.retransmissions_queued(), 2);
    assert!(!s.ack_timeout());
    assert_eq!(send_next(&mut s), (65535, b"one".to_vec()));
    assert_eq!(s.retransmissions_queued(), 1);
    assert_eq!(s.get_next_seqno(), 1);
}

#[test]
fn window_start_ack_acknowledges_the_window_prefix() {
    let mut s = SendData::new(8, 1280, 4096, 10);
    for d in [b"a", b"b", b"c"] {
        s.input_read(d);
        send_next(&mut s);
    }
    let ws = server_packet(StreamPacketFlags::ack().union(StreamPacketFlags::ws()), 12, 12);
    assert_eq!(s.receive_packet(&ws), (true, true));
    assert!(!s.finish());
    s.input_read(b"");
    assert!(s.finish());
    assert_eq!(s.read_space(100), 0);
}

#[test]
fn nothing_waits_no_ack_is_taken() {
    let mut s = SendData::new(8, 1280, 4096, 10);
    let ack = server_packet(StreamPacketFlags::ack(), 10, 10);
    assert_eq!(s.receive_packet(&ack), (false, false));
}

#[test]
fn handshake_decisions() {
    let syn_ack = server_packet(StreamPacketFlags::syn().union(StreamPacketFlags::ack()), 5, 5);
    assert!(is_syn_ack_for(&syn_ack, 5));
    assert!(!is_syn_ack_for(&syn_ack, 6));
    assert_eq!(on_syn_ack(5, &syn_ack), (6, Some(6)));
    assert_eq!(on_syn_ack(4, &syn_ack), (5, None));
    let syn_ack_ws = server_packet(
        StreamPacketFlags::syn().union(StreamPacketFlags::ack()).union(StreamPacketFlags::ws()),
        5,
        5,
    );
    assert!(is_syn_ack_for(&syn_ack_ws, 5));
    assert_eq!(on_syn_ack(5, &syn_ack_ws), (6, None));
    assert_eq!(on_syn_ack(65535, &server_packet(StreamPacketFlags::syn().union(StreamPacketFlags::ack()), 65535, 65535)), (0, Some(0)));
    let fin_ack = server_packet(StreamPacketFlags::fin().union(StreamPacketFlags::ack()), 9, 9);
    assert!(is_fin_ack_for(&fin_ack, 9));
    assert!(!is_syn_ack_for(&fin_ack, 9));
    assert!(is_ack_or_fin(&fin_ack));
    assert!(!is_ack_or_fin(&syn_ack));
    assert!(is_ack_or_fin(&server_packet(StreamPacketFlags::fin(), 1, 1)));
}

#[test]
fn acknowledged_data_makes_room_for_more_input() {
    let mut s = SendData::new(4, 1280, 3000, 0);
    let data = vec![1u8; 3000];
    assert_eq!(s.read_space(5000), 3000);
    s.input_read(&data);
    let (a, _) = send_next(&mut s);
    let (b, _) = send_next(&mut s);
    assert_eq!((a, b), (0, 1));
    // full and nothing acknowledged: no room
    assert_eq!(s.read_space(5000), 0);
    assert_eq!(s.receive_packet(&server_packet(StreamPacketFlags::ack(), 0, 1)), (true, true));
    // the two acknowledged packets give their bytes back
    assert_eq!(s.read_space(5000), 2 * (1280 - 50));
}
