use ping6_data::constants::StreamPacketFlags;
use ping6_data::irange::IRange;
use ping6_data::packet::make_stream_client_icmpv6_packet;
use ping6_data::receiver::{ack_gen_poll, carries_fin, is_first_syn, AckGenPoll, AckSender, RecvStream};
use ping6_data::recv_errors::Error;
use ping6_data::seqno_tracker::SeqnoTracker;

fn client_packet(flags: StreamPacketFlags, seqno: u16, data: &[u8]) -> Vec<u8> {
    let mut buf: Vec<u8> = Vec::new();
    make_stream_client_icmpv6_packet(&mut buf, [1; 16], [2; 16], seqno, flags, data)
}

#[test]
fn first_syn_opens_the_stream() {
    let syn = client_packet(StreamPacketFlags::syn(), 500, &[]);
    assert!(is_first_syn(&syn));
    assert!(!is_first_syn(&client_packet(StreamPacketFlags::syn().union(StreamPacketFlags::ack()), 500, &[])));
    let (stream, acked) = RecvStream::on_first_syn(&syn, 4, 1280);
    assert_eq!(acked, 500);
    assert_eq!(stream.get_next_seqno(), 501);
    assert!(stream.can_receive());
}

#[test]
fn handshake_keeps_early_data_and_passes_the_ack() {
    let syn = client_packet(StreamPacketFlags::syn(), 10, &[]);
    let (mut stream, _) = RecvStream::on_first_syn(&syn, 4, 1280);
    let early = client_packet(StreamPacketFlags::empty(), 11, b"early");
    assert_eq!(stream.on_handshake_packet(&early), Ok(false));
    let ack = client_packet(StreamPacketFlags::ack(), 11, &[]);
    assert_eq!(stream.on_handshake_packet(&ack), Ok(true));
    let out = stream.next_write().unwrap();
    assert_eq!(out.as_slice(), &early[..]);
    assert_eq!(stream.get_next_seqno(), 12);
}

#[test]
fn handshake_overrun() {
    let syn = client_packet(StreamPacketFlags::syn(), 10, &[]);
    let (mut stream, _) = RecvStream::on_first_syn(&syn, 1, 20);
    let early = client_packet(StreamPacketFlags::empty(), 12, &[0; 20]);
    assert_eq!(stream.on_handshake_packet(&early), Err(Error::RecvBufferOverrunOnStart));
}

#[test]
fn data_is_written_in_sequence() {
    let syn = client_packet(StreamPacketFlags::syn(), 100, &[]);
    let (mut stream, _) = RecvStream::on_first_syn(&syn, 8, 1280);
    assert_eq!(stream.get_next_seqno(), 101);
    let p0 = client_packet(StreamPacketFlags::empty(), 101, b"a");
    let p1 = client_packet(StreamPacketFlags::empty(), 102, b"b");
    let p2 = client_packet(StreamPacketFlags::empty(), 103, b"c");
    assert!(stream.accepts_data_packet(&p1));
    assert!(!stream.accepts_data_packet(&client_packet(StreamPacketFlags::ack(), 102, b"c")));
    assert!(!stream.accepts_data_packet(&client_packet(StreamPacketFlags::empty(), 109, b"c")));
    assert_eq!(stream.on_data_packet(&p2), Ok(()));
    assert!(stream.next_write().is_none());
    assert_eq!(stream.on_data_packet(&p0), Ok(()));
    let w0 = stream.next_write().unwrap();
    assert_eq!(w0.as_slice(), &p0[..]);
    assert!(stream.written(w0));
    assert!(stream.next_write().is_none());
    assert_eq!(stream.on_data_packet(&p1), Ok(()));
    assert_eq!(stream.next_write().unwrap().as_slice(), &p1[..]);
    assert_eq!(stream.next_write().unwrap().as_slice(), &p2[..]);
    assert_eq!(stream.get_next_seqno(), 104);
    let (ranges, start) = stream.take_acks();
    assert_eq!(start, 101);
    assert_eq!(ranges, vec![IRange(101u16, 103u16)]);
}

#[test]
fn reordering_compares_raw_sequence_numbers() {
    let syn = client_packet(StreamPacketFlags::syn(), 65534, &[]);
    let (mut stream, _) = RecvStream::on_first_syn(&syn, 8, 1280);
    assert_eq!(stream.get_next_seqno(), 65535);
    let after_wrap = client_packet(StreamPacketFlags::empty(), 0, b"b");
    let before_wrap = client_packet(StreamPacketFlags::empty(), 65535, b"a");
    assert_eq!(stream.on_data_packet(&after_wrap), Ok(()));
    assert_eq!(stream.on_data_packet(&before_wrap), Ok(()));
    // the smallest number stored is 0, not the expected 65535
    assert!(stream.next_write().is_none());
}

#[test]
fn packet_larger_than_the_mtu() {
    let syn = client_packet(StreamPacketFlags::syn(), 0, &[]);
    let (mut stream, _) = RecvStream::on_first_syn(&syn, 4, 100);
    let big = client_packet(StreamPacketFlags::empty(), 1, &[0; 110]);
    assert_eq!(stream.on_data_packet(&big), Err(Error::MtuLessThanReal { packet_size: 120 }));
}

#[test]
fn acknowledgements_flag_the_first_of_a_batch() {
    let mut sender = AckSender::new();
    assert!(sender.next_ack().is_none());
    sender.set_ranges(vec![IRange(1, 2), IRange(5, 5)]);
    assert_eq!(sender.next_ack(), Some((64 | 16, 1, 2)));
    assert!(sender.next_ack().is_none());
    sender.sent();
    assert_eq!(sender.next_ack(), Some((64, 5, 5)));
    sender.sent();
    assert!(sender.next_ack().is_none());
}

#[test]
fn acknowledgement_generator_polls() {
    let mut t = SeqnoTracker::new(7);
    assert!(matches!(ack_gen_poll(&mut t, true, true, true, true), AckGenPoll::End));
    assert!(matches!(ack_gen_poll(&mut t, false, false, true, true), AckGenPoll::NotReady));
    assert!(matches!(ack_gen_poll(&mut t, false, true, true, false), AckGenPoll::NotReady));
    t.add(8);
    assert!(matches!(ack_gen_poll(&mut t, false, true, false, false), AckGenPoll::NotReady));
    match ack_gen_poll(&mut t, false, true, false, true) {
        AckGenPoll::Ready(ranges, start) => {
            assert_eq!(ranges, vec![IRange(8u16, 8u16)]);
            assert_eq!(start, 7);
        },
        _ => panic!("expected ranges"),
    }
}

#[test]
fn fin_packets_are_recognised() {
    assert!(carries_fin(&client_packet(StreamPacketFlags::fin(), 3, &[])));
    assert!(carries_fin(&client_packet(StreamPacketFlags::fin().union(StreamPacketFlags::ack()), 3, &[])));
    assert!(!carries_fin(&client_packet(StreamPacketFlags::ack(), 3, &[])));
}

#[test]
fn a_poll_that_hands_out_ranges_moves_the_window() {
    let mut t = SeqnoTracker::new(100);
    t.add(100);
    t.add(101);
    t.add(104);
    match ack_gen_poll(&mut t, false, true, true, false) {
        AckGenPoll::Ready(v, ws) => {
            assert_eq!(v, vec![IRange(100, 101), IRange(104, 104)]);
            assert_eq!(ws, 100);
        }
        _ => panic!("ranges expected"),
    }
    // the window now starts at 102: 104 is still recorded, 100 is not
    assert!(!t.add(104));
    assert!(t.add(100));
    match ack_gen_poll(&mut t, false, true, true, false) {
        AckGenPoll::Ready(v, ws) => {
            assert_eq!(ws, 102);
            assert_eq!(v, vec![IRange(104, 104), IRange(100, 100)]);
        }
        _ => panic!("ranges expected"),
    }
}

#[test]
fn packets_are_written_out_by_sequence_number() {
    let syn = client_packet(StreamPacketFlags::syn(), 10, &[]);
    let (mut stream, _) = RecvStream::on_first_syn(&syn, 8, 1280);
    for seqno in [13u16, 11, 12] {
        stream.on_data_packet(&client_packet(StreamPacketFlags::empty(), seqno, &[seqno as u8])).unwrap();
    }
    let mut seen = Vec::new();
    while let Some(slice) = stream.next_write() {
        let b = slice.as_slice().to_vec();
        seen.push(u16::from_be_bytes([b[8], b[9]]));
        stream.written(slice);
    }
    assert_eq!(seen, vec![11, 12, 13]);
}
