use ping6_data::ack_gen_handle::AckGenHandle;
use ping6_data::broadcast::{broadcaster, BroadcastPoll};
use ping6_data::irange::IRange;
use ping6_data::ndp_parse::{
    icmpv6_header, icmpv6_option, ipv6_address, mac_addr, mac_addr_eof, ndp_packet, neighbor_advert,
    neighbor_solicit, IcmpV6Option, NdpPacket,
};
use ping6_data::net::{check_for_eagain, icmp6_filter, ifreq_name, nonblock_flags, Error, MacAddr, O_NONBLOCK};
use ping6_data::range_tracker::DTRange;
use ping6_data::timeout::{retry_step, take_poll, timeout_poll, RetryAction, StreamPoll, TimedResult};

#[test]
fn inclusive_ranges() {
    let r = IRange(3usize, 7usize);
    assert!(r.contains_point(3));
    assert!(r.contains_point(7));
    assert!(!r.contains_point(8));
    assert!(r.contains_range(IRange(4, 7)));
    assert!(!r.contains_range(IRange(4, 8)));
    assert!(r.intersects(IRange(7, 9)));
    assert!(!r.intersects(IRange(8, 9)));
    assert_eq!(r.len(), 5);
    assert_eq!(IRange(1u16, 1u16).len(), 1);
    assert!(IRange(10u32, 20u32).contains_point(15));
    assert_eq!(DTRange(5, 9).offset(-5), DTRange(0, 4));
}

#[test]
fn ack_generator_handle_flags() {
    let mut h = AckGenHandle::new();
    let g = h.share();
    assert!(!g.is_stopped());
    assert!(g.take_timeless());
    assert!(!g.take_timeless());
    h.request_timeless();
    assert!(g.take_timeless());
    h.stop();
    assert!(g.is_stopped());
}

#[test]
fn broadcast_of_the_latest_message() {
    let (mut b, rx, mut tx) = broadcaster::<u32>(2);
    assert!(rx.is_sender_present(&mut b));
    assert!(tx.are_receivers_present(&mut b));
    assert!(matches!(rx.poll(&mut b), BroadcastPoll::NotReady));
    let rx2 = rx.clone_in(&mut b);
    let woken = tx.start_send(&mut b, 7);
    assert_eq!(woken, vec![1]);
    match rx2.poll(&mut b) {
        BroadcastPoll::Ready(x) => assert_eq!(*x, 7),
        _ => panic!("message expected"),
    }
    assert!(!rx.drop_in(&mut b));
    assert!(rx2.drop_in(&mut b));
    assert!(!tx.are_receivers_present(&mut b));
}

#[test]
fn broadcast_sender_leaves() {
    let (mut b, rx, tx) = broadcaster::<u8>(1);
    assert!(matches!(rx.poll(&mut b), BroadcastPoll::NotReady));
    assert_eq!(tx.drop_in(&mut b), vec![1]);
    assert!(!rx.is_sender_present(&mut b));
    assert!(matches!(rx.poll(&mut b), BroadcastPoll::End));
}

#[test]
fn icmp_type_filter() {
    let mut f = icmp6_filter::new();
    let w = f.words();
    assert_eq!(w, [0xffff_ffffu32; 8]);
    f.pass(136);
    let w = f.words();
    assert_eq!(w[4], 0xffff_ffff & !(1 << 8));
    f.block(136);
    assert_eq!(f.words(), [0xffff_ffffu32; 8]);
    let mut p = icmp6_filter::new_pass();
    p.block(1);
    assert_eq!(p.words()[0], 2);
}

#[test]
fn interface_names() {
    assert_eq!(ifreq_name("eth0").unwrap()[..5], [b'e', b't', b'h', b'0', 0]);
    assert_eq!(
        ifreq_name("a-very-long-name"),
        Err(Error::IfNameTooLong { if_name: "a-very-long-name".to_string() })
    );
    assert!(ifreq_name("fifteen-chars-x").is_ok());
}

#[test]
fn nonblocking_flags() {
    assert_eq!(nonblock_flags(2, true), (2 | O_NONBLOCK, true, false));
    assert_eq!(nonblock_flags(2 | O_NONBLOCK, true), (2 | O_NONBLOCK, false, true));
    assert_eq!(nonblock_flags(2 | O_NONBLOCK, false), (O_NONBLOCK, true, true));
    assert!(check_for_eagain(11));
    assert!(!check_for_eagain(4));
}

#[test]
fn timed_stream_polls() {
    match timeout_poll(StreamPoll::Ready(Some(5u8)), true) {
        (StreamPoll::Ready(Some(TimedResult::InTime(5))), true) => {},
        _ => panic!("item expected"),
    }
    match timeout_poll(StreamPoll::<u8>::NotReady, true) {
        (StreamPoll::Ready(Some(TimedResult::TimedOut)), true) => {},
        _ => panic!("timeout expected"),
    }
    match timeout_poll(StreamPoll::<u8>::NotReady, false) {
        (StreamPoll::NotReady, false) => {},
        _ => panic!("nothing expected"),
    }
    match timeout_poll(StreamPoll::<u8>::Ready(None), false) {
        (StreamPoll::Ready(None), true) => {},
        _ => panic!("end expected"),
    }
}

fn ndp_message(typ: u8, flags: u8, options: &[u8]) -> Vec<u8> {
    let mut m = vec![typ, 0, 0x12, 0x34, flags, 0, 0, 0];
    m.extend_from_slice(&[0x20, 0x01, 0x0d, 0xb8, 0, 0, 0, 0, 0, 0, 0, 0, 0, 0, 0, 9]);
    m.extend_from_slice(options);
    m
}

#[test]
fn ndp_grammar() {
    assert!(ipv6_address(&[0; 15]).is_none());
    assert_eq!(ipv6_address(&[7; 17]).unwrap(), [7; 16]);
    assert_eq!(mac_addr(&[1, 2, 3, 4, 5, 6, 7]).unwrap(), MacAddr::new(1, 2, 3, 4, 5, 6));
    assert!(mac_addr_eof(&[1, 2, 3, 4, 5, 6, 7]).is_none());
    let h = icmpv6_header(&[136, 1, 0xab, 0xcd], 136).unwrap();
    assert_eq!((h.typ, h.code, h.checksum), (136, 1, 0xabcd));
    assert!(icmpv6_header(&[135, 1, 0xab, 0xcd], 136).is_none());
    match icmpv6_option(&[2, 1, 1, 2, 3, 4, 5, 6]) {
        Some((IcmpV6Option::TgtLLAddr(m), 8)) => assert_eq!(m, MacAddr::new(1, 2, 3, 4, 5, 6)),
        _ => panic!("option expected"),
    }
    assert!(icmpv6_option(&[3, 1, 1, 2, 3, 4, 5, 6]).is_none());
    assert!(icmpv6_option(&[1, 2, 1, 2, 3, 4, 5, 6]).is_none());

    let ns = ndp_message(135, 0, &[1, 1, 1, 2, 3, 4, 5, 6]);
    let s = neighbor_solicit(&ns).unwrap();
    assert_eq!(s.options.len(), 1);
    assert_eq!(s.target[15], 9);
    assert!(neighbor_solicit(&ndp_message(135, 0, &[1, 1, 1, 2, 3])).is_none());
    let na = ndp_message(136, 0xe0, &[]);
    let a = neighbor_advert(&na).unwrap();
    assert!(a.router && a.solicited && a.overrid);
    assert_eq!(a.header.checksum, 0x1234);
    assert!(matches!(ndp_packet(&na), Some(NdpPacket::NeighAdvert(_))));
    assert!(matches!(ndp_packet(&ns), Some(NdpPacket::NeighSolicit(_))));
    assert!(ndp_packet(&ndp_message(134, 0, &[])).is_none());
}

#[test]
fn a_cut_stream_ends_after_its_items() {
    let mut taken: u64 = 0;
    assert!(matches!(take_poll(&mut taken, 2, StreamPoll::Ready(Some(1))), StreamPoll::Ready(Some(1))));
    assert!(matches!(take_poll::<u32>(&mut taken, 2, StreamPoll::NotReady), StreamPoll::NotReady));
    assert_eq!(taken, 1);
    assert!(matches!(take_poll(&mut taken, 2, StreamPoll::Ready(Some(2))), StreamPoll::Ready(Some(2))));
    assert!(matches!(take_poll(&mut taken, 2, StreamPoll::Ready(Some(3))), StreamPoll::Ready(None)));
    let mut other: u64 = 0;
    assert!(matches!(take_poll::<u32>(&mut other, 5, StreamPoll::Ready(None)), StreamPoll::Ready(None)));
    assert_eq!(other, 5);
}

#[test]
fn a_gone_sender_stays_gone() {
    let (mut b, rx, tx) = broadcaster::<u32>(3);
    let rx2 = rx.clone_in(&mut b);
    assert_eq!(tx.drop_in(&mut b), Vec::<usize>::new());
    assert!(!rx.is_sender_present(&mut b));
    let rx3 = rx2.clone_in(&mut b);
    assert!(matches!(rx3.poll(&mut b), BroadcastPoll::End));
    assert!(!rx2.drop_in(&mut b));
    assert!(!rx3.is_sender_present(&mut b));
    assert!(matches!(rx.poll(&mut b), BroadcastPoll::End));
}

#[test]
fn a_wait_for_an_answer_resends_then_gives_up() {
    let mut taken: u64 = 0;
    assert!(matches!(retry_step::<u8>(&mut taken, 2, None, false), (RetryAction::Wait, false)));
    assert!(matches!(retry_step::<u8>(&mut taken, 2, None, true), (RetryAction::Resend, true)));
    assert!(matches!(retry_step(&mut taken, 2, Some(9u8), false), (RetryAction::Answered(9), true)));
    assert_eq!(taken, 2);
    assert!(matches!(retry_step::<u8>(&mut taken, 2, None, true), (RetryAction::GiveUp, true)));
}

#[test]
fn ndp_messages_keep_their_fields() {
    match ndp_packet(&ndp_message(136, 0x80, &[2, 1, 1, 2, 3, 4, 5, 6])) {
        Some(NdpPacket::NeighAdvert(a)) => {
            assert!(a.router && !a.solicited && !a.overrid);
            assert_eq!(a.target[15], 9);
            assert_eq!(a.header.checksum, 0x1234);
            assert_eq!(a.options.len(), 1);
        }
        _ => panic!("advertisement expected"),
    }
    match ndp_packet(&ndp_message(136, 0x40, &[])) {
        Some(NdpPacket::NeighAdvert(a)) => assert!(!a.router && a.solicited && !a.overrid),
        _ => panic!("advertisement expected"),
    }
    match ndp_packet(&ndp_message(135, 0, &[1, 1, 1, 2, 3, 4, 5, 6])) {
        Some(NdpPacket::NeighSolicit(s)) => {
            assert_eq!(s.target[15], 9);
            assert!(matches!(s.options[0], IcmpV6Option::SrcLLAddr(m) if m == MacAddr::new(1, 2, 3, 4, 5, 6)));
        }
        _ => panic!("solicitation expected"),
    }
}
