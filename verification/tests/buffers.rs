use ping6_data::buffer::TrimmingBuffer;
use ping6_data::constants::StreamPacketFlags;
use ping6_data::data_orderer::DataOrderer;
use ping6_data::irange::IRange;
use ping6_data::packet::make_stream_client_icmpv6_packet;
use ping6_data::seqno_tracker::SeqnoTracker;

fn client_packet(seqno: u16, data: &[u8]) -> Vec<u8> {
    let mut buf: Vec<u8> = Vec::new();
    make_stream_client_icmpv6_packet(&mut buf, [1; 16], [2; 16], seqno, StreamPacketFlags::empty(), data)
}

#[test]
fn trimming_buffer_hands_out_in_order() {
    let mut b = TrimmingBuffer::new(10);
    assert_eq!(b.get_space_left(), 10);
    b.add(b"abcdef");
    assert_eq!(b.get_space_left(), 4);
    assert_eq!(b.get_available(), 6);
    let s1 = b.take(4).unwrap();
    assert_eq!(s1.as_slice(), b"abcd");
    let s2 = b.take(4).unwrap();
    assert_eq!(s2.as_slice(), b"ef");
    assert!(b.take(4).is_none());
    assert_eq!(b.get_available(), 0);
}

#[test]
fn trimming_buffer_reclaims_released_prefix() {
    let mut b = TrimmingBuffer::new(8);
    b.add(b"12345678");
    let s1 = b.take(3).unwrap();
    let s2 = b.take(3).unwrap();
    assert!(b.release(s2));
    b.cleanup();
    assert_eq!(b.get_space_left(), 0);
    assert!(b.release(s1));
    b.cleanup();
    assert_eq!(b.get_space_left(), 6);
    b.add(b"abcdef");
    let s3 = b.take(10).unwrap();
    assert_eq!(s3.as_slice(), b"78abcdef");
}

#[test]
fn trimming_buffer_refuses_a_slice_twice() {
    let mut b = TrimmingBuffer::new(8);
    let s = b.add_slicing(b"xy");
    assert_eq!(s.as_slice(), b"xy");
    let copy_again = b.take(1);
    assert!(copy_again.is_none());
    assert!(b.release(s));
    let mut other = TrimmingBuffer::new(8);
    let foreign = other.add_slicing(b"zz");
    assert!(!b.release(foreign));
}

#[test]
fn seqno_tracker_records_each_number_once() {
    let mut t = SeqnoTracker::new(100);
    assert!(t.is_empty());
    assert!(t.add(101));
    assert!(!t.add(101));
    assert!(t.add(100));
    assert!(t.add(105));
    assert_eq!(t.pos_to_sequential(105), 5);
    assert_eq!(t.pos_from_sequential(5), 105);
    let (ranges, start) = t.take();
    assert_eq!(start, 100);
    assert_eq!(ranges, vec![IRange(100u16, 101u16), IRange(105u16, 105u16)]);
    assert_eq!(t.pos_to_sequential(102), 0);
    let (ranges, start) = t.take();
    assert_eq!(start, 102);
    assert_eq!(ranges, vec![IRange(105u16, 105u16)]);
}

#[test]
fn seqno_tracker_wraps_around() {
    let mut t = SeqnoTracker::new(65534);
    assert!(t.add(65534));
    assert!(t.add(65535));
    assert!(t.add(0));
    assert_eq!(t.pos_to_sequential(0), 2);
    let (ranges, start) = t.take();
    assert_eq!(start, 65534);
    assert_eq!(ranges, vec![IRange(65534u16, 0u16)]);
    assert_eq!(t.pos_to_sequential(1), 0);
    assert_eq!(t.pos_from_sequential(65536 + 3), 4);
    assert!(t.is_empty());
}

#[test]
fn data_orderer_hands_out_smallest_seqno_first() {
    let mut o = DataOrderer::new(4, 100);
    assert!(o.is_empty());
    assert_eq!(o.get_space_left(), 400);
    let p3 = client_packet(3, b"three");
    let p1 = client_packet(1, b"one");
    let p2 = client_packet(2, b"two");
    o.add(&p3);
    o.add(&p1);
    o.add(&p2);
    assert_eq!(o.get_space_left(), 400 - p1.len() - p2.len() - p3.len());
    assert_eq!(o.peek_seqno(), Some(1));
    let a = o.take().unwrap();
    assert_eq!(a.as_slice(), &p1[..]);
    assert_eq!(o.peek_seqno(), Some(2));
    let b = o.take().unwrap();
    assert_eq!(b.as_slice(), &p2[..]);
    let c = o.take().unwrap();
    assert_eq!(c.as_slice(), &p3[..]);
    assert!(o.take().is_none());
    assert!(o.peek_seqno().is_none());
    assert!(o.release(c));
    o.cleanup();
    assert!(o.release(a));
    o.cleanup();
    assert_eq!(o.get_space_left(), 400 - p2.len());
}
