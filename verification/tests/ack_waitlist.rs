use ping6_data::ack_waitlist::{AckWait, AckWaitlist};
use ping6_data::buffer::TrimmingBuffer;
use ping6_data::irange::IRange;

fn list_with(seqnos: &[u16], buf: &mut TrimmingBuffer) -> AckWaitlist {
    let mut w = AckWaitlist::new(16, 1280);
    for &s in seqnos {
        let slice = buf.add_slicing(&[s as u8, 0xaa]);
        w.add(AckWait::new(s, slice));
    }
    w
}

fn seqnos_of(w: &AckWaitlist) -> Vec<u16> {
    w.iter().into_iter().map(|(s, _)| s).collect()
}

#[test]
fn remove_acknowledges_a_range() {
    let mut buf = TrimmingBuffer::new(1000);
    let mut w = list_with(&[10, 11, 12, 13, 14], &mut buf);
    assert_eq!(w.first_seqno(), Some(10));
    assert!(w.remove(IRange(11, 12)));
    assert_eq!(seqnos_of(&w), vec![10, 13, 14]);
    assert!(!w.remove(IRange(11, 12)));
    assert_eq!(seqnos_of(&w), vec![10, 13, 14]);
    assert!(w.cleanup().is_empty());
    assert!(w.remove(IRange(10, 10)));
    let dropped = w.cleanup();
    assert_eq!(dropped.iter().map(|x| x.seqno).collect::<Vec<u16>>(), vec![10, 11, 12]);
    assert_eq!(w.first_seqno(), Some(13));
    assert_eq!(seqnos_of(&w), vec![13, 14]);
}

#[test]
fn remove_wrapping_range() {
    let mut buf = TrimmingBuffer::new(1000);
    let mut w = list_with(&[65534, 65535, 0, 1], &mut buf);
    // the upper part [65535, 65535] takes every later packet; the lower
    // part [0, 0] then finds nothing more and answers for the call
    assert!(!w.remove(IRange(65535, 0)));
    assert_eq!(seqnos_of(&w), vec![65534]);
}

#[test]
fn remove_wrapping_range_needs_its_upper_part() {
    let mut buf = TrimmingBuffer::new(1000);
    let mut w = list_with(&[0, 1, 2], &mut buf);
    assert!(!w.remove(IRange(65000, 1)));
    assert_eq!(seqnos_of(&w), vec![0, 1, 2]);
}

#[test]
fn remove_stops_at_the_first_number_above_the_range() {
    let mut buf = TrimmingBuffer::new(1000);
    let mut w = list_with(&[5, 9, 6], &mut buf);
    assert!(w.remove_non_wrapping(IRange(5, 6)));
    assert_eq!(seqnos_of(&w), vec![9, 6]);
}

#[test]
fn fullness_and_emptiness() {
    let mut buf = TrimmingBuffer::new(1000);
    let mut w = AckWaitlist::new(1, 2);
    assert!(w.is_empty());
    assert!(!w.is_full());
    w.add(AckWait::new(1, buf.add_slicing(b"a")));
    w.add(AckWait::new(2, buf.add_slicing(b"b")));
    assert!(w.is_full());
    assert!(w.remove(IRange(1, 2)));
    assert!(!w.is_empty());
    assert_eq!(w.first_seqno(), None);
    assert_eq!(w.cleanup().len(), 2);
    assert!(w.is_empty());
}

#[test]
fn iteration_copies_the_waiting_data() {
    let mut buf = TrimmingBuffer::new(1000);
    let w = list_with(&[3, 4], &mut buf);
    assert_eq!(w.iter(), vec![(3u16, vec![3u8, 0xaa]), (4u16, vec![4u8, 0xaa])]);
}
