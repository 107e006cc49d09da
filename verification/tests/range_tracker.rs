use ping6_data::irange::IRange;
use ping6_data::range_tracker::RangeTracker;

#[test]
fn empty_not_iterable() {
    let tracker = RangeTracker::new();
    assert!(tracker.iter().next().is_none());
}

#[test]
fn one_range_track() {
    let mut tracker = RangeTracker::new();
    tracker.track_range(IRange(0usize, 5usize));
    let mut iter = tracker.iter();
    assert_eq!(iter.next().unwrap(), IRange(0usize, 5usize));
    assert!(iter.next().is_none());
}

#[test]
fn merge_right() {
    let mut tracker = RangeTracker::new();
    tracker.track_range(IRange(0usize, 5usize));
    tracker.track_range(IRange(6usize, 10usize));
    let mut iter = tracker.iter();
    assert_eq!(iter.next().unwrap(), IRange(0usize, 10usize));
    assert!(iter.next().is_none());
}

#[test]
fn merge_left() {
    let mut tracker = RangeTracker::new();
    tracker.track_range(IRange(6usize, 10usize));
    tracker.track_range(IRange(0usize, 5usize));
    let mut iter = tracker.iter();
    assert_eq!(iter.next().unwrap(), IRange(0usize, 10usize));
    assert!(iter.next().is_none());
}

#[test]
fn merge_both_sides() {
    let mut tracker = RangeTracker::new();
    tracker.track_range(IRange(8usize, 10usize));
    tracker.track_range(IRange(0usize, 3usize));
    tracker.track_range(IRange(4usize, 7usize));
    let mut iter = tracker.iter();
    assert_eq!(iter.next().unwrap(), IRange(0usize, 10usize));
    assert!(iter.next().is_none());
}

#[test]
fn iterate_multiple_ranges() {
    let mut tracker = RangeTracker::new();
    tracker.track_range(IRange(1usize, 10usize));
    tracker.track_range(IRange(300usize, 500usize));
    tracker.track_range(IRange(15usize, 30usize));
    let mut iter = tracker.iter();
    assert_eq!(iter.next().unwrap(), IRange(1usize, 10usize));
    assert_eq!(iter.next().unwrap(), IRange(15usize, 30usize));
    assert_eq!(iter.next().unwrap(), IRange(300usize, 500usize));
    assert!(iter.next().is_none());
}

#[test]
fn take() {
    let mut tracker = RangeTracker::new();
    tracker.track_range(IRange(0usize, 10usize));
    tracker.track_range(IRange(300usize, 500usize));
    tracker.track_range(IRange(15usize, 30usize));
    assert_eq!(tracker.take_range().unwrap(), 10);
    let mut iter = tracker.iter();
    assert_eq!(iter.next().unwrap(), IRange(4usize, 19usize));
    assert_eq!(iter.next().unwrap(), IRange(289usize, 489usize));
    assert!(iter.next().is_none());
}

#[test]
fn take_last() {
    let mut tracker = RangeTracker::new();
    tracker.track_range(IRange(0usize, 10usize));
    tracker.track_range(IRange(300usize, 500usize));
    assert_eq!(tracker.take_range().unwrap(), 10);
    tracker.track_range(IRange(0usize, 288usize));
    assert_eq!(tracker.take_range().unwrap(), 489);
    assert!(tracker.iter().next().is_none());
}

#[test]
fn is_range_tracked() {
    let mut tracker = RangeTracker::new();
    tracker.track_range(IRange(0usize, 10usize));
    tracker.track_range(IRange(300usize, 500usize));
    tracker.track_range(IRange(15usize, 30usize));
    assert!(tracker.is_range_tracked(IRange(0usize, 0usize)).unwrap());
    assert!(tracker.is_range_tracked(IRange(10usize, 11usize)).is_none());
    assert!(tracker.is_range_tracked(IRange(9usize, 301usize)).is_none());
    assert!(!tracker.is_range_tracked(IRange(11usize, 12usize)).unwrap());
}

#[test]
fn track_size_one() {
    let mut tracker = RangeTracker::new();
    tracker.track_range(IRange(0usize, 10usize));
    tracker.track_range(IRange(14usize, 20usize));
    tracker.track_range(IRange(11usize, 11usize));
    tracker.track_range(IRange(13usize, 13usize));
    tracker.track_range(IRange(12usize, 12usize));
    let mut iter = tracker.iter();
    assert_eq!(iter.next().unwrap(), IRange(0usize, 20usize));
}

#[test]
fn tracked_slices_read_back_as_tracked() {
    let mut t = RangeTracker::new();
    assert_eq!(t.is_slice_tracked(4, 3), Some(false));
    t.track_slice(4, 3);
    assert_eq!(t.is_slice_tracked(4, 3), Some(true));
    assert_eq!(t.is_slice_tracked(3, 3), None);
    t.track_slice(7, 2);
    let mut it = t.iter();
    let mut runs: Vec<IRange<usize>> = Vec::new();
    while let Some(r) = it.next() {
        runs.push(r);
    }
    assert_eq!(runs, vec![IRange(4, 8)]);
}
