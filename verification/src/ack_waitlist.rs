//! The sender's list of packets that wait for an acknowledgement, in the
//! order in which they were sent.  Acknowledged packets are marked and only
//! dropped once they form a run at the front of the list.

use std::collections::VecDeque;

use vstd::prelude::*;

use crate::buffer::TrimmingBufferSlice;
use crate::irange::IRange;
use crate::range_tracker::{lemma_point_status, RangeTracker};

verus! {

/// A sent packet: its sequence number and its data.
pub struct AckWait {
    pub seqno: u16,
    pub data: TrimmingBufferSlice,
}

impl AckWait {
    pub fn new(seqno: u16, data: TrimmingBufferSlice) -> (res: AckWait)
        ensures
            res.seqno == seqno,
            res.data == data,
    {
        AckWait { seqno, data }
    }
}

/// Packets waiting for an acknowledgement; the acknowledged ones are marked
/// by their index.
pub struct AckWaitlist {
    inner: VecDeque<AckWait>,
    capacity: usize,
    del_tracker: RangeTracker,
}

/// `[a, b)` is the stretch of `w` that `remove_non_wrapping` with `[l, r]`
/// acknowledges: walking the packets not acknowledged yet in order, `a` is
/// the first with a sequence number of at least `l`, and `b` the first after
/// it with a sequence number above `r`.
pub open spec fn removal_bounds(w: AckWaitlist, l: u16, r: u16, a: int, b: int) -> bool {
    let s = w.waits();
    let n = s.len() as int;
    &&& 0 <= a <= b <= n
    &&& forall|i: int| 0 <= i < a && !w.acked(i) ==> #[trigger] s[i].seqno < l
    &&& a < n ==> !w.acked(a) && s[a].seqno >= l
    &&& forall|i: int| a <= i < b && !w.acked(i) ==> #[trigger] s[i].seqno <= r
    &&& b < n ==> !w.acked(b) && s[b].seqno > r
}

/// `f` is the index of the first packet of `w` not acknowledged, or the
/// length of the list when every packet is.
pub open spec fn is_first_unacked(w: AckWaitlist, f: int) -> bool {
    &&& 0 <= f <= w.waits().len()
    &&& forall|i: int| 0 <= i < f ==> #[trigger] w.acked(i)
    &&& f < w.waits().len() ==> !w.acked(f)
}

/// The two lists hold the same packets with the same marks.
pub open spec fn same_list(w: AckWaitlist, v: AckWaitlist) -> bool {
    &&& v.waits() == w.waits()
    &&& v.capacity() == w.capacity()
    &&& forall|p: int| #[trigger] v.acked(p) == w.acked(p)
}

/// `after` is `before` once `remove_non_wrapping` with `[l, r]` has run and
/// answered `res`.
pub open spec fn removed(before: AckWaitlist, after: AckWaitlist, l: u16, r: u16, res: bool) -> bool {
    exists|a: int, b: int|
        {
            &&& #[trigger] removal_bounds(before, l, r, a, b)
            &&& after.waits() == before.waits()
            &&& after.capacity() == before.capacity()
            &&& forall|p: int| #[trigger] after.acked(p) == (before.acked(p) || a <= p < b)
            &&& res == (a < b)
        }
}

/// `after` is `before` once `remove` with `[l, r]` has run and answered
/// `res`: a range that wraps around is acknowledged as `[l, 65535]` and,
/// when that acknowledged something, `[0, r]`.
pub open spec fn removed_range(before: AckWaitlist, after: AckWaitlist, l: u16, r: u16, res: bool) -> bool {
    &&& l <= r ==> removed(before, after, l, r, res)
    &&& l > r ==> exists|mid: AckWaitlist, first: bool|
        {
            &&& #[trigger] removed(before, mid, l, 65535, first)
            &&& first ==> removed(mid, after, 0, r, res)
            &&& !first ==> !res && same_list(mid, after)
        }
}

/// Acknowledging keeps the packets and every mark already set.
pub proof fn lemma_removed_keeps(before: AckWaitlist, after: AckWaitlist, l: u16, r: u16, res: bool)
    requires
        removed(before, after, l, r, res),
    ensures
        after.waits() == before.waits(),
        after.capacity() == before.capacity(),
        forall|p: int| #[trigger] before.acked(p) ==> after.acked(p),
{
}

/// Acknowledging a range that may wrap keeps the packets and every mark
/// already set.
pub proof fn lemma_removed_range_keeps(
    before: AckWaitlist,
    after: AckWaitlist,
    l: u16,
    r: u16,
    res: bool,
)
    requires
        removed_range(before, after, l, r, res),
    ensures
        after.waits() == before.waits(),
        after.capacity() == before.capacity(),
        forall|p: int| #[trigger] before.acked(p) ==> after.acked(p),
{
    if l > r {
        let (mid, first) = choose|mid: AckWaitlist, first: bool|
            {
                &&& #[trigger] removed(before, mid, l, 65535, first)
                &&& first ==> removed(mid, after, 0, r, res)
                &&& !first ==> !res && same_list(mid, after)
            };
        lemma_removed_keeps(before, mid, l, 65535, first);
        if first {
            lemma_removed_keeps(mid, after, 0, r, res);
        }
    }
}

/// `after` is `before` once the acknowledged run `[0, k]` at its front has
/// been dropped.
pub open spec fn dropped_acked(before: AckWaitlist, after: AckWaitlist, k: int) -> bool {
    &&& 0 <= k < before.waits().len()
    &&& forall|q: int| 0 <= q <= k ==> #[trigger] before.acked(q)
    &&& !before.acked(k + 1)
    &&& after.waits() == before.waits().skip(k + 1)
    &&& after.capacity() == before.capacity()
    &&& forall|p: int| p >= 0 ==> (#[trigger] after.acked(p) == before.acked(p + k + 1))
}

/// Acknowledging the same range twice: the second call acknowledges nothing
/// and leaves the list as it was.
pub proof fn lemma_remove_twice(
    w0: AckWaitlist,
    w1: AckWaitlist,
    w2: AckWaitlist,
    l: u16,
    r: u16,
    res1: bool,
    res2: bool,
)
    requires
        l <= r,
        removed(w0, w1, l, r, res1),
        removed(w1, w2, l, r, res2),
    ensures
        !res2,
        same_list(w1, w2),
{
    let (a, b) = choose|a: int, b: int|
        {
            &&& #[trigger] removal_bounds(w0, l, r, a, b)
            &&& w1.waits() == w0.waits()
            &&& w1.capacity() == w0.capacity()
            &&& forall|p: int| #[trigger] w1.acked(p) == (w0.acked(p) || a <= p < b)
            &&& res1 == (a < b)
        };
    let (a2, b2) = choose|a2: int, b2: int|
        {
            &&& #[trigger] removal_bounds(w1, l, r, a2, b2)
            &&& w2.waits() == w1.waits()
            &&& w2.capacity() == w1.capacity()
            &&& forall|p: int| #[trigger] w2.acked(p) == (w1.acked(p) || a2 <= p < b2)
            &&& res2 == (a2 < b2)
        };
    let s = w0.waits();
    let n = s.len() as int;
    if a2 < b {
        assert(a2 < n && !w1.acked(a2) && s[a2].seqno >= l);
        if a2 < a {
            assert(!w0.acked(a2));
        } else {
            assert(w1.acked(a2));
        }
    }
    if a2 > b {
        assert(b < n);
        assert(!w0.acked(b));
        assert(!w1.acked(b));
        assert(s[b].seqno < l);
    }
    assert(a2 == b);
    if b2 > a2 {
        assert(a2 < n);
        assert(!w1.acked(a2));
        assert(s[a2].seqno <= r);
    }
    assert forall|p: int| #[trigger] w2.acked(p) == w1.acked(p) by {}
}

impl AckWaitlist {
    /// The packets, acknowledged or not, in the order they were added.
    pub closed spec fn waits(&self) -> Seq<AckWait> {
        self.inner@
    }

    /// The packet at index `i` has been acknowledged.
    pub closed spec fn acked(&self, i: int) -> bool {
        self.del_tracker.tracks(i)
    }

    /// The most packets the list holds.
    pub closed spec fn capacity(&self) -> nat {
        self.capacity as nat
    }

    pub closed spec fn wf(&self) -> bool {
        &&& self.del_tracker.wf()
        &&& forall|p: int| #[trigger] self.del_tracker.tracks(p) ==> 0 <= p < self.inner@.len()
        &&& self.inner@.len() <= self.capacity
        &&& self.capacity < isize::MAX
    }

    /// The index of the first packet from index `i` on that is not
    /// acknowledged; the length of the list when there is none.
    pub closed spec fn first_unacked_from(&self, i: int) -> int
        decreases self.waits().len() - i,
    {
        if i >= self.inner@.len() {
            self.inner@.len() as int
        } else if self.acked(i) {
            self.first_unacked_from(i + 1)
        } else {
            i
        }
    }

    /// The index of the first packet not acknowledged; the length of the
    /// list when every packet is.
    pub open spec fn first_unacked(&self) -> int {
        self.first_unacked_from(0)
    }

    /// `first_unacked_from(i)`, from an `i` before which every packet is
    /// acknowledged, is the first index not acknowledged.
    proof fn lemma_first_unacked_from(&self, i: int)
        requires
            0 <= i <= self.waits().len(),
            forall|j: int| 0 <= j < i ==> #[trigger] self.acked(j),
        ensures
            is_first_unacked(*self, self.first_unacked_from(i)),
        decreases self.waits().len() - i,
    {
        if i < self.inner@.len() && self.acked(i) {
            assert forall|j: int| 0 <= j < i + 1 implies #[trigger] self.acked(j) by {
                if j == i {
                } else {
                    assert(self.acked(j));
                }
            }
            self.lemma_first_unacked_from(i + 1);
        }
    }

    /// `first_unacked` is the first index not acknowledged.
    pub proof fn lemma_first_unacked(&self)
        ensures
            is_first_unacked(*self, self.first_unacked()),
    {
        self.lemma_first_unacked_from(0);
    }

    /// The packets among the first `i` that are not acknowledged, as their
    /// sequence numbers and data, in order.
    pub closed spec fn unacked_upto(&self, i: int) -> Seq<(u16, Seq<u8>)>
        decreases i,
    {
        if i <= 0 || i > self.inner@.len() {
            Seq::empty()
        } else if self.acked(i - 1) {
            self.unacked_upto(i - 1)
        } else {
            self.unacked_upto(i - 1).push((self.inner@[i - 1].seqno, self.inner@[i - 1].data@))
        }
    }

    /// The packets not acknowledged, in order.
    pub open spec fn unacked(&self) -> Seq<(u16, Seq<u8>)> {
        self.unacked_upto(self.waits().len() as int)
    }

    /// What a well-formed list guarantees of its size and of its marks.
    pub proof fn lemma_wf(&self)
        requires
            self.wf(),
        ensures
            self.waits().len() <= self.capacity(),
            self.capacity() < isize::MAX,
            forall|p: int| #[trigger] self.acked(p) ==> 0 <= p < self.waits().len(),
    {
    }

    /// Every packet listed by `unacked_upto(i)` is a packet before `i` that
    /// is not acknowledged.
    pub proof fn lemma_unacked_upto(&self, i: int)
        requires
            0 <= i <= self.waits().len(),
        ensures
            forall|j: int|
                0 <= j < self.unacked_upto(i).len() ==> exists|k: int|
                    0 <= k < i && !self.acked(k) && #[trigger] self.unacked_upto(i)[j] == (
                        self.waits()[k].seqno,
                        self.waits()[k].data@,
                    ),
        decreases i,
    {
        if i > 0 {
            self.lemma_unacked_upto(i - 1);
            let u = self.unacked_upto(i);
            let prev = self.unacked_upto(i - 1);
            assert forall|j: int| 0 <= j < u.len() implies exists|k: int|
                0 <= k < i && !self.acked(k) && #[trigger] u[j] == (
                    self.waits()[k].seqno,
                    self.waits()[k].data@,
                ) by {
                if j < prev.len() {
                    assert(u[j] == prev[j]);
                    let k = choose|k: int|
                        0 <= k < i - 1 && !self.acked(k) && #[trigger] prev[j] == (
                            self.waits()[k].seqno,
                            self.waits()[k].data@,
                        );
                    assert(0 <= k < i && !self.acked(k) && u[j] == (
                        self.waits()[k].seqno,
                        self.waits()[k].data@,
                    ));
                } else {
                    assert(!self.acked(i - 1));
                    assert(u[j] == (self.waits()[i - 1].seqno, self.waits()[i - 1].data@));
                }
            }
        }
    }

    /// An empty list that holds at most `window_size * mtu` packets.
    pub fn new(window_size: u32, mtu: u16) -> (res: AckWaitlist)
        requires
            window_size <= 65536,
            (window_size as int) * (mtu as int) < isize::MAX,
        ensures
            res.wf(),
            res.waits() == Seq::<AckWait>::empty(),
            res.capacity() == window_size * mtu,
            forall|p: int| !res.acked(p),
    {
        let capacity = window_size as usize * mtu as usize;
        AckWaitlist { inner: VecDeque::new(), capacity, del_tracker: RangeTracker::new() }
    }

    /// Appends a sent packet.  The list must not be full.
    pub fn add(&mut self, wait: AckWait)
        requires
            old(self).wf(),
            old(self).waits().len() < old(self).capacity(),
        ensures
            final(self).wf(),
            final(self).waits() == old(self).waits().push(wait),
            final(self).capacity() == old(self).capacity(),
            forall|p: int| #[trigger] final(self).acked(p) == old(self).acked(p),
    {
        self.inner.push_back(wait);
    }

    /// The packet at index `i` has been acknowledged.
    fn is_acked(&self, i: usize) -> (res: bool)
        requires
            self.wf(),
        ensures
            res == self.acked(i as int),
    {
        proof {
            lemma_point_status(self.del_tracker.ranges(), i as int);
        }
        match self.del_tracker.is_range_tracked(IRange(i, i)) {
            Some(true) => true,
            _ => false,
        }
    }

    /// Acknowledges the packets with sequence numbers in `range`, which may
    /// wrap around the end of the sequence number space.  When it wraps, the
    /// part from `range.0` up to 65535 is acknowledged first, and the part
    /// from 0 only when the first part acknowledged something.  Returns
    /// whether the last part acknowledged something.
    pub fn remove(&mut self, range: IRange<u16>) -> (res: bool)
        requires
            old(self).wf(),
        ensures
            final(self).wf(),
            removed_range(*old(self), *final(self), range.0, range.1, res),
    {
        if range.0 > range.1 {
            let first = self.remove_non_wrapping(IRange(range.0, 65535));
            let ghost mid = *self;
            if first {
                self.remove_non_wrapping(IRange(0, range.1))
            } else {
                proof {
                    assert(same_list(mid, *self));
                }
                false
            }
        } else {
            self.remove_non_wrapping(range)
        }
    }

    /// Acknowledges the packets with sequence numbers in `range` (see
    /// `removal_bounds`); returns whether it acknowledged any.  Calling it
    /// again with the same range changes nothing.
    pub fn remove_non_wrapping(&mut self, range: IRange<u16>) -> (res: bool)
        requires
            old(self).wf(),
            range.0 <= range.1,
        ensures
            final(self).wf(),
            removed(*old(self), *final(self), range.0, range.1, res),
    {
        let l = range.0;
        let r = range.1;
        let n = self.inner.len();
        let mut a: usize = 0;
        while a < n && (self.is_acked(a) || self.inner[a].seqno < l)
            invariant
                self.wf(),
                n == self.inner@.len(),
                a <= n,
                forall|i: int| 0 <= i < a && !self.acked(i) ==> #[trigger] self.inner@[i].seqno < l,
            decreases n - a,
        {
            a = a + 1;
        }
        let mut b: usize = a;
        while b < n && (self.is_acked(b) || self.inner[b].seqno <= r)
            invariant
                self.wf(),
                n == self.inner@.len(),
                a <= b <= n,
                forall|i: int| a <= i < b && !self.acked(i) ==> #[trigger] self.inner@[i].seqno <= r,
            decreases n - b,
        {
            b = b + 1;
        }
        proof {
            assert(removal_bounds(*old(self), l, r, a as int, b as int));
        }
        let ghost start = *self;
        let mut i: usize = a;
        let mut removed_something = false;
        while i < b
            invariant
                self.wf(),
                removal_bounds(start, l, r, a as int, b as int),
                self.inner@ == start.inner@,
                self.capacity == start.capacity,
                n == self.inner@.len(),
                a <= i <= b,
                forall|p: int|
                    #[trigger] self.acked(p) == (start.acked(p) || a <= p < i),
                removed_something == (a < i),
            decreases b - i,
        {
            let ghost prev = *self;
            if !self.is_acked(i) {
                let ghost before = self.del_tracker;
                self.del_tracker.track_range(IRange(i, i));
                removed_something = true;
                proof {
                    assert forall|p: int| #[trigger] self.del_tracker.tracks(p) implies 0 <= p
                        < self.inner@.len() by {
                        if p != i {
                            assert(before.tracks(p));
                        }
                    }
                    assert forall|p: int| #[trigger] self.acked(p) == (start.acked(p) || a <= p < i
                        + 1) by {
                        assert(self.acked(p) == (prev.acked(p) || p == i));
                        assert(prev.acked(p) == (start.acked(p) || a <= p < i));
                    }
                }
            } else {
                proof {
                    assert(i != a || a >= b);
                    assert forall|p: int| #[trigger] self.acked(p) == (start.acked(p) || a <= p < i
                        + 1) by {
                        assert(prev.acked(p) == (start.acked(p) || a <= p < i));
                        if p == i {
                            assert(prev.acked(i as int));
                        }
                    }
                }
            }
            i = i + 1;
        }
        proof {
            assert(removal_bounds(*old(self), l, r, a as int, b as int));
            assert(forall|p: int| #[trigger] self.acked(p) == (old(self).acked(p) || a <= p < b));
        }
        removed_something
    }

    /// Drops the acknowledged run at the front of the list, if the first
    /// packet was acknowledged, and hands the dropped packets back.
    pub fn cleanup(&mut self) -> (res: Vec<AckWait>)
        requires
            old(self).wf(),
        ensures
            final(self).wf(),
            !old(self).acked(0) ==> res@.len() == 0 && same_list(*old(self), *final(self)),
            old(self).acked(0) ==> exists|k: int|
                {
                    &&& #[trigger] dropped_acked(*old(self), *final(self), k)
                    &&& res@ == old(self).waits().take(k + 1)
                },
    {
        let ghost old_tracker = self.del_tracker;
        let mut out: Vec<AckWait> = Vec::new();
        match self.del_tracker.take_range() {
            Some(k) => {
                proof {
                    assert(old_tracker.tracks(k as int));
                }
                let ghost old_inner = self.inner@;
                let ghost new_tracker = self.del_tracker;
                let mut j: usize = 0;
                while j <= k
                    invariant
                        k < old_inner.len(),
                        old_inner.len() < isize::MAX,
                        self.del_tracker == new_tracker,
                        self.capacity == old(self).capacity,
                        j <= k + 1,
                        self.inner@ == old_inner.skip(j as int),
                        out@ == old_inner.take(j as int),
                    decreases k + 1 - j,
                {
                    let w = self.inner.pop_front();
                    match w {
                        Some(x) => {
                            proof {
                                assert(x == old_inner[j as int]);
                            }
                            out.push(x);
                            proof {
                                assert(out@ =~= old_inner.take(j + 1));
                                assert(old_inner.skip(j as int).subrange(
                                    1,
                                    old_inner.skip(j as int).len() as int,
                                ) =~= old_inner.skip(j + 1));
                            }
                        },
                        None => {},
                    }
                    j = j + 1;
                }
                proof {
                    assert forall|p: int| #[trigger] self.del_tracker.tracks(p) implies 0 <= p
                        < self.inner@.len() by {
                        if p >= 0 {
                            assert(old_tracker.tracks(p + k + 1));
                        }
                    }
                    assert(dropped_acked(*old(self), *self, k as int));
                }
            },
            None => {
                proof {
                    assert forall|p: int| #[trigger] self.del_tracker.tracks(p) implies 0 <= p
                        < self.inner@.len() by {
                        assert(old_tracker.tracks(p));
                    }
                    assert(same_list(*old(self), *self));
                }
            },
        }
        out
    }

    /// The list holds no packet.  Acknowledged packets count until `cleanup`
    /// drops them.
    pub fn is_empty(&self) -> (res: bool)
        ensures
            res == (self.waits().len() == 0),
    {
        self.inner.len() == 0
    }

    /// The list holds as many packets as it can.
    pub fn is_full(&self) -> (res: bool)
        ensures
            res == (self.waits().len() == self.capacity()),
    {
        self.inner.len() == self.capacity
    }

    /// The sequence number of the first packet not acknowledged yet.
    pub fn first_seqno(&self) -> (res: Option<u16>)
        requires
            self.wf(),
        ensures
            self.first_unacked() < self.waits().len() ==> res == Some(
                self.waits()[self.first_unacked()].seqno,
            ),
            self.first_unacked() >= self.waits().len() ==> res is None,
    {
        let n = self.inner.len();
        let mut i: usize = 0;
        while i < n && self.is_acked(i)
            invariant
                self.wf(),
                n == self.inner@.len(),
                i <= n,
                self.first_unacked_from(0) == self.first_unacked_from(i as int),
            decreases n - i,
        {
            i = i + 1;
        }
        if i < n {
            Some(self.inner[i].seqno)
        } else {
            None
        }
    }

    /// Copies of the packets not acknowledged yet, in order, as their
    /// sequence numbers and data.
    pub fn iter(&self) -> (res: Vec<(u16, Vec<u8>)>)
        requires
            self.wf(),
        ensures
            res@.map_values(|x: (u16, Vec<u8>)| (x.0, x.1@)) == self.unacked(),
    {
        let n = self.inner.len();
        let mut out: Vec<(u16, Vec<u8>)> = Vec::new();
        let mut i: usize = 0;
        while i < n
            invariant
                self.wf(),
                n == self.inner@.len(),
                i <= n,
                out@.map_values(|x: (u16, Vec<u8>)| (x.0, x.1@)) == self.unacked_upto(i as int),
            decreases n - i,
        {
            if !self.is_acked(i) {
                let w = &self.inner[i];
                let ghost before = out@;
                out.push((w.seqno, w.data.to_vec()));
                proof {
                    assert(out@.map_values(|x: (u16, Vec<u8>)| (x.0, x.1@)) =~= before.map_values(
                        |x: (u16, Vec<u8>)| (x.0, x.1@),
                    ).push((w.seqno, w.data@)));
                }
            }
            i = i + 1;
        }
        out
    }
}

} // verus!
