//! The receiver's record of which sequence numbers arrived, relative to the
//! start of its acknowledgement window.  Sequence numbers are 16 bits wide
//! and wrap around.

use vstd::prelude::*;

use crate::irange::IRange;
use crate::range_tracker::{
    lemma_runs, runs_cover, runs_maximal, seq_tracks, to_iranges, DTRange, RangeTracker,
};

verus! {

/// Distance from `window_start` forward to `x`, modulo 2^16.
pub open spec fn sequential(window_start: u16, x: u16) -> int {
    (x as int - window_start as int) % 65536
}

/// The sequence number `p` steps after `window_start` (`p` taken modulo
/// 2^16).
pub open spec fn from_sequential(window_start: u16, p: int) -> u16 {
    ((p % 65536 + window_start as int) % 65536) as u16
}

/// A tracked range of positions as the range of sequence numbers it stands
/// for.
pub open spec fn seqno_range(window_start: u16, r: IRange<usize>) -> IRange<u16> {
    IRange(from_sequential(window_start, r.0 as int), from_sequential(window_start, r.1 as int))
}

/// `after` is `before` once the window has moved past the received run
/// `[0, k]` at its start: every other received number keeps its sequence
/// number and its position moves down by `k + 1`.
pub open spec fn advanced_window(before: SeqnoTracker, after: SeqnoTracker, k: int) -> bool {
    &&& 0 <= k < 65536
    &&& forall|q: int| 0 <= q <= k ==> #[trigger] before.has(q)
    &&& !before.has(k + 1)
    &&& after.window_start() == from_sequential(before.window_start(), k + 1)
    &&& forall|p: int| p >= 0 ==> (#[trigger] after.has(p) == before.has(p + k + 1))
}

/// `after` is what `take` leaves of `before`: the same record when nothing
/// was received at the window start, else the record with the window moved
/// past the received run at its start.
pub open spec fn taken(before: SeqnoTracker, after: SeqnoTracker) -> bool {
    &&& !before.has(0) ==> {
        &&& after.window_start() == before.window_start()
        &&& forall|p: int| #[trigger] after.has(p) == before.has(p)
    }
    &&& before.has(0) ==> exists|k: int| #[trigger] advanced_window(before, after, k)
}

/// Records received sequence numbers as positions counted from the window
/// start.
pub struct SeqnoTracker {
    tracker: RangeTracker,
    window_start: u16,
}

impl SeqnoTracker {
    /// The first sequence number of the window.
    pub closed spec fn window_start(&self) -> u16 {
        self.window_start
    }

    /// The sequence number at position `p` of the window was received.
    pub closed spec fn has(&self, p: int) -> bool {
        self.tracker.tracks(p)
    }

    /// The received positions as maximal runs, first to last.
    pub closed spec fn runs(&self) -> Seq<IRange<usize>> {
        to_iranges(self.tracker.ranges())
    }

    pub closed spec fn wf(&self) -> bool {
        &&& self.tracker.wf()
        &&& forall|p: int| #[trigger] self.tracker.tracks(p) ==> 0 <= p < 65536
    }

    /// The sequence number `x` was received.
    pub open spec fn has_seqno(&self, x: u16) -> bool {
        self.has(sequential(self.window_start(), x))
    }

    /// A tracker whose window starts at `next_seqno`, with nothing received.
    pub fn new(next_seqno: u16) -> (res: SeqnoTracker)
        ensures
            res.wf(),
            res.window_start() == next_seqno,
            forall|p: int| !res.has(p),
    {
        SeqnoTracker { tracker: RangeTracker::new(), window_start: next_seqno }
    }

    /// Records `x` as received.  Returns `false` when it had been received
    /// already.
    pub fn add(&mut self, x: u16) -> (res: bool)
        requires
            old(self).wf(),
        ensures
            final(self).wf(),
            final(self).window_start() == old(self).window_start(),
            res == !old(self).has_seqno(x),
            forall|p: int|
                #[trigger] final(self).has(p) == (old(self).has(p) || p == sequential(
                    old(self).window_start(),
                    x,
                )),
    {
        let ax = self.pos_to_sequential(x);
        let status = self.tracker.is_range_tracked(IRange(ax, ax));
        match status {
            Some(true) => {
                proof {
                    assert(seq_tracks(self.tracker.ranges(), ax as int));
                }
                false
            },
            _ => {
                proof {
                    let s = self.tracker.ranges();
                    if status is None {
                        let q = choose|q: int| ax <= q <= ax && #[trigger] seq_tracks(s, q);
                        assert(q == ax);
                        assert(crate::range_tracker::seq_all_tracked(s, ax as int, ax as int));
                    }
                    assert(!seq_tracks(s, ax as int));
                }
                self.tracker.track_range(IRange(ax, ax));
                true
            },
        }
    }

    /// Position of `x` in the window: its distance from the window start,
    /// modulo 2^16.
    pub fn pos_to_sequential(&self, x: u16) -> (res: usize)
        ensures
            res == sequential(self.window_start(), x),
            res < 65536,
    {
        if x >= self.window_start {
            (x - self.window_start) as usize
        } else {
            (65536u32 - self.window_start as u32 + x as u32) as usize
        }
    }

    /// The sequence number at position `x` of the window (`x` taken modulo
    /// 2^16).
    pub fn pos_from_sequential(&self, x: usize) -> (res: u16)
        ensures
            res == from_sequential(self.window_start(), x as int),
    {
        let p = (x % 65536) as u32;
        ((p + self.window_start as u32) % 65536) as u16
    }

    /// Hands out the received sequence numbers as ranges, with the window
    /// start they are counted from, and moves the window past the run of
    /// received numbers at its start, if there is one.
    pub fn take(&mut self) -> (res: (Vec<IRange<u16>>, u16))
        requires
            old(self).wf(),
        ensures
            final(self).wf(),
            res.1 == old(self).window_start(),
            res.0@ == old(self).runs().map_values(
                |r: IRange<usize>| seqno_range(old(self).window_start(), r),
            ),
            !old(self).has(0) ==> {
                &&& final(self).window_start() == old(self).window_start()
                &&& forall|p: int| #[trigger] final(self).has(p) == old(self).has(p)
            },
            old(self).has(0) ==> exists|k: int| #[trigger] advanced_window(*old(self), *final(self), k),
            taken(*old(self), *final(self)),
    {
        let ghost ws = self.window_start;
        let ghost runs = self.runs();
        let mut it = self.tracker.iter();
        let mut out: Vec<IRange<u16>> = Vec::new();
        let ghost total = it.remaining();
        let mut done = false;
        while !done
            invariant
                self.wf(),
                self.window_start == ws,
                self.runs() == runs,
                it.wf(),
                runs == total,
                total.len() == out@.len() + it.remaining().len(),
                it.remaining() == total.skip(out@.len() as int),
                out@ == total.take(out@.len() as int).map_values(
                    |r: IRange<usize>| seqno_range(ws, r),
                ),
                done ==> it.remaining().len() == 0,
            decreases it.remaining().len() + (if done { 0int } else { 1int }),
        {
            match it.next() {
                Some(r) => {
                    let ghost n = out@.len() as int;
                    proof {
                        assert(total.skip(n)[0] == total[n]);
                        assert(total.skip(n).drop_first() =~= total.skip(n + 1));
                    }
                    let l = self.pos_from_sequential(r.0);
                    let h = self.pos_from_sequential(r.1);
                    out.push(IRange(l, h));
                    proof {
                        assert(out@ =~= total.take(n + 1).map_values(
                            |r: IRange<usize>| seqno_range(ws, r),
                        ));
                    }
                },
                None => {
                    done = true;
                },
            }
        }
        proof {
            assert(out@.len() == total.len());
            assert(total.take(total.len() as int) =~= total);
        }
        let window_start = self.window_start;
        let ghost old_tracker = self.tracker;
        match self.tracker.take_range() {
            Some(x) => {
                proof {
                    assert(old_tracker.tracks(x as int));
                }
                self.window_start = self.pos_from_sequential(x + 1);
                proof {
                    assert forall|p: int| #[trigger] self.tracker.tracks(p) implies 0 <= p < 65536 by {
                        if p < 0 {
                        } else {
                            assert(old_tracker.tracks(p + x + 1));
                        }
                    }
                    let k = x as int;
                    assert(forall|q: int| 0 <= q <= k ==> #[trigger] old(self).has(q));
                    assert(forall|p: int|
                        p >= 0 ==> (#[trigger] self.has(p) == old(self).has(p + k + 1)));
                    assert(advanced_window(*old(self), *self, k));
                }
            },
            None => {
                proof {
                    assert forall|p: int| #[trigger] self.tracker.tracks(p) implies 0 <= p < 65536 by {
                        assert(old_tracker.tracks(p));
                    }
                }
            },
        }
        (out, window_start)
    }

    /// Nothing has been received since the window start.
    pub fn is_empty(&self) -> (res: bool)
        requires
            self.wf(),
        ensures
            res == (forall|p: int| !self.has(p)),
    {
        let res = self.tracker.is_empty();
        proof {
            if !res {
                let q = choose|q: int| self.tracker.tracks(q);
                assert(self.has(q));
            }
        }
        res
    }
}

/// What `take` hands out covers the received positions: the runs are
/// maximal, they hold exactly the received positions, and those lie inside
/// the 2^16 positions of the window.
pub proof fn lemma_runs_received(t: SeqnoTracker)
    requires
        t.wf(),
    ensures
        runs_maximal(t.runs()),
        forall|p: int| #[trigger] t.has(p) <==> runs_cover(t.runs(), p),
        forall|p: int| #[trigger] t.has(p) ==> 0 <= p < 65536,
{
    lemma_runs(t.tracker);
}

/// Converting a sequence number to its window position and back gives it
/// back.
pub proof fn lemma_sequential_roundtrip(window_start: u16, x: u16)
    ensures
        0 <= sequential(window_start, x) < 65536,
        from_sequential(window_start, sequential(window_start, x)) == x,
{
}

/// `after` is `before` once `add` recorded `x`.
pub open spec fn added(before: SeqnoTracker, after: SeqnoTracker, x: u16) -> bool {
    &&& after.window_start() == before.window_start()
    &&& forall|p: int|
        #[trigger] after.has(p) == (before.has(p) || p == sequential(before.window_start(), x))
}

/// Once `add` recorded `x`, `x` counts as received: adding it again
/// answers `false`.
pub proof fn lemma_add_twice(before: SeqnoTracker, after: SeqnoTracker, x: u16)
    requires
        added(before, after, x),
    ensures
        after.has_seqno(x),
{
    assert(after.has(sequential(before.window_start(), x)));
}

/// Moving the window keeps the sequence number of every received packet
/// that stays: position `p` after the move stands for the number that
/// position `p + k + 1` stood for before.
pub proof fn lemma_take_keeps_seqnos(before: SeqnoTracker, after: SeqnoTracker, k: int, p: int)
    requires
        advanced_window(before, after, k),
        p >= 0,
    ensures
        after.has(p) == before.has(p + k + 1),
        from_sequential(after.window_start(), p) == from_sequential(before.window_start(), p + k + 1),
{
    let m = 65536int;
    let ws = before.window_start() as int;
    let ws2 = after.window_start() as int;
    assert(ws2 == ((k + 1) % m + ws) % m);
    vstd::arithmetic::div_mod::lemma_add_mod_noop(p, (k + 1) % m + ws, m);
    vstd::arithmetic::div_mod::lemma_add_mod_noop(k + 1, ws, m);
    vstd::arithmetic::div_mod::lemma_mod_twice(k + 1, m);
    vstd::arithmetic::div_mod::lemma_add_mod_noop(p, k + 1, m);
    vstd::arithmetic::div_mod::lemma_add_mod_noop(p + k + 1, ws, m);
    vstd::arithmetic::div_mod::lemma_mod_twice(p, m);
    vstd::arithmetic::div_mod::lemma_mod_twice(p + k + 1, m);
    vstd::arithmetic::div_mod::lemma_add_mod_noop(p % m, (k + 1) % m + ws, m);
    assert((p % m + ws2) % m == (p + k + 1 + ws) % m) by {
        vstd::arithmetic::div_mod::lemma_add_mod_noop_right(p % m, (k + 1) % m + ws, m);
        vstd::arithmetic::div_mod::lemma_add_mod_noop_right(p, (k + 1) % m + ws, m);
        vstd::arithmetic::div_mod::lemma_add_mod_noop_right(p + ws, k + 1, m);
        vstd::arithmetic::div_mod::lemma_add_mod_noop(p, k + 1 + ws, m);
        vstd::arithmetic::div_mod::lemma_add_mod_noop_right(0, p, m);
    }
    assert(((p + k + 1) % m + ws) % m == (p + k + 1 + ws) % m) by {
        vstd::arithmetic::div_mod::lemma_add_mod_noop(p + k + 1, ws, m);
        vstd::arithmetic::div_mod::lemma_mod_twice(p + k + 1, m);
        vstd::arithmetic::div_mod::lemma_add_mod_noop_right(ws, p + k + 1, m);
    }
}

} // verus!
