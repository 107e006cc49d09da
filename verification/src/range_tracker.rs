//! Records which positions of a buffer have been released, as a sorted list
//! of maximal inclusive ranges, and lets the owner consume the released
//! prefix of the buffer.

use vstd::prelude::*;

use crate::irange::IRange;

verus! {

/// An inclusive range of tracked positions.
#[derive(Clone, Copy, Debug, PartialEq, Eq)]
pub struct DTRange(pub usize, pub usize);

/// Some range of `s` holds position `p`.
pub open spec fn seq_tracks(s: Seq<DTRange>, p: int) -> bool {
    exists|i: int| #![trigger s[i]] 0 <= i < s.len() && s[i].0 <= p && p <= s[i].1
}

/// The ranges are nonempty, sorted, pairwise disjoint and never adjacent
/// (so each range is a maximal run of tracked positions), and their ends
/// stay below `isize::MAX`.
pub open spec fn seq_wf(s: Seq<DTRange>) -> bool {
    &&& forall|i: int| #![trigger s[i]] 0 <= i < s.len() ==> s[i].0 <= s[i].1 && s[i].1 < isize::MAX
    &&& forall|i: int, j: int| #![trigger s[i], s[j]] 0 <= i < j < s.len() ==> s[i].1 + 1 < s[j].0
}

/// Every position of `[l, r]` is tracked in `s`.
pub open spec fn seq_all_tracked(s: Seq<DTRange>, l: int, r: int) -> bool {
    forall|p: int| l <= p <= r ==> #[trigger] seq_tracks(s, p)
}

/// Some position of `[l, r]` is tracked in `s`.
pub open spec fn seq_any_tracked(s: Seq<DTRange>, l: int, r: int) -> bool {
    exists|p: int| l <= p <= r && #[trigger] seq_tracks(s, p)
}

/// What `is_range_tracked` answers for `[l, r]`: `Some(true)` when every
/// position is tracked, `None` when only part of them is, `Some(false)` when
/// none is (an inverted range holds no position).
pub open spec fn range_status(s: Seq<DTRange>, l: int, r: int) -> Option<bool> {
    if l > r {
        Some(false)
    } else if seq_all_tracked(s, l, r) {
        Some(true)
    } else if seq_any_tracked(s, l, r) {
        None
    } else {
        Some(false)
    }
}

impl DTRange {
    /// Both ends moved by `off`.
    pub fn offset(&self, off: isize) -> (res: DTRange)
        requires
            self.0 <= isize::MAX,
            self.1 <= isize::MAX,
            0 <= self.0 + off <= isize::MAX,
            0 <= self.1 + off <= isize::MAX,
        ensures
            res.0 == self.0 + off,
            res.1 == self.1 + off,
    {
        if off >= 0 {
            let u = off as usize;
            DTRange(self.0 + u, self.1 + u)
        } else {
            let u = ((0 - (off + 1)) as usize) + 1;
            DTRange(self.0 - u, self.1 - u)
        }
    }
}

/// Ends of a tracked range sit next to untracked positions.
proof fn lemma_run_borders(s: Seq<DTRange>, k: int)
    requires
        seq_wf(s),
        0 <= k < s.len(),
    ensures
        !seq_tracks(s, s[k].0 - 1),
        !seq_tracks(s, s[k].1 + 1),
        forall|p: int| s[k].0 <= p <= s[k].1 ==> seq_tracks(s, p),
{
    assert forall|p: int| s[k].0 <= p <= s[k].1 implies seq_tracks(s, p) by {
        assert(s[k].0 <= p && p <= s[k].1);
    }
    if seq_tracks(s, s[k].0 - 1) {
        let i = choose|i: int| #![trigger s[i]] 0 <= i < s.len() && s[i].0 <= s[k].0 - 1 && s[k].0 - 1 <= s[i].1;
        if i < k {
            assert(s[i].1 + 1 < s[k].0);
        } else if i > k {
            assert(s[k].1 + 1 < s[i].0);
        }
    }
    if seq_tracks(s, s[k].1 + 1) {
        let i = choose|i: int| #![trigger s[i]] 0 <= i < s.len() && s[i].0 <= s[k].1 + 1 && s[k].1 + 1 <= s[i].1;
        if i < k {
            assert(s[i].1 + 1 < s[k].0);
        } else if i > k {
            assert(s[k].1 + 1 < s[i].0);
        }
    }
}

/// Splicing `[nl, nr]` (the new range `[l, r]`, merged with the adjacent
/// neighbours) in place of the merged neighbours keeps the ranges well formed
/// and adds exactly the positions of `[l, r]`.
proof fn lemma_merged_insert(
    s: Seq<DTRange>,
    l: int,
    r: int,
    idx: int,
    merge_left: bool,
    merge_right: bool,
    t: Seq<DTRange>,
)
    requires
        seq_wf(s),
        0 <= l <= r < isize::MAX,
        0 <= idx <= s.len(),
        forall|j: int| 0 <= j < idx ==> #[trigger] s[j].1 < l,
        forall|j: int| idx <= j < s.len() ==> #[trigger] s[j].0 > r,
        merge_left == (idx > 0 && s[idx - 1].1 + 1 == l),
        merge_right == (idx < s.len() && s[idx].0 == r + 1),
        t == s.subrange(0, if merge_left { idx - 1 } else { idx }).push(
            DTRange(
                (if merge_left { s[idx - 1].0 } else { l as usize }),
                (if merge_right { s[idx].1 } else { r as usize }),
            ),
        ) + s.subrange(if merge_right { idx + 1 } else { idx }, s.len() as int),
    ensures
        seq_wf(t),
        forall|p: int| #[trigger] seq_tracks(t, p) <==> (seq_tracks(s, p) || l <= p <= r),
{
    let n = s.len() as int;
    let a = if merge_left { idx - 1 } else { idx };
    let b = if merge_right { idx + 1 } else { idx };
    let nl: int = if merge_left { s[idx - 1].0 as int } else { l };
    let nr: int = if merge_right { s[idx].1 as int } else { r };
    let mid = t[a];
    assert(t.len() == a + 1 + (n - b));
    assert(mid.0 == nl && mid.1 == nr);
    assert forall|k: int| 0 <= k < a implies #[trigger] t[k] == s[k] by {}
    assert forall|k: int| a < k < t.len() implies #[trigger] t[k] == s[k - a - 1 + b] by {}
    assert forall|k: int| 0 <= k < a implies #[trigger] s[k].1 + 1 < nl by {
        if merge_left {
            assert(s[k].1 + 1 < s[idx - 1].0);
        } else {
            if k + 1 < idx {
                assert(s[k].1 + 1 < s[idx - 1].0);
                assert(s[idx - 1].1 < l);
            }
        }
    }
    assert forall|k: int| b <= k < n implies nr + 1 < #[trigger] s[k].0 by {
        if merge_right {
            assert(s[idx].1 + 1 < s[k].0);
        } else {
            if k > idx {
                assert(s[idx].1 + 1 < s[k].0);
                assert(s[idx].0 > r);
            }
        }
    }
    assert forall|x: int| 0 <= x < t.len() implies #[trigger] t[x].0 <= t[x].1 && t[x].1 < isize::MAX by {
        if x < a {
        } else if x == a {
            if merge_right {
                assert(s[idx].0 <= s[idx].1);
            }
            if merge_left {
                assert(s[idx - 1].0 <= s[idx - 1].1);
            }
        } else {
            assert(t[x] == s[x - a - 1 + b]);
        }
    }
    assert forall|x: int, y: int| 0 <= x < y < t.len() implies #[trigger] t[x].1 + 1 < #[trigger] t[y].0 by {
        if y < a {
            assert(s[x].1 + 1 < s[y].0);
        } else if y == a {
            assert(s[x].1 + 1 < nl);
        } else if x < a {
            assert(s[x].1 + 1 < nl);
            assert(nr + 1 < s[y - a - 1 + b].0);
            assert(nl <= nr) by {
                if merge_left {
                    assert(s[idx - 1].0 <= s[idx - 1].1);
                }
                if merge_right {
                    assert(s[idx].0 <= s[idx].1);
                }
            }
        } else if x == a {
            assert(nr + 1 < s[y - a - 1 + b].0);
        } else {
            assert(s[x - a - 1 + b].1 + 1 < s[y - a - 1 + b].0);
        }
    }
    assert forall|p: int| #[trigger] seq_tracks(t, p) <==> (seq_tracks(s, p) || l <= p <= r) by {
        if seq_tracks(t, p) {
            let k = choose|k: int| #![trigger t[k]] 0 <= k < t.len() && t[k].0 <= p && p <= t[k].1;
            if k < a {
                assert(s[k].0 <= p <= s[k].1);
            } else if k > a {
                let m = k - a - 1 + b;
                assert(s[m].0 <= p <= s[m].1);
            } else {
                if p < l {
                    assert(s[idx - 1].0 <= p <= s[idx - 1].1);
                } else if p > r {
                    assert(s[idx].0 <= p <= s[idx].1);
                }
            }
        }
        if seq_tracks(s, p) {
            let k = choose|k: int| #![trigger s[k]] 0 <= k < s.len() && s[k].0 <= p && p <= s[k].1;
            if k < a {
                assert(t[k].0 <= p <= t[k].1);
            } else if k >= b {
                let m = k + a + 1 - b;
                assert(t[m] == s[k]);
                assert(t[m].0 <= p <= t[m].1);
            } else if merge_left && k == idx - 1 {
                assert(t[a].0 <= p <= t[a].1);
            } else {
                assert(t[a].0 <= p <= t[a].1);
            }
        }
        if l <= p <= r {
            assert(t[a].0 <= p <= t[a].1);
        }
    }
}

/// Tracks released positions, in relative coordinates: position 0 is the
/// first position that has not been consumed by `take_range`.
#[derive(Debug)]
pub struct RangeTracker {
    rangeset: Vec<DTRange>,
}

/// Walks the ranges of a tracker, first to last.
pub struct RangeTrackerIterator {
    ranges: Vec<IRange<usize>>,
    pos: usize,
}

impl RangeTrackerIterator {
    /// The ranges that the iterator still has to yield.
    pub closed spec fn remaining(&self) -> Seq<IRange<usize>> {
        self.ranges@.skip(self.pos as int)
    }

    pub closed spec fn wf(&self) -> bool {
        self.pos <= self.ranges@.len()
    }

    /// The next range, if any.
    pub fn next(&mut self) -> (res: Option<IRange<usize>>)
        requires
            old(self).wf(),
        ensures
            final(self).wf(),
            old(self).remaining().len() == 0 ==> res is None && final(self).remaining() == old(
                self,
            ).remaining(),
            old(self).remaining().len() > 0 ==> res == Some(old(self).remaining()[0])
                && final(self).remaining() == old(self).remaining().drop_first(),
    {
        if self.pos < self.ranges.len() {
            let r = self.ranges[self.pos];
            self.pos = self.pos + 1;
            proof {
                assert(self.remaining() =~= old(self).remaining().drop_first());
            }
            Some(r)
        } else {
            None
        }
    }
}

/// For a single position, `is_range_tracked` answers whether it is tracked.
pub proof fn lemma_point_status(s: Seq<DTRange>, p: int)
    ensures
        range_status(s, p, p) == Some(seq_tracks(s, p)),
{
    if seq_any_tracked(s, p, p) {
        let q = choose|q: int| p <= q <= p && #[trigger] seq_tracks(s, q);
        assert(q == p);
    }
    if seq_tracks(s, p) {
        assert(seq_any_tracked(s, p, p));
    }
}

/// The ranges as `IRange`s.
pub open spec fn to_iranges(s: Seq<DTRange>) -> Seq<IRange<usize>> {
    s.map_values(|d: DTRange| IRange(d.0, d.1))
}

/// Position `p` lies in one of the ranges `rs`.
pub open spec fn runs_cover(rs: Seq<IRange<usize>>, p: int) -> bool {
    exists|i: int| #![trigger rs[i]] 0 <= i < rs.len() && rs[i].0 <= p && p <= rs[i].1
}

/// The ranges are nonempty, sorted, pairwise disjoint and never adjacent:
/// each is a maximal run.
pub open spec fn runs_maximal(rs: Seq<IRange<usize>>) -> bool {
    &&& forall|i: int| #![trigger rs[i]] 0 <= i < rs.len() ==> rs[i].0 <= rs[i].1
    &&& forall|i: int, j: int| #![trigger rs[i], rs[j]] 0 <= i < j < rs.len() ==> rs[i].1 + 1 < rs[j].0
}

/// `after` is `before` with the positions `[l, r]` tracked as well (what
/// `track_range` leaves).
pub open spec fn tracked_range(before: RangeTracker, after: RangeTracker, l: int, r: int) -> bool {
    &&& after.wf()
    &&& forall|p: int|
        #![trigger after.tracks(p)]
        after.tracks(p) <==> (before.tracks(p) || l <= p <= r)
}

/// The ranges of a well-formed tracker, as its iterator yields them, are
/// maximal runs that cover exactly its tracked positions.
pub proof fn lemma_runs(t: RangeTracker)
    requires
        t.wf(),
    ensures
        runs_maximal(to_iranges(t.ranges())),
        forall|p: int| #[trigger] t.tracks(p) <==> runs_cover(to_iranges(t.ranges()), p),
{
    let s = t.ranges();
    let rs = to_iranges(s);
    assert forall|i: int| 0 <= i < rs.len() implies #[trigger] rs[i] == IRange(s[i].0, s[i].1) by {}
    assert forall|i: int, j: int| 0 <= i < j < rs.len() implies #[trigger] rs[i].1 + 1 < #[trigger] rs[j].0 by {
        assert(rs[i] == IRange(s[i].0, s[i].1));
        assert(rs[j] == IRange(s[j].0, s[j].1));
        assert(s[i].1 + 1 < s[j].0);
    }
    assert forall|p: int| #[trigger] t.tracks(p) <==> runs_cover(rs, p) by {
        if t.tracks(p) {
            let i = choose|i: int| #![trigger s[i]] 0 <= i < s.len() && s[i].0 <= p && p <= s[i].1;
            assert(rs[i] == IRange(s[i].0, s[i].1));
        }
        if runs_cover(rs, p) {
            let i = choose|i: int| #![trigger rs[i]] 0 <= i < rs.len() && rs[i].0 <= p && p <= rs[i].1;
            assert(rs[i] == IRange(s[i].0, s[i].1));
            assert(s[i].0 <= p && p <= s[i].1);
        }
    }
}

/// Tracking the untracked positions `[l, r]`: afterwards the tracker's
/// iterator yields maximal runs that cover exactly the positions it covered
/// before and `[l, r]`.
pub proof fn lemma_track_range_runs(before: RangeTracker, after: RangeTracker, l: int, r: int)
    requires
        before.wf(),
        tracked_range(before, after, l, r),
    ensures
        runs_maximal(to_iranges(after.ranges())),
        forall|p: int|
            #[trigger] runs_cover(to_iranges(after.ranges()), p) <==> (runs_cover(
                to_iranges(before.ranges()),
                p,
            ) || l <= p <= r),
{
    lemma_runs(before);
    lemma_runs(after);
    assert forall|p: int|
        #[trigger] runs_cover(to_iranges(after.ranges()), p) <==> (runs_cover(
            to_iranges(before.ranges()),
            p,
        ) || l <= p <= r) by {
        assert(after.tracks(p) <==> (before.tracks(p) || l <= p <= r));
    }
}

/// Once the `len` positions from `start` are tracked (what `track_slice`
/// does), `is_slice_tracked` of them answers `Some(true)`.
pub proof fn lemma_slice_tracked_after_track(before: RangeTracker, after: RangeTracker, start: int, len: int)
    requires
        len > 0,
        tracked_range(before, after, start, start + len - 1),
    ensures
        range_status(after.ranges(), start, start + len - 1) == Some(true),
{
    assert forall|p: int| start <= p <= start + len - 1 implies #[trigger] seq_tracks(after.ranges(), p) by {
        assert(after.tracks(p));
    }
}

impl RangeTracker {
    /// The tracked ranges, first to last.
    pub closed spec fn ranges(&self) -> Seq<DTRange> {
        self.rangeset@
    }

    /// Position `p` is tracked.
    pub open spec fn tracks(&self, p: int) -> bool {
        seq_tracks(self.ranges(), p)
    }

    pub open spec fn wf(&self) -> bool {
        seq_wf(self.ranges())
    }

    /// A tracker with nothing tracked.
    pub fn new() -> (res: RangeTracker)
        ensures
            res.wf(),
            res.ranges().len() == 0,
            forall|p: int| !res.tracks(p),
    {
        RangeTracker { rangeset: Vec::new() }
    }

    /// Nothing is tracked.
    pub fn is_empty(&self) -> (res: bool)
        requires
            self.wf(),
        ensures
            res == (self.ranges().len() == 0),
            res == (forall|p: int| !self.tracks(p)),
    {
        let res = self.rangeset.len() == 0;
        proof {
            if !res {
                let s = self.rangeset@;
                assert(s[0].0 <= s[0].0 && s[0].0 <= s[0].1);
                assert(seq_tracks(s, s[0].0 as int));
                assert(self.tracks(s[0].0 as int));
            } else {
                assert forall|p: int| !self.tracks(p) by {
                    assert(self.ranges().len() == 0);
                }
            }
        }
        res
    }

    /// Tracks the positions of `newrange`, merging it with the ranges right
    /// before and right after it.  The positions must not be tracked yet.
    pub fn track_range(&mut self, newrange: IRange<usize>)
        requires
            old(self).wf(),
            newrange.0 <= newrange.1,
            newrange.1 < isize::MAX,
            forall|p: int| newrange.0 <= p <= newrange.1 ==> !old(self).tracks(p),
        ensures
            final(self).wf(),
            forall|p: int|
                #![trigger final(self).tracks(p)]
                final(self).tracks(p) <==> (old(self).tracks(p) || newrange.0 <= p <= newrange.1),
            tracked_range(*old(self), *final(self), newrange.0 as int, newrange.1 as int),
    {
        let l = newrange.0;
        let r = newrange.1;
        let ghost s = self.rangeset@;
        let n = self.rangeset.len();

        // ranges before `idx` end before `l`, the others start after `r`
        let mut idx: usize = 0;
        while idx < n && self.rangeset[idx].1 < l
            invariant
                n == s.len(),
                s == self.rangeset@,
                idx <= n,
                forall|j: int| 0 <= j < idx ==> #[trigger] s[j].1 < l,
            decreases n - idx,
        {
            idx = idx + 1;
        }
        proof {
            if idx < n {
                assert(s[idx as int].1 >= l);
                if s[idx as int].0 <= r {
                    let q = if s[idx as int].0 <= l { l as int } else { s[idx as int].0 as int };
                    assert(s[idx as int].0 <= q && q <= s[idx as int].1);
                    assert(seq_tracks(s, q));
                    assert(old(self).tracks(q));
                    assert(false);
                }
            }
            assert forall|j: int| idx <= j < n implies #[trigger] s[j].0 > r by {
                if j > idx {
                    assert(s[idx as int].1 + 1 < s[j].0);
                }
            }
        }

        let merge_left = idx > 0 && self.rangeset[idx - 1].1 + 1 == l;
        let merge_right = idx < n && self.rangeset[idx].0 == r + 1;
        let nl = if merge_left {
            self.rangeset[idx - 1].0
        } else {
            l
        };
        let nr = if merge_right {
            self.rangeset[idx].1
        } else {
            r
        };
        let a = if merge_left {
            idx - 1
        } else {
            idx
        };
        let b = if merge_right {
            idx + 1
        } else {
            idx
        };

        let mut nv: Vec<DTRange> = Vec::new();
        let mut i: usize = 0;
        while i < a
            invariant
                a <= n,
                n == s.len(),
                s == self.rangeset@,
                i <= a,
                nv@ =~= s.subrange(0, i as int),
            decreases a - i,
        {
            nv.push(self.rangeset[i]);
            i = i + 1;
        }
        nv.push(DTRange(nl, nr));
        let mut j: usize = b;
        while j < n
            invariant
                a <= b <= n,
                n == s.len(),
                s == self.rangeset@,
                b <= j <= n,
                nv@ =~= s.subrange(0, a as int).push(DTRange(nl, nr)) + s.subrange(
                    b as int,
                    j as int,
                ),
            decreases n - j,
        {
            nv.push(self.rangeset[j]);
            j = j + 1;
        }
        proof {
            lemma_merged_insert(s, l as int, r as int, idx as int, merge_left, merge_right, nv@);
        }
        self.rangeset = nv;
    }

    /// Consumes the run of tracked positions that starts at position 0, if
    /// any: returns its last position `k`, after which every remaining
    /// position moves down by `k + 1`.  Returns `None` when position 0 is not
    /// tracked.
    pub fn take_range(&mut self) -> (res: Option<usize>)
        requires
            old(self).wf(),
        ensures
            final(self).wf(),
            res is None <==> !old(self).tracks(0),
            res is None ==> final(self).ranges() == old(self).ranges(),
            res matches Some(k) ==> {
                &&& forall|q: int| 0 <= q <= k ==> #[trigger] old(self).tracks(q)
                &&& !old(self).tracks(k + 1)
                &&& forall|p: int|
                    #![trigger final(self).tracks(p)]
                    p >= 0 ==> (final(self).tracks(p) <==> old(self).tracks(p + k + 1))
                &&& forall|p: int| p < 0 ==> !#[trigger] final(self).tracks(p)
            },
    {
        let ghost s = self.rangeset@;
        let n = self.rangeset.len();
        if n == 0 {
            return None;
        }
        let first = self.rangeset[0];
        if first.0 != 0 {
            proof {
                if seq_tracks(s, 0) {
                    let i = choose|i: int| #![trigger s[i]] 0 <= i < s.len() && s[i].0 <= 0 && 0 <= s[i].1;
                    if i > 0 {
                        assert(s[0].1 + 1 < s[i].0);
                    }
                }
            }
            return None;
        }
        let k = first.1;
        let off: isize = 0 - (k as isize) - 1;
        let mut nv: Vec<DTRange> = Vec::new();
        let mut i: usize = 1;
        while i < n
            invariant
                n == s.len(),
                s == self.rangeset@,
                seq_wf(s),
                s[0].0 == 0,
                k == s[0].1,
                off == -(k + 1),
                1 <= i <= n,
                nv@.len() == i - 1,
                forall|j: int|
                    #![trigger nv@[j]]
                    0 <= j < i - 1 ==> nv@[j].0 == s[j + 1].0 - k - 1 && nv@[j].1 == s[j + 1].1 - k - 1,
            decreases n - i,
        {
            assert(s[0].1 + 1 < s[i as int].0);
            let d = self.rangeset[i].offset(off);
            nv.push(d);
            i = i + 1;
        }
        let ghost t = nv@;
        proof {
            lemma_run_borders(s, 0);
            assert forall|x: int, y: int| 0 <= x < y < t.len() implies #[trigger] t[x].1 + 1 < #[trigger] t[y].0 by {
                assert(s[x + 1].1 + 1 < s[y + 1].0);
            }
            assert forall|x: int| 0 <= x < t.len() implies #[trigger] t[x].0 <= t[x].1 && t[x].1 < isize::MAX by {
                assert(s[x + 1].0 <= s[x + 1].1);
            }
            assert forall|p: int| p >= 0 implies (#[trigger] seq_tracks(t, p) <==> seq_tracks(s, p + k + 1)) by {
                if seq_tracks(t, p) {
                    let j = choose|j: int| #![trigger t[j]] 0 <= j < t.len() && t[j].0 <= p && p <= t[j].1;
                    assert(s[j + 1].0 <= p + k + 1 <= s[j + 1].1);
                }
                if seq_tracks(s, p + k + 1) {
                    let j = choose|j: int| #![trigger s[j]] 0 <= j < s.len() && s[j].0 <= p + k + 1 && p + k + 1 <= s[j].1;
                    assert(j != 0);
                    assert(t[j - 1].0 <= p <= t[j - 1].1);
                }
            }
            assert forall|p: int| p < 0 implies !#[trigger] seq_tracks(t, p) by {
                if seq_tracks(t, p) {
                    let j = choose|j: int| #![trigger t[j]] 0 <= j < t.len() && t[j].0 <= p && p <= t[j].1;
                    assert(s[0].1 + 1 < s[j + 1].0);
                }
            }
        }
        self.rangeset = nv;
        Some(k)
    }

    /// Whether the positions of `range` are tracked: `Some(true)` when all of
    /// them are, `None` when only some of them are, `Some(false)` when none is.
    pub fn is_range_tracked(&self, range: IRange<usize>) -> (res: Option<bool>)
        requires
            self.wf(),
        ensures
            res == range_status(self.ranges(), range.0 as int, range.1 as int),
    {
        let l = range.0;
        let r = range.1;
        let ghost s = self.rangeset@;
        if l > r {
            return Some(false);
        }
        let n = self.rangeset.len();
        let mut i: usize = 0;
        while i < n
            invariant
                n == s.len(),
                s == self.rangeset@,
                seq_wf(s),
                s == self.ranges(),
                l == range.0,
                r == range.1,
                l <= r,
                i <= n,
                forall|j: int| 0 <= j < i ==> #[trigger] s[j].1 < l,
            decreases n - i,
        {
            let d = self.rangeset[i];
            if d.0 > r {
                proof {
                    assert forall|p: int| l <= p <= r implies !#[trigger] seq_tracks(s, p) by {
                        if seq_tracks(s, p) {
                            let j = choose|j: int| #![trigger s[j]] 0 <= j < s.len() && s[j].0 <= p && p <= s[j].1;
                            if j > i {
                                assert(s[i as int].1 + 1 < s[j].0);
                            }
                        }
                    }
                    assert(!seq_tracks(s, l as int));
                    assert(!seq_all_tracked(s, l as int, r as int));
                    assert(!seq_any_tracked(s, l as int, r as int));
                    assert(s == self.ranges());
                }
                return Some(false);
            }
            if d.1 >= l {
                // `d` overlaps `[l, r]`
                proof {
                    lemma_run_borders(s, i as int);
                }
                if d.0 <= l && r <= d.1 {
                    proof {
                        assert forall|p: int| l <= p <= r implies #[trigger] seq_tracks(s, p) by {
                            assert(s[i as int].0 <= p <= s[i as int].1);
                        }
                        assert(seq_all_tracked(s, l as int, r as int));
                        assert(s == self.ranges());
                    }
                    return Some(true);
                } else {
                    proof {
                        let q = if d.0 <= l { l as int } else { d.0 as int };
                        assert(seq_tracks(s, q));
                        if d.0 > l {
                            assert(!seq_tracks(s, d.0 - 1));
                            assert(!seq_all_tracked(s, l as int, r as int));
                        } else {
                            assert(!seq_tracks(s, d.1 + 1));
                            assert(!seq_all_tracked(s, l as int, r as int));
                        }
                    }
                    return None;
                }
            }
            i = i + 1;
        }
        proof {
            assert forall|p: int| l <= p <= r implies !#[trigger] seq_tracks(s, p) by {
                if seq_tracks(s, p) {
                    let j = choose|j: int| #![trigger s[j]] 0 <= j < s.len() && s[j].0 <= p && p <= s[j].1;
                    assert(s[j].1 < l);
                }
            }
            assert(!seq_tracks(s, l as int));
            assert(!seq_any_tracked(s, l as int, r as int));
        }
        Some(false)
    }

    /// Tracks the `len` positions that start at `start`.
    pub fn track_slice(&mut self, start: usize, len: usize)
        requires
            old(self).wf(),
            len > 0,
            start + len <= isize::MAX,
            forall|p: int| start <= p < start + len ==> !old(self).tracks(p),
        ensures
            final(self).wf(),
            forall|p: int|
                #![trigger final(self).tracks(p)]
                final(self).tracks(p) <==> (old(self).tracks(p) || start <= p < start + len),
            tracked_range(*old(self), *final(self), start as int, start + len - 1),
    {
        self.track_range(IRange(start, start + len - 1));
    }

    /// `is_range_tracked` for the `len` positions that start at `start`.
    pub fn is_slice_tracked(&self, start: usize, len: usize) -> (res: Option<bool>)
        requires
            self.wf(),
            len > 0,
            start + len <= usize::MAX,
        ensures
            res == range_status(self.ranges(), start as int, start + len - 1),
    {
        self.is_range_tracked(IRange(start, start + len - 1))
    }

    /// Iterates over the tracked ranges, first to last.
    pub fn iter(&self) -> (res: RangeTrackerIterator)
        ensures
            res.wf(),
            res.remaining() == to_iranges(self.ranges()),
    {
        let mut v: Vec<IRange<usize>> = Vec::new();
        let mut i: usize = 0;
        while i < self.rangeset.len()
            invariant
                i <= self.rangeset@.len(),
                v@ =~= to_iranges(self.rangeset@.take(i as int)),
            decreases self.rangeset@.len() - i,
        {
            let d = self.rangeset[i];
            v.push(IRange(d.0, d.1));
            i = i + 1;
            proof {
                assert(self.rangeset@.take(i as int) =~= self.rangeset@.take(i - 1).push(d));
            }
        }
        proof {
            assert(self.rangeset@.take(i as int) =~= self.rangeset@);
        }
        let res = RangeTrackerIterator { ranges: v, pos: 0 };
        proof {
            assert(res.ranges@.skip(0) =~= res.ranges@);
        }
        res
    }
}

} // verus!
