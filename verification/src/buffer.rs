//! A bounded byte buffer that hands out its contents as slices and reclaims
//! the space of a prefix once every slice over that prefix has been given
//! back.

use std::collections::VecDeque;

use vstd::prelude::*;

use crate::range_tracker::RangeTracker;

verus! {

/// A bounded byte buffer.  Bytes are appended at the back and handed out
/// front to back as slices; a handed-out slice keeps its bytes in the buffer
/// until it is released, and `cleanup` drops the released prefix.
pub struct TrimmingBuffer {
    inner: VecDeque<u8>,
    capacity: usize,
    first_available: usize,
    drained: usize,
    del_tracker: RangeTracker,
}

/// Bytes handed out by a `TrimmingBuffer`, with the position they hold in it.
#[derive(Debug)]
pub struct TrimmingBufferSlice {
    bytes: Vec<u8>,
    pos: usize,
}

impl View for TrimmingBufferSlice {
    type V = Seq<u8>;

    closed spec fn view(&self) -> Seq<u8> {
        self.bytes@
    }
}

impl TrimmingBufferSlice {
    /// Where the slice starts, counted over all the bytes ever stored in the
    /// buffer (modulo the word size).
    pub closed spec fn pos(&self) -> usize {
        self.pos
    }

    /// The bytes of the slice.
    pub fn as_slice(&self) -> (res: &[u8])
        ensures
            res@ == self@,
    {
        self.bytes.as_slice()
    }

    /// A copy of the bytes of the slice.
    pub fn to_vec(&self) -> (res: Vec<u8>)
        ensures
            res@ == self@,
    {
        let res = self.bytes.clone();
        proof {
            assert(res@ =~= self.bytes@);
        }
        res
    }

    /// Number of bytes in the slice.
    pub fn len(&self) -> (res: usize)
        ensures
            res == self@.len(),
    {
        self.bytes.len()
    }
}

/// `after` is `before` once the released run `[0, k]` at its front has
/// been dropped: the bytes, the first available index and the released
/// positions all move down by `k + 1`.
pub open spec fn dropped_prefix(before: TrimmingBuffer, after: TrimmingBuffer, k: int) -> bool {
    &&& 0 <= k < before.first_available()
    &&& forall|q: int| 0 <= q <= k ==> #[trigger] before.released(q)
    &&& !before.released(k + 1)
    &&& after.data() == before.data().skip(k + 1)
    &&& after.first_available() == before.first_available() - (k + 1)
    &&& after.drained() == vstd::wrapping::usize_specs::wrapping_add(before.drained(), (k + 1) as usize)
    &&& forall|p: int| p >= 0 ==> (#[trigger] after.released(p) <==> before.released(p + k + 1))
}

/// `after` is what `cleanup` leaves of `before`: the same buffer when its
/// first byte was not released, else the buffer without the released run
/// at its front.
pub open spec fn cleaned(before: TrimmingBuffer, after: TrimmingBuffer) -> bool {
    &&& after.capacity() == before.capacity()
    &&& !before.released(0) ==> {
        &&& after.data() == before.data()
        &&& after.first_available() == before.first_available()
        &&& after.drained() == before.drained()
        &&& forall|p: int| #[trigger] after.released(p) == before.released(p)
    }
    &&& before.released(0) ==> exists|k: int| #[trigger] dropped_prefix(before, after, k)
}

/// The positions of `b` that are released once the slices `ss` were given
/// back to it by `release`, first to last: a slice counts when `release`
/// accepts it, that is when it is nonempty, lies within the bytes handed
/// out and none of its bytes was released yet.
pub open spec fn released_set(b: TrimmingBuffer, ss: Seq<TrimmingBufferSlice>) -> Set<int>
    decreases ss.len(),
{
    if ss.len() == 0 {
        Set::new(|p: int| b.released(p))
    } else {
        let prev = released_set(b, ss.drop_last());
        let s = ss.last();
        let idx = b.slice_index(&s);
        let n = s@.len() as int;
        if n > 0 && idx + n <= b.first_available() && forall|q: int|
            idx <= q < idx + n ==> !#[trigger] prev.contains(q) {
            prev.union(Set::new(|q: int| idx <= q < idx + n))
        } else {
            prev
        }
    }
}

/// Position `p` of `b` is released once the slices `ss` were given back
/// (see `released_set`).
pub open spec fn released_after(b: TrimmingBuffer, ss: Seq<TrimmingBufferSlice>, p: int) -> bool {
    released_set(b, ss).contains(p)
}

/// One more slice `s` given back after `ss`: position `p` is released when
/// it was already, or when `release` accepts `s` and `p` lies in it.
pub proof fn lemma_released_after_push(b: TrimmingBuffer, ss: Seq<TrimmingBufferSlice>, s: TrimmingBufferSlice, p: int)
    ensures
        released_after(b, ss.push(s), p) == (released_after(b, ss, p) || ((s@.len() > 0
            && b.slice_index(&s) + s@.len() <= b.first_available() && forall|q: int|
            b.slice_index(&s) <= q < b.slice_index(&s) + s@.len() ==> !#[trigger] released_after(b, ss, q))
            && b.slice_index(&s) <= p < b.slice_index(&s) + s@.len())),
{
    let t = ss.push(s);
    assert(t.drop_last() =~= ss);
    assert(t.last() == s);
    let prev = released_set(b, ss);
    let idx = b.slice_index(&s);
    let n = s@.len() as int;
    assert((forall|q: int| idx <= q < idx + n ==> !#[trigger] prev.contains(q)) == (forall|q: int|
        idx <= q < idx + n ==> !#[trigger] released_after(b, ss, q))) by {
        assert forall|q: int|
            #![trigger prev.contains(q)]
            #![trigger released_after(b, ss, q)]
            prev.contains(q) == released_after(b, ss, q) by {}
    }
    if n > 0 && idx + n <= b.first_available() && forall|q: int|
        idx <= q < idx + n ==> !#[trigger] prev.contains(q) {
        assert(released_set(b, t) == prev.union(Set::new(|q: int| idx <= q < idx + n)));
    } else {
        assert(released_set(b, t) == prev);
    }
}

/// `after` is `before` once the slices `ss` were given back by `release`,
/// first to last.
pub open spec fn releases_done(before: TrimmingBuffer, after: TrimmingBuffer, ss: Seq<TrimmingBufferSlice>) -> bool {
    &&& after.data() == before.data()
    &&& after.capacity() == before.capacity()
    &&& after.first_available() == before.first_available()
    &&& after.drained() == before.drained()
    &&& forall|p: int| #[trigger] after.released(p) == released_after(before, ss, p)
}

impl TrimmingBuffer {
    /// The bytes currently stored.
    pub closed spec fn data(&self) -> Seq<u8> {
        self.inner@
    }

    /// The most bytes the buffer holds.
    pub closed spec fn capacity(&self) -> nat {
        self.capacity as nat
    }

    /// Index of the first byte not handed out yet.
    pub closed spec fn first_available(&self) -> nat {
        self.first_available as nat
    }

    /// How many bytes `cleanup` has dropped so far (modulo the word size).
    pub closed spec fn drained(&self) -> usize {
        self.drained
    }

    /// The byte at index `p` was handed out and given back.
    pub closed spec fn released(&self, p: int) -> bool {
        self.del_tracker.tracks(p)
    }

    pub closed spec fn wf(&self) -> bool {
        &&& self.inner@.len() <= self.capacity
        &&& self.capacity < isize::MAX
        &&& self.first_available <= self.inner@.len()
        &&& self.del_tracker.wf()
        &&& forall|p: int| #[trigger] self.del_tracker.tracks(p) ==> 0 <= p < self.first_available
    }

    /// What a well-formed buffer guarantees of its sizes and of its
    /// released positions.
    pub proof fn lemma_wf(&self)
        requires
            self.wf(),
        ensures
            self.first_available() <= self.data().len() <= self.capacity(),
            self.capacity() < isize::MAX,
            forall|p: int| #[trigger] self.released(p) ==> 0 <= p < self.first_available(),
    {
    }

    /// Index in the buffer of the first byte of `slice`.
    pub open spec fn slice_index(&self, slice: &TrimmingBufferSlice) -> int {
        vstd::wrapping::usize_specs::wrapping_sub(slice.pos(), self.drained()) as int
    }

    /// `release` takes `slice` back: it is nonempty, lies within the bytes
    /// handed out, and none of its bytes was given back already.
    pub open spec fn release_ok(&self, slice: &TrimmingBufferSlice) -> bool {
        let idx = self.slice_index(slice);
        let n = slice@.len() as int;
        &&& n > 0
        &&& idx + n <= self.first_available()
        &&& forall|p: int| idx <= p < idx + n ==> !self.released(p)
    }

    /// An empty buffer that holds at most `size` bytes.
    pub fn new(size: usize) -> (res: TrimmingBuffer)
        requires
            size < isize::MAX,
        ensures
            res.wf(),
            res.data() == Seq::<u8>::empty(),
            res.capacity() == size,
            res.first_available() == 0,
            res.drained() == 0,
            forall|p: int| !res.released(p),
    {
        TrimmingBuffer {
            inner: VecDeque::with_capacity(size),
            capacity: size,
            first_available: 0,
            drained: 0,
            del_tracker: RangeTracker::new(),
        }
    }

    /// Appends `data` at the back.  The bytes must fit.
    pub fn add(&mut self, data: &[u8])
        requires
            old(self).wf(),
            old(self).data().len() + data@.len() <= old(self).capacity(),
        ensures
            final(self).wf(),
            final(self).data() == old(self).data() + data@,
            final(self).capacity() == old(self).capacity(),
            final(self).first_available() == old(self).first_available(),
            final(self).drained() == old(self).drained(),
            forall|p: int| #[trigger] final(self).released(p) == old(self).released(p),
    {
        let ghost old_data = self.inner@;
        let mut i: usize = 0;
        while i < data.len()
            invariant
                self.wf(),
                old(self).wf(),
                old_data == old(self).data(),
                old_data.len() + data@.len() <= self.capacity,
                self.capacity == old(self).capacity,
                self.first_available == old(self).first_available,
                self.drained == old(self).drained,
                self.del_tracker == old(self).del_tracker,
                i <= data.len(),
                self.inner@ =~= old_data + data@.take(i as int),
            decreases data.len() - i,
        {
            self.inner.push_back(data[i]);
            i = i + 1;
            proof {
                assert(data@.take(i as int) =~= data@.take(i - 1).push(data@[i - 1]));
            }
        }
        proof {
            assert(data@.take(i as int) =~= data@);
        }
    }

    /// Appends `data` at the back and hands it out at once.  The bytes must
    /// fit and `data` must not be empty.
    pub fn add_slicing(&mut self, data: &[u8]) -> (res: TrimmingBufferSlice)
        requires
            old(self).wf(),
            data@.len() > 0,
            old(self).data().len() + data@.len() <= old(self).capacity(),
        ensures
            final(self).wf(),
            final(self).data() == old(self).data() + data@,
            res@ == data@,
            res.pos() == vstd::wrapping::usize_specs::wrapping_add(
                old(self).drained(),
                old(self).data().len() as usize,
            ),
            final(self).first_available() == old(self).first_available() + data@.len(),
            final(self).capacity() == old(self).capacity(),
            final(self).drained() == old(self).drained(),
            forall|p: int| #[trigger] final(self).released(p) == old(self).released(p),
    {
        let first_ind = self.inner.len();
        self.add(data);
        proof {
            assert(self.inner@.subrange(first_ind as int, first_ind + data@.len()) =~= data@);
        }
        self.take_range(first_ind, data.len())
    }

    /// Room left, in bytes.
    pub fn get_space_left(&self) -> (res: usize)
        requires
            self.wf(),
        ensures
            res == self.capacity() - self.data().len(),
    {
        self.capacity - self.inner.len()
    }

    /// Bytes stored and not handed out yet.
    pub fn get_available(&self) -> (res: usize)
        requires
            self.wf(),
        ensures
            res == self.data().len() - self.first_available(),
    {
        self.inner.len() - self.first_available
    }

    /// Hands out the next `min(available, size)` bytes; `None` when that is
    /// zero.
    pub fn take(&mut self, size: usize) -> (res: Option<TrimmingBufferSlice>)
        requires
            old(self).wf(),
        ensures
            final(self).wf(),
            final(self).data() == old(self).data(),
            final(self).capacity() == old(self).capacity(),
            final(self).drained() == old(self).drained(),
            forall|p: int| #[trigger] final(self).released(p) == old(self).released(p),
            ({
                let fa = old(self).first_available() as int;
                let avail = old(self).data().len() - fa;
                let n = if avail < size { avail } else { size as int };
                &&& res is None <==> n == 0
                &&& res is None ==> final(self).first_available() == old(self).first_available()
                &&& res matches Some(s) ==> {
                    &&& s@ == old(self).data().subrange(fa, fa + n)
                    &&& s.pos() == vstd::wrapping::usize_specs::wrapping_add(
                        old(self).drained(),
                        fa as usize,
                    )
                    &&& final(self).first_available() == fa + n
                }
            }),
    {
        let avail = self.get_available();
        let len = if avail < size {
            avail
        } else {
            size
        };
        if len == 0 {
            return None;
        }
        let first = self.first_available;
        Some(self.take_range(first, len))
    }

    /// Hands out `len` bytes from index `start` and moves the first
    /// available index `len` bytes further.
    fn take_range(&mut self, start: usize, len: usize) -> (res: TrimmingBufferSlice)
        requires
            old(self).wf(),
            start + len <= old(self).data().len(),
            old(self).first_available() + len <= old(self).data().len(),
        ensures
            final(self).wf(),
            final(self).data() == old(self).data(),
            res@ == old(self).data().subrange(start as int, start + len),
            res.pos() == vstd::wrapping::usize_specs::wrapping_add(old(self).drained(), start),
            final(self).first_available() == old(self).first_available() + len,
            final(self).capacity() == old(self).capacity(),
            final(self).drained() == old(self).drained(),
            forall|p: int| #[trigger] final(self).released(p) == old(self).released(p),
    {
        let mut bytes: Vec<u8> = Vec::with_capacity(len);
        let mut i: usize = 0;
        while i < len
            invariant
                start + len <= self.inner@.len(),
                start + len < isize::MAX,
                i <= len,
                bytes@ =~= self.inner@.subrange(start as int, start + i),
            decreases len - i,
        {
            bytes.push(self.inner[start + i]);
            i = i + 1;
        }
        self.first_available = self.first_available + len;
        TrimmingBufferSlice { bytes, pos: self.drained.wrapping_add(start) }
    }

    /// Gives back a slice that this buffer handed out, so that `cleanup` can
    /// drop its bytes.  Returns `false`, and changes nothing, unless the
    /// slice is nonempty, lies within the handed-out bytes and none of its
    /// bytes was given back already.
    pub fn release(&mut self, slice: TrimmingBufferSlice) -> (res: bool)
        requires
            old(self).wf(),
        ensures
            final(self).wf(),
            final(self).data() == old(self).data(),
            final(self).capacity() == old(self).capacity(),
            final(self).first_available() == old(self).first_available(),
            final(self).drained() == old(self).drained(),
            ({
                let idx = old(self).slice_index(&slice);
                let n = slice@.len() as int;
                &&& res == old(self).release_ok(&slice)
                &&& res ==> forall|p: int|
                    #[trigger] final(self).released(p) == (old(self).released(p) || idx <= p < idx
                        + n)
                &&& !res ==> forall|p: int| #[trigger] final(self).released(p) == old(self).released(p)
            }),
    {
        let idx = slice.pos.wrapping_sub(self.drained);
        let n = slice.bytes.len();
        if n == 0 || idx > self.first_available || n > self.first_available - idx {
            return false;
        }
        let status = self.del_tracker.is_slice_tracked(idx, n);
        match status {
            Some(false) => {
                proof {
                    assert forall|p: int| idx <= p < idx + n implies !old(self).released(p) by {
                        if old(self).released(p) {
                            assert(crate::range_tracker::seq_any_tracked(
                                self.del_tracker.ranges(),
                                idx as int,
                                idx + n - 1,
                            ));
                        }
                    }
                }
                self.del_tracker.track_slice(idx, n);
                true
            },
            Some(true) => {
                proof {
                    let s = self.del_tracker.ranges();
                    assert(crate::range_tracker::seq_tracks(s, idx as int));
                    assert(old(self).released(idx as int));
                }
                false
            },
            None => {
                proof {
                    let s = self.del_tracker.ranges();
                    let q = choose|q: int| idx <= q <= idx + n - 1 && #[trigger] crate::range_tracker::seq_tracks(s, q);
                    assert(old(self).released(q));
                }
                false
            },
        }
    }

    /// Drops the bytes of the released run at the front of the buffer, if
    /// the first byte was released; every index moves down accordingly.
    pub fn cleanup(&mut self)
        requires
            old(self).wf(),
        ensures
            final(self).wf(),
            final(self).capacity() == old(self).capacity(),
            !old(self).released(0) ==> {
                &&& final(self).data() == old(self).data()
                &&& final(self).first_available() == old(self).first_available()
                &&& final(self).drained() == old(self).drained()
                &&& forall|p: int| #[trigger] final(self).released(p) == old(self).released(p)
            },
            old(self).released(0) ==> exists|k: int| #[trigger] dropped_prefix(*old(self), *final(self), k),
            cleaned(*old(self), *final(self)),
    {
        let ghost old_tracker = self.del_tracker;
        match self.del_tracker.take_range() {
            Some(i) => {
                proof {
                    assert(old_tracker.tracks(i as int));
                    assert(i < old(self).first_available);
                }
                let ghost old_data = self.inner@;
                let ghost new_tracker = self.del_tracker;
                let mut j: usize = 0;
                while j <= i
                    invariant
                        i < old(self).first_available,
                        old(self).wf(),
                        old_data == old(self).inner@,
                        self.capacity == old(self).capacity,
                        self.first_available == old(self).first_available,
                        self.drained == old(self).drained,
                        self.del_tracker == new_tracker,
                        j <= i + 1,
                        self.inner@ =~= old_data.skip(j as int),
                    decreases i + 1 - j,
                {
                    self.inner.pop_front();
                    j = j + 1;
                }
                self.first_available = self.first_available - (i + 1);
                self.drained = self.drained.wrapping_add(i + 1);
                proof {
                    let k = i as int;
                    assert forall|p: int| #[trigger] self.del_tracker.tracks(p) implies 0 <= p
                        < self.first_available by {
                        if p >= 0 {
                            assert(old_tracker.tracks(p + k + 1));
                        }
                    }
                    assert(old(self).released(k + 1) == old_tracker.tracks(k + 1));
                    assert(self.inner@.len() <= self.capacity);
                    assert(self.first_available <= self.inner@.len());
                    assert(self.del_tracker.wf());
                    assert(self.wf());
                    assert(dropped_prefix(*old(self), *self, k));
                }
            },
            None => {
                proof {
                    assert forall|p: int| #[trigger] self.del_tracker.tracks(p) implies 0 <= p
                        < self.first_available by {
                        assert(old_tracker.tracks(p));
                    }
                }
            },
        }
    }
}

/// Bytes come out in the order they went in: once a buffer has handed out
/// all it held, the bytes `data` added next are the first it hands out.
pub proof fn lemma_take_gives_added(
    before: TrimmingBuffer,
    after: TrimmingBuffer,
    data: Seq<u8>,
    n: int,
)
    requires
        before.wf(),
        before.first_available() == before.data().len(),
        after.data() == before.data() + data,
        after.first_available() == before.first_available(),
        0 <= n <= data.len(),
    ensures
        after.data().subrange(
            after.first_available() as int,
            after.first_available() + n,
        ) == data.take(n),
{
    assert(after.data().subrange(after.first_available() as int, after.first_available() + n)
        =~= data.take(n));
}

} // verus!
