//! Inclusive ranges `[start, end]` over integer indices.

use vstd::prelude::*;

verus! {

/// An inclusive range of indices: the first field is the first index, the
/// second field the last one.
#[derive(Clone, Copy, Debug, PartialEq, Eq)]
pub struct IRange<Idx>(pub Idx, pub Idx);

/// `x` lies in the inclusive range `[l, r]`.
pub open spec fn in_range(l: int, r: int, x: int) -> bool {
    l <= x <= r
}

impl IRange<usize> {
    /// Whether `x` lies between both ends, ends included.
    pub fn contains_point(&self, x: usize) -> (res: bool)
        ensures
            res == in_range(self.0 as int, self.1 as int, x as int),
    {
        x >= self.0 && x <= self.1
    }

    /// Whether both ends of `other` lie in `self`.
    pub fn contains_range(&self, other: IRange<usize>) -> (res: bool)
        ensures
            res == (in_range(self.0 as int, self.1 as int, other.0 as int)
                && in_range(self.0 as int, self.1 as int, other.1 as int)),
    {
        self.contains_point(other.0) && self.contains_point(other.1)
    }

    /// Whether one of the ends of `other` lies in `self`.
    pub fn intersects(&self, other: IRange<usize>) -> (res: bool)
        ensures
            res == (in_range(self.0 as int, self.1 as int, other.0 as int)
                || in_range(self.0 as int, self.1 as int, other.1 as int)),
    {
        self.contains_point(other.0) || self.contains_point(other.1)
    }

    /// Number of indices in the range.
    pub fn len(&self) -> (res: usize)
        requires
            self.0 <= self.1,
            self.1 - self.0 + 1 <= usize::MAX,
        ensures
            res == self.1 - self.0 + 1,
    {
        self.1 - self.0 + 1
    }
}

impl IRange<u32> {
    /// Whether `x` lies between both ends, ends included.
    pub fn contains_point(&self, x: u32) -> (res: bool)
        ensures
            res == in_range(self.0 as int, self.1 as int, x as int),
    {
        x >= self.0 && x <= self.1
    }

    /// Whether both ends of `other` lie in `self`.
    pub fn contains_range(&self, other: IRange<u32>) -> (res: bool)
        ensures
            res == (in_range(self.0 as int, self.1 as int, other.0 as int)
                && in_range(self.0 as int, self.1 as int, other.1 as int)),
    {
        self.contains_point(other.0) && self.contains_point(other.1)
    }

    /// Whether one of the ends of `other` lies in `self`.
    pub fn intersects(&self, other: IRange<u32>) -> (res: bool)
        ensures
            res == (in_range(self.0 as int, self.1 as int, other.0 as int)
                || in_range(self.0 as int, self.1 as int, other.1 as int)),
    {
        self.contains_point(other.0) || self.contains_point(other.1)
    }

    /// Number of indices in the range.
    pub fn len(&self) -> (res: u32)
        requires
            self.0 <= self.1,
            self.1 - self.0 + 1 <= u32::MAX,
        ensures
            res == self.1 - self.0 + 1,
    {
        self.1 - self.0 + 1
    }
}

impl IRange<u16> {
    /// Whether `x` lies between both ends, ends included.
    pub fn contains_point(&self, x: u16) -> (res: bool)
        ensures
            res == in_range(self.0 as int, self.1 as int, x as int),
    {
        x >= self.0 && x <= self.1
    }

    /// Whether both ends of `other` lie in `self`.
    pub fn contains_range(&self, other: IRange<u16>) -> (res: bool)
        ensures
            res == (in_range(self.0 as int, self.1 as int, other.0 as int)
                && in_range(self.0 as int, self.1 as int, other.1 as int)),
    {
        self.contains_point(other.0) && self.contains_point(other.1)
    }

    /// Whether one of the ends of `other` lies in `self`.
    pub fn intersects(&self, other: IRange<u16>) -> (res: bool)
        ensures
            res == (in_range(self.0 as int, self.1 as int, other.0 as int)
                || in_range(self.0 as int, self.1 as int, other.1 as int)),
    {
        self.contains_point(other.0) || self.contains_point(other.1)
    }

    /// Number of indices in the range.
    pub fn len(&self) -> (res: u16)
        requires
            self.0 <= self.1,
            self.1 - self.0 + 1 <= u16::MAX,
        ensures
            res == self.1 - self.0 + 1,
    {
        self.1 - self.0 + 1
    }
}

} // verus!
