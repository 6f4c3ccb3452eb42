//! Which bytes of a file have arrived.

use range_set::RangeSet;
use std::ops::RangeInclusive;
use vstd::prelude::*;

verus! {

/// The numbers from `first` to `last`, both counted in.
pub open spec fn interval(first: u64, last: u64) -> Set<u64> {
    Set::new(|x: u64| first <= x <= last)
}

/// Whether spans of numbers are in ascending order, none of them empty, with at least one number
/// left out between any two.
pub open spec fn separated(spans: Seq<(u64, u64)>) -> bool {
    &&& forall|i: int| 0 <= i < spans.len() ==> (#[trigger] spans[i]).0 <= spans[i].1
    &&& forall|i: int, j: int|
        0 <= i < j < spans.len() ==> (#[trigger] spans[i]).1 + 1 < (#[trigger] spans[j]).0
}

/// The numbers that lie in one of the spans.
pub open spec fn covered(spans: Seq<(u64, u64)>) -> Set<u64> {
    Set::new(|x: u64| exists|i: int| 0 <= i < spans.len() && (#[trigger] spans[i]).0 <= x <= spans[i].1)
}

/// A set of byte positions, kept as a list of spans by `range_set::RangeSet`.
#[verifier::external_body]
#[derive(Debug)]
pub struct ReceivedRanges {
    inner: RangeSet<[RangeInclusive<u64>; 1]>,
}

/// The spans that a set keeps, first and last position each, as `RangeSet::as_ref` lists them.
pub uninterp spec fn spans(set: ReceivedRanges) -> Seq<(u64, u64)>;

impl ReceivedRanges {
    /// `RangeSet::new`: no spans.
    #[verifier::external_body]
    pub(crate) fn new() -> (set: ReceivedRanges)
        ensures
            spans(set) == Seq::<(u64, u64)>::empty(),
    {
        ReceivedRanges { inner: RangeSet::new() }
    }

    /// `RangeSet::insert_range` on a range that is not empty: adds the positions of the range,
    /// fusing spans that overlap or touch.
    #[verifier::external_body]
    pub(crate) fn insert_range(&mut self, first: u64, last: u64)
        requires
            first <= last,
        ensures
            separated(spans(*final(self))),
            covered(spans(*final(self))) == covered(spans(*old(self))).union(
                interval(first, last),
            ),
    {
        self.inner.insert_range(first..=last);
    }

    /// `RangeSet::contains_range` on a range that is not empty: whether every position of the
    /// range is in the set.
    #[verifier::external_body]
    pub(crate) fn contains_range(&self, first: u64, last: u64) -> (contained: bool)
        requires
            first <= last,
        ensures
            contained == interval(first, last).subset_of(covered(spans(*self))),
    {
        self.inner.contains_range(first..=last)
    }

    /// `RangeSet::as_ref`: the spans, which are in order and do not touch.
    #[verifier::external_body]
    pub(crate) fn ranges(&self) -> (list: Vec<(u64, u64)>)
        ensures
            list@ == spans(*self),
            separated(list@),
    {
        self.inner.as_ref().iter().map(|range| (*range.start(), *range.end())).collect()
    }

    /// `RangeSet::min`: where the first span begins.
    #[verifier::external_body]
    pub(crate) fn min(&self) -> (first: Option<u64>)
        ensures
            first == if spans(*self).len() == 0 {
                None
            } else {
                Some(spans(*self).first().0)
            },
    {
        self.inner.min()
    }

    /// `RangeSet::max`: where the last span ends.
    #[verifier::external_body]
    pub(crate) fn max(&self) -> (last: Option<u64>)
        ensures
            last == if spans(*self).len() == 0 {
                None
            } else {
                Some(spans(*self).last().1)
            },
    {
        self.inner.max()
    }
}

} // verus!
