//! The regions of the input that statistics cover, as a set of disjoint byte ranges.

use range_set_blaze::RangeSetBlaze;
use vstd::prelude::*;

use crate::window::{Window, WindowView};

verus! {

/// The regions of the input that some statistics cover.
///
/// It holds a `RangeSetBlaze` of offsets, stored as sorted disjoint ranges. What the set holds
/// is `covered_offsets`, and the methods below say how each operation changes it.
#[verifier::external_body]
pub struct Regions {
    set: RangeSetBlaze<u64>,
}

/// The offsets that a set of regions holds.
pub uninterp spec fn covered_offsets(regions: Regions) -> Set<u64>;

/// The offsets of a window.
pub open spec fn window_offsets(window: WindowView) -> Set<u64> {
    Set::new(|x: u64| window.start <= x < window.end)
}

impl Regions {
    /// Creates an empty set.
    ///
    /// Calls `RangeSetBlaze::new`, which holds no offset.
    #[verifier::external_body]
    fn new_set() -> (r: Regions)
        ensures
            covered_offsets(r) == Set::<u64>::empty(),
    {
        Regions { set: RangeSetBlaze::new() }
    }

    /// Adds the offsets `start..=end` to the set.
    ///
    /// Calls `RangeSetBlaze::ranges_insert`, which adds every offset of the range and nothing
    /// else; a range whose end lies before its start adds nothing.
    #[verifier::external_body]
    fn insert_range(&mut self, start: u64, end: u64)
        ensures
            covered_offsets(*final(self)) == covered_offsets(*old(self)).union(
                Set::new(|x: u64| start <= x <= end),
            ),
    {
        self.set.ranges_insert(start..=end);
    }

    /// Whether the first set holds every offset of the second.
    ///
    /// Calls `RangeSetBlaze::is_superset`.
    #[verifier::external_body]
    fn set_is_superset(&self, other: &Regions) -> (r: bool)
        ensures
            r == covered_offsets(*other).subset_of(covered_offsets(*self)),
    {
        self.set.is_superset(&other.set)
    }

    /// The number of offsets in the set.
    ///
    /// Calls `RangeSetBlaze::len`.
    #[verifier::external_body]
    fn set_len(&self) -> (r: u128)
        ensures
            r == covered_offsets(*self).len(),
    {
        self.set.len()
    }

    /// A copy of the set.
    ///
    /// Calls `Clone` of `RangeSetBlaze`, which copies the ranges.
    #[verifier::external_body]
    fn set_clone(&self) -> (r: Regions)
        ensures
            covered_offsets(r) == covered_offsets(*self),
    {
        Regions { set: self.set.clone() }
    }

    /// The ranges of the set as `(start, end)` pairs of inclusive bounds.
    ///
    /// Calls `RangeSetBlaze::ranges`, whose ranges together hold exactly the offsets of the set.
    #[verifier::external_body]
    fn set_ranges(&self) -> (r: Vec<(u64, u64)>)
        ensures
            forall|i: int| 0 <= i < r@.len() ==> (#[trigger] r@[i]).0 <= r@[i].1,
            forall|x: u64|
                #[trigger] covered_offsets(*self).contains(x) <==> exists|i: int|
                    0 <= i < r@.len() && (#[trigger] r@[i]).0 <= x <= r@[i].1,
    {
        self.set.ranges().map(|range| (*range.start(), *range.end())).collect()
    }
}

impl Regions {
    /// The covered offsets.
    pub open spec fn offsets(&self) -> Set<u64> {
        covered_offsets(*self)
    }

    /// No region.
    pub fn empty() -> (r: Regions)
        ensures
            r.offsets() == Set::<u64>::empty(),
    {
        Regions::new_set()
    }

    /// The offsets of the given window.
    ///
    /// A window that ends at offset `0` is empty and has no last offset, so it is refused.
    pub fn of_window(window: Window) -> (r: Regions)
        requires
            window@.end > 0,
        ensures
            r.offsets() == window_offsets(window@),
    {
        let mut r = Regions::new_set();
        r.insert_range(window.start(), window.end() - 1);
        proof {
            assert(r.offsets() =~= window_offsets(window@));
        }
        r
    }

    /// Adds the offsets of the other regions.
    pub fn add(&mut self, other: &Regions)
        ensures
            final(self).offsets() == old(self).offsets().union(other.offsets()),
    {
        let ranges = other.set_ranges();
        let ghost start = self.offsets();
        let mut i: usize = 0;
        while i < ranges.len()
            invariant
                i <= ranges@.len(),
                self.offsets() == start.union(
                    Set::new(
                        |x: u64|
                            exists|j: int| 0 <= j < i && (#[trigger] ranges@[j]).0 <= x <= ranges@[j].1,
                    ),
                ),
            decreases ranges@.len() - i,
        {
            let (s, e) = ranges[i];
            self.insert_range(s, e);
            i = i + 1;
            proof {
                assert(self.offsets() =~= start.union(
                    Set::new(
                        |x: u64|
                            exists|j: int| 0 <= j < i && (#[trigger] ranges@[j]).0 <= x <= ranges@[j].1,
                    ),
                )) by {
                    assert forall|x: u64|
                        #![trigger self.offsets().contains(x)]
                        (exists|j: int| 0 <= j < i - 1 && (#[trigger] ranges@[j]).0 <= x <= ranges@[j].1)
                            || (s <= x <= e) <==> (exists|j: int|
                            0 <= j < i && (#[trigger] ranges@[j]).0 <= x <= ranges@[j].1) by {
                        if s <= x <= e {
                            assert(ranges@[i - 1].0 <= x <= ranges@[i - 1].1);
                        }
                    }
                }
            }
        }
        proof {
            assert(self.offsets() =~= old(self).offsets().union(other.offsets()));
        }
    }

    /// Whether these regions hold every offset of the other ones.
    pub fn is_superset(&self, other: &Regions) -> (r: bool)
        ensures
            r == other.offsets().subset_of(self.offsets()),
    {
        self.set_is_superset(other)
    }

    /// The number of covered offsets.
    pub fn len(&self) -> (r: u128)
        ensures
            r == self.offsets().len(),
    {
        self.set_len()
    }

    /// A copy of the regions.
    pub fn copy(&self) -> (r: Regions)
        ensures
            r.offsets() == self.offsets(),
    {
        self.set_clone()
    }

    /// The covered ranges as `(start, end)` pairs of inclusive bounds.
    pub fn ranges(&self) -> (r: Vec<(u64, u64)>)
        ensures
            forall|i: int| 0 <= i < r@.len() ==> (#[trigger] r@[i]).0 <= r@[i].1,
            forall|x: u64|
                #[trigger] self.offsets().contains(x) <==> exists|i: int|
                    0 <= i < r@.len() && (#[trigger] r@[i]).0 <= x <= r@[i].1,
    {
        self.set_ranges()
    }
}

} // verus!
