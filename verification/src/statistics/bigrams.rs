//! Implements bigram statistics that record which regions of the input they cover.

use vstd::prelude::*;
use vstd::set_lib::{lemma_len_subset, lemma_set_disjoint_lens};

use crate::data::{content_at, DataSource};
use crate::statistics::downsampled_bigrams::{
    downsampled_count, follow_counts, lemma_block_sum_add, lemma_block_sum_describes,
    lemma_block_sum_zero,
};
use crate::statistics::raw_bigrams::{
    lemma_pair_count_bound, lemma_pair_count_split, pair_count, BigramCounter, RawBigrams,
};
use crate::statistics::regions::{window_offsets, Regions};
use crate::statistics::statistics_tree::TreeStatistics;
use crate::window::{Window, WindowView};

verus! {

/// How often `second` follows `first` in `start..end` of the content, where the very first byte
/// of the data counts as following a `0` byte.
pub open spec fn hex_pair_count(content: Seq<u8>, start: int, end: int, first: u8, second: u8) -> nat {
    pair_count(content, start, end, first, second) + if first == 0 && start == 0 && end > 0
        && content.len() > 0 && content[0] == second {
        1nat
    } else {
        0nat
    }
}

/// No offset of the set is the largest `u64`: the set holds offsets of bytes inside windows.
pub open spec fn below_max(set: Set<u64>) -> bool {
    forall|x: u64| #[trigger] set.contains(x) ==> x < u64::MAX
}

/// A window holds as many offsets as its size.
pub proof fn lemma_window_offsets_len(window: WindowView)
    requires
        0 <= window.start <= window.end <= u64::MAX,
    ensures
        window_offsets(window).finite(),
        window_offsets(window).len() == window.end - window.start,
    decreases window.end - window.start,
{
    if window.start == window.end {
        assert(window_offsets(window) =~= Set::<u64>::empty());
    } else {
        let shorter = WindowView { start: window.start, end: window.end - 1 };
        lemma_window_offsets_len(shorter);
        assert(window_offsets(shorter).insert((window.end - 1) as u64) =~= window_offsets(window));
    }
}

/// A set of offsets below the largest `u64` is finite and fits its size into a `u64`.
pub proof fn lemma_below_max_len(set: Set<u64>)
    requires
        below_max(set),
    ensures
        set.finite(),
        set.len() <= u64::MAX,
{
    let all = WindowView { start: 0, end: u64::MAX as int };
    lemma_window_offsets_len(all);
    assert(set.subset_of(window_offsets(all)));
    lemma_len_subset(set, window_offsets(all));
}

/// Computed bigram statistics about regions of data.
pub struct BigramStatistics {
    /// `follow` counts how many `second`s follow a `first` in the regions.
    follow: RawBigrams<u64>,
    /// The regions in the input that the statistics cover.
    contained_regions: Regions,
}

impl BigramStatistics {
    /// How often `second` follows `first` in the covered regions.
    pub closed spec fn spec_follow(&self, first: u8, second: u8) -> nat {
        self.follow.spec_follow(first, second)
    }

    /// The offsets that the statistics cover.
    pub closed spec fn covered(&self) -> Set<u64> {
        self.contained_regions.offsets()
    }

    /// The statistics are consistent: no count exceeds the number of covered bytes, which lie
    /// below the largest `u64`.
    pub closed spec fn wf(&self) -> bool {
        &&& self.follow.well_formed()
        &&& below_max(self.covered())
        &&& forall|f: u8, s: u8| #[trigger] self.follow.spec_follow(f, s) <= self.covered().len()
        &&& forall|f: int, s: int|
            0 <= f < 16 && 0 <= s < 16 ==> #[trigger] downsampled_count(*self, f, s)
                <= self.covered().len()
    }

    /// Consistent statistics cover offsets below the largest `u64` and no count exceeds their
    /// number.
    pub proof fn lemma_wf(&self)
        requires
            self.wf(),
        ensures
            below_max(self.covered()),
            forall|f: u8, s: u8| #[trigger] self.spec_follow(f, s) <= self.covered().len(),
            forall|f: int, s: int|
                0 <= f < 16 && 0 <= s < 16 ==> #[trigger] downsampled_count(*self, f, s)
                    <= self.covered().len(),
    {
    }

    /// The statistics describe exactly the given window of the data.
    pub open spec fn describes(&self, content: Seq<u8>, window: WindowView) -> bool {
        &&& self.covered() == window_offsets(window)
        &&& forall|f: u8, s: u8| #[trigger]
            self.spec_follow(f, s) == hex_pair_count(content, window.start, window.end, f, s)
    }

    /// Creates empty statistics.
    pub fn empty() -> (r: BigramStatistics)
        ensures
            r.wf(),
            r.covered() == Set::<u64>::empty(),
            forall|f: u8, s: u8| #[trigger] r.spec_follow(f, s) == 0,
    {
        let r = BigramStatistics { follow: RawBigrams::empty(), contained_regions: Regions::empty() };
        proof {
            assert forall|f: int, s: int| 0 <= f < 16 && 0 <= s < 16 implies #[trigger] downsampled_count(
                r,
                f,
                s,
            ) <= r.covered().len() by {
                lemma_block_sum_zero(follow_counts(r), f, s, 16);
            }
        }
        r
    }

    /// Returns the number of times that `first` is followed by `second` in the statistics.
    pub fn follow(&self, first: u8, second: u8) -> (r: u64)
        requires
            self.wf(),
        ensures
            r == self.spec_follow(first, second),
    {
        self.follow.follow(first, second)
    }

    /// Lists all counts as `(first, second, count)`, by `second` and then by `first`.
    pub fn iter(&self) -> (r: Vec<(u8, u8, u64)>)
        requires
            self.wf(),
        ensures
            r@.len() == 65536,
            forall|i: int|
                0 <= i < 65536 ==> #[trigger] r@[i] == ((i % 256) as u8, (i / 256) as u8, self.spec_follow(
                    (i % 256) as u8,
                    (i / 256) as u8,
                ) as u64),
    {
        let mut out: Vec<(u8, u8, u64)> = Vec::new();
        let mut i: u32 = 0;
        while i < 65536
            invariant
                self.wf(),
                i <= 65536,
                out@.len() == i,
                forall|j: int|
                    0 <= j < i ==> #[trigger] out@[j] == ((j % 256) as u8, (j / 256) as u8, self.spec_follow(
                        (j % 256) as u8,
                        (j / 256) as u8,
                    ) as u64),
            decreases 65536 - i,
        {
            let first = (i % 256) as u8;
            let second = (i / 256) as u8;
            out.push((first, second, self.follow(first, second)));
            i = i + 1;
        }
        out
    }

    /// Returns the number of bytes that the statistics cover.
    pub fn num_covered_bytes(&self) -> (r: u64)
        ensures
            r == self.covered().len() as u64,
    {
        self.contained_regions.len() as u64
    }

    /// Returns `true` if the given window is fully covered by the statistics.
    pub fn fully_contains(&self, window: Window) -> (r: bool)
        ensures
            r == window_offsets(window@).subset_of(self.covered()),
    {
        if window.is_empty() {
            proof {
                assert(window_offsets(window@) =~= Set::<u64>::empty());
            }
            return true;
        }
        let window_region = Regions::of_window(window);
        self.contained_regions.is_superset(&window_region)
    }

    /// A copy of the covered regions.
    pub fn regions(&self) -> (r: Regions)
        ensures
            r.offsets() == self.covered(),
    {
        self.contained_regions.copy()
    }

    /// The covered regions as `(start, end)` pairs of inclusive bounds.
    pub fn contained_regions(&self) -> (r: Vec<(u64, u64)>)
        ensures
            forall|i: int| 0 <= i < r@.len() ==> (#[trigger] r@[i]).0 <= r@[i].1,
            forall|x: u64|
                #[trigger] self.covered().contains(x) <==> exists|i: int|
                    0 <= i < r@.len() && (#[trigger] r@[i]).0 <= x <= r@[i].1,
    {
        self.contained_regions.ranges()
    }

    /// The approximate number of bytes that the statistics take in memory.
    pub fn approximate_memory_usage(&self) -> (r: u64)
        ensures
            r == 0x8_0000,
    {
        0x8_0000
    }

    /// Computes the statistics of the given window of data.
    ///
    /// The window of the statistics ends early where the data ends. The data must hold a byte
    /// of the window, unless the window starts after offset `0`.
    pub fn compute<S: DataSource>(source: &mut S, window: Window) -> (r: Result<
        BigramStatistics,
        S::Error,
    >)
        requires
            window@.start > 0 || (window@.size() > 0 && old(source).content().len() > 0),
        ensures
            S::infallible() ==> r is Ok,
            final(source).content() == old(source).content(),
            r matches Ok(stats) ==> {
                &&& stats.wf()
                &&& stats.describes(
                    old(source).content(),
                    WindowView {
                        start: window@.start,
                        end: window@.start + content_at(
                            old(source).content(),
                            window@.start,
                            window@.size(),
                        ).len(),
                    },
                )
            },
    {
        let ghost content = source.content();
        let _ = window.size();
        let mut follow = RawBigrams::<u64>::empty();
        let (read_window, first_byte) = match follow.compute(source, window) {
            Ok(v) => v,
            Err(e) => return Err(e),
        };
        let ghost w = read_window@;
        proof {
            assert forall|f: u8, s: u8| #[trigger]
                follow.spec_follow(f, s) == pair_count(content, w.start, w.end, f, s) by {
                assert(follow.count(f, s) == pair_count(content, w.start, w.end, f, s));
            }
        }
        if !read_window.is_empty() {
            match first_byte {
                Some(b) => {
                    proof {
                        lemma_pair_count_bound(content, w.start, w.end, 0, b);
                    }
                    follow.add_count(0, b, 1);
                },
                None => {},
            }
        }
        proof {
            if w.start == 0 {
                assert(content_at(content, 0, window@.size()).len() > 0);
            }
        }
        let contained_regions = Regions::of_window(read_window);
        let stats = BigramStatistics { follow, contained_regions };
        proof {
            lemma_window_offsets_len(w);
            assert forall|f: u8, s: u8| #[trigger]
                stats.spec_follow(f, s) == hex_pair_count(content, w.start, w.end, f, s) by {}
            assert forall|f: u8, s: u8| #[trigger] stats.follow.spec_follow(f, s) <= stats.covered().len() by {
                lemma_pair_count_bound(content, w.start, w.end, f, s);
            }
            lemma_block_sum_describes(&stats, content, w);
        }
        Ok(stats)
    }

    /// Adds the statistics of other regions to these statistics.
    ///
    /// The regions must not overlap.
    pub fn add_assign(&mut self, rhs: &BigramStatistics)
        requires
            old(self).wf(),
            rhs.wf(),
            old(self).covered().disjoint(rhs.covered()),
        ensures
            final(self).wf(),
            final(self).covered() == old(self).covered().union(rhs.covered()),
            forall|f: u8, s: u8| #[trigger]
                final(self).spec_follow(f, s) == old(self).spec_follow(f, s) + rhs.spec_follow(f, s),
            forall|content: Seq<u8>, left: WindowView, right: WindowView|
                left.wf() && right.wf() && old(self).describes(content, left) && rhs.describes(
                    content,
                    right,
                ) && left.end == right.start ==> #[trigger] final(self).describes(
                    content,
                    WindowView { start: left.start, end: right.end },
                ),
    {
        let ghost old_self = *self;
        proof {
            lemma_below_max_len(self.covered());
            lemma_below_max_len(rhs.covered());
            lemma_set_disjoint_lens(self.covered(), rhs.covered());
            assert(below_max(self.covered() + rhs.covered()));
            lemma_below_max_len(self.covered() + rhs.covered());
        }
        let mut second: u16 = 0;
        while second < 256
            invariant
                0 <= second <= 256,
                self.follow.well_formed(),
                rhs.wf(),
                self.contained_regions == old_self.contained_regions,
                forall|f: u8, s: u8| #[trigger]
                    old_self.spec_follow(f, s) + rhs.spec_follow(f, s) <= u64::MAX,
                forall|f: u8, s: u8| #[trigger]
                    self.follow.spec_follow(f, s) == old_self.spec_follow(f, s) + if (s as int)
                        < second {
                        rhs.spec_follow(f, s)
                    } else {
                        0
                    },
            decreases 256 - second,
        {
            let mut first: u16 = 0;
            while first < 256
                invariant
                    0 <= second < 256,
                    0 <= first <= 256,
                    self.follow.well_formed(),
                    rhs.wf(),
                    self.contained_regions == old_self.contained_regions,
                    forall|f: u8, s: u8| #[trigger]
                        old_self.spec_follow(f, s) + rhs.spec_follow(f, s) <= u64::MAX,
                    forall|f: u8, s: u8| #[trigger]
                        self.follow.spec_follow(f, s) == old_self.spec_follow(f, s) + if (s as int)
                            < second || (s as int == second && (f as int) < first) {
                            rhs.spec_follow(f, s)
                        } else {
                            0
                        },
                decreases 256 - first,
            {
                let f = first as u8;
                let s = second as u8;
                proof {
                    assert(old_self.spec_follow(f, s) + rhs.spec_follow(f, s) <= u64::MAX);
                    assert(self.follow.spec_follow(f, s) == old_self.spec_follow(f, s));
                }
                let value = rhs.follow(f, s);
                self.follow.add_count(f, s, value);
                first = first + 1;
            }
            second = second + 1;
        }
        self.contained_regions.add(&rhs.contained_regions);
        proof {
            assert(self.covered() =~= old_self.covered().union(rhs.covered()));
            assert forall|f: int, s: int| 0 <= f < 16 && 0 <= s < 16 implies #[trigger] downsampled_count(
                *self,
                f,
                s,
            ) <= self.covered().len() by {
                lemma_block_sum_add(follow_counts(old_self), follow_counts(*rhs), follow_counts(*self), f, s, 16);
                assert(downsampled_count(old_self, f, s) <= old_self.covered().len());
                assert(downsampled_count(*rhs, f, s) <= rhs.covered().len());
            }
            assert forall|content: Seq<u8>, left: WindowView, right: WindowView|
                left.wf() && right.wf() && old_self.describes(content, left) && rhs.describes(
                    content,
                    right,
                ) && left.end == right.start implies #[trigger] self.describes(
                content,
                WindowView { start: left.start, end: right.end },
            ) by {
                let joined = WindowView { start: left.start, end: right.end };
                assert(self.covered() =~= window_offsets(joined));
                assert forall|f: u8, s: u8| #[trigger]
                    self.spec_follow(f, s) == hex_pair_count(content, joined.start, joined.end, f, s) by {
                    lemma_pair_count_split(content, left.start, left.end, right.end, f, s);
                    assert(old_self.spec_follow(f, s) == hex_pair_count(
                        content,
                        left.start,
                        left.end,
                        f,
                        s,
                    ));
                    assert(rhs.spec_follow(f, s) == hex_pair_count(
                        content,
                        right.start,
                        right.end,
                        f,
                        s,
                    ));
                }
            }
        }
    }
}

impl TreeStatistics for BigramStatistics {
    open spec fn wf(&self) -> bool {
        BigramStatistics::wf(self)
    }

    open spec fn covered(&self) -> Set<u64> {
        BigramStatistics::covered(self)
    }

    open spec fn memory_per_node() -> nat {
        0x8_0000
    }

    /// The count of the bigram `key / 256`, `key % 256`.
    open spec fn count(&self, key: int) -> nat {
        if 0 <= key < 0x1_0000 {
            self.spec_follow((key / 256) as u8, (key % 256) as u8)
        } else {
            0
        }
    }

    fn empty() -> (r: BigramStatistics) {
        BigramStatistics::empty()
    }

    fn approximate_memory_usage(&self) -> (r: u64) {
        BigramStatistics::approximate_memory_usage(self)
    }

    fn add_assign(&mut self, rhs: &BigramStatistics) {
        BigramStatistics::add_assign(self, rhs)
    }
}

} // verus!
