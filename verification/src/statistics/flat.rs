//! Implements statistics that count the frequencies of different byte values.

use vstd::prelude::*;

use crate::data::{content_at, DataSource};
use crate::statistics::count::CountValue;
use crate::statistics::raw_bigrams::{first_byte_of, pair_count};
use crate::statistics::{capacity_of_rank, rank_for_size, Statistics, MEDIUM_MAX, SMALL_MAX};
use crate::window::{Window, WindowView};

verus! {

/// The number of positions in `start..end` of the content that hold `value`.
///
/// Positions past the content hold no byte.
pub open spec fn byte_count(content: Seq<u8>, start: int, end: int, value: u8) -> nat
    decreases end - start,
{
    if end <= start {
        0
    } else {
        byte_count(content, start, end - 1, value) + if 0 <= end - 1 < content.len() && content[end
            - 1] == value {
            1nat
        } else {
            0nat
        }
    }
}

/// A window never holds more bytes of one value than positions.
pub proof fn lemma_byte_count_bound(content: Seq<u8>, start: int, end: int, value: u8)
    ensures
        byte_count(content, start, end, value) <= if end <= start {
            0
        } else {
            end - start
        },
    decreases end - start,
{
    if end > start {
        lemma_byte_count_bound(content, start, end - 1, value);
    }
}

/// Byte counts of adjacent ranges add up to the byte count of the joined range.
pub proof fn lemma_byte_count_split(content: Seq<u8>, start: int, mid: int, end: int, value: u8)
    requires
        start <= mid <= end,
    ensures
        byte_count(content, start, end, value) == byte_count(content, start, mid, value)
            + byte_count(content, mid, end, value),
    decreases end - mid,
{
    if end > mid {
        lemma_byte_count_split(content, start, mid, end - 1, value);
    }
}

/// The number of positions in `start..end` at which `value` follows any of the bytes `0..n`.
pub open spec fn pair_column(content: Seq<u8>, start: int, end: int, value: u8, n: int) -> nat
    decreases n,
{
    if n <= 0 {
        0
    } else {
        pair_column(content, start, end, value, n - 1) + pair_count(
            content,
            start,
            end,
            (n - 1) as u8,
            value,
        )
    }
}

/// Extending the range by one position adds the pair at that position to the column.
proof fn lemma_pair_column_step(content: Seq<u8>, start: int, end: int, value: u8, n: int)
    requires
        start <= end,
        0 <= n <= 256,
    ensures
        pair_column(content, start, end + 1, value, n) == pair_column(content, start, end, value, n)
            + if 0 < end < content.len() && content[end] == value && (content[end - 1] as int) < n {
            1nat
        } else {
            0nat
        },
    decreases n,
{
    if n > 0 {
        lemma_pair_column_step(content, start, end, value, n - 1);
        assert(pair_count(content, start, end + 1, (n - 1) as u8, value) == pair_count(
            content,
            start,
            end,
            (n - 1) as u8,
            value,
        ) + if 0 < end < content.len() && content[end - 1] == (n - 1) as u8 && content[end]
            == value {
            1nat
        } else {
            0nat
        });
    }
}

/// An empty range holds no pairs.
proof fn lemma_pair_column_empty(content: Seq<u8>, start: int, value: u8, n: int)
    ensures
        pair_column(content, start, start, value, n) == 0,
    decreases n,
{
    if n > 0 {
        lemma_pair_column_empty(content, start, value, n - 1);
    }
}

/// Counting each byte by the byte before it counts every byte of the window but the very first
/// byte of the data, which has no byte before it.
proof fn lemma_pair_column_counts_bytes(content: Seq<u8>, start: int, end: int, value: u8)
    requires
        0 <= start <= end,
    ensures
        pair_column(content, start, end, value, 256) + (if start == 0 && end > 0 && content.len()
            > 0 && content[0] == value {
            1nat
        } else {
            0nat
        }) == byte_count(content, start, end, value),
    decreases end - start,
{
    if end > start {
        lemma_pair_column_counts_bytes(content, start, end - 1, value);
        lemma_pair_column_step(content, start, end - 1, value, 256);
    } else {
        lemma_pair_column_empty(content, start, value, 256);
    }
}

/// Contains the raw counts over a window of data.
pub struct RawFlatStatistics<C: CountValue> {
    /// `counts[value]` counts the bytes that hold `value`.
    counts: Vec<C>,
}

impl<C: CountValue> RawFlatStatistics<C> {
    /// The table holds a slot for every byte value.
    pub closed spec fn well_formed(&self) -> bool {
        self.counts@.len() == 256
    }

    /// How often `value` occurs.
    pub closed spec fn spec_count(&self, value: u8) -> nat {
        self.counts@[value as int].as_nat()
    }

    /// Creates new empty statistics.
    pub fn empty() -> (r: RawFlatStatistics<C>)
        ensures
            r.well_formed(),
            forall|v: u8| #[trigger] r.spec_count(v) == 0,
    {
        let mut counts: Vec<C> = Vec::new();
        let mut i: usize = 0;
        while i < 256
            invariant
                i <= 256,
                counts@.len() == i,
                forall|j: int| 0 <= j < i ==> #[trigger] counts@[j].as_nat() == 0,
            decreases 256 - i,
        {
            counts.push(C::zero());
            i = i + 1;
        }
        RawFlatStatistics { counts }
    }

    /// Every count lies in the range of the count type.
    pub proof fn lemma_count_bound(&self, value: u8)
        ensures
            self.spec_count(value) <= C::max_value(),
            C::max_value() <= u64::MAX,
    {
        self.counts@[value as int].lemma_bounds();
    }

    /// Returns how often `value` occurs.
    pub fn count(&self, value: u8) -> (r: C)
        requires
            self.well_formed(),
        ensures
            r.as_nat() == self.spec_count(value),
    {
        self.counts[value as usize]
    }

    /// Adds `count` occurrences of `value`.
    pub fn add_count(&mut self, value: u8, count: C)
        requires
            old(self).well_formed(),
            old(self).spec_count(value) + count.as_nat() <= C::max_value(),
        ensures
            final(self).well_formed(),
            final(self).spec_count(value) == old(self).spec_count(value) + count.as_nat(),
            forall|v: u8| v != value ==> #[trigger] final(self).spec_count(v) == old(self).spec_count(v),
    {
        let updated = self.counts[value as usize].add(count);
        self.counts.set(value as usize, updated);
    }

    /// Counts the bytes of the given window.
    ///
    /// Returns the window that was actually read: it ends early where the data ends.
    pub fn compute<S: DataSource>(&mut self, source: &mut S, window: Window) -> (r: Result<
        Window,
        S::Error,
    >)
        requires
            old(self).well_formed(),
            window@.wf(),
            forall|v: u8| #[trigger] old(self).spec_count(v) + window@.size() <= C::max_value(),
        ensures
            S::infallible() ==> r is Ok,
            final(self).well_formed(),
            final(source).content() == old(source).content(),
            r matches Ok(w) ==> {
                let content = old(source).content();
                &&& w@.start == window@.start
                &&& w@.end == window@.start + content_at(
                    content,
                    window@.start,
                    window@.size(),
                ).len()
                &&& forall|v: u8| #[trigger]
                    final(self).spec_count(v) == old(self).spec_count(v) + byte_count(
                        content,
                        w@.start,
                        w@.end,
                        v,
                    )
            },
    {
        let ghost content = source.content();
        let ghost old_self = *self;
        let ws = window.start();
        let we = window.end();
        let mut start: u64 = ws;
        let mut done = false;
        while start < we && !done
            invariant
                source.content() == content,
                content == old(source).content(),
                old_self == *old(self),
                self.well_formed(),
                window@.wf(),
                ws == window@.start,
                we == window@.end,
                ws <= start <= we,
                start == ws || start <= content.len(),
                done ==> start >= content.len(),
                forall|v: u8| #[trigger] old_self.spec_count(v) + window@.size() <= C::max_value(),
                forall|v: u8| #[trigger]
                    self.spec_count(v) == old_self.spec_count(v) + byte_count(
                        content,
                        ws as int,
                        start as int,
                        v,
                    ),
            decreases we - start, if done {
                0int
            } else {
                1int
            },
        {
            let remaining = we - start;
            let max_size: u64 = if remaining < 4096 {
                remaining
            } else {
                4096
            };
            let chunk = source.window_at(start, max_size as usize)?;
            let ghost chunk_start = start;
            let n = chunk.len();
            let mut j: usize = 0;
            while j < n
                invariant
                    source.content() == content,
                    self.well_formed(),
                    window@.wf(),
                    ws == window@.start,
                    we == window@.end,
                    ws <= chunk_start < we,
                    n == chunk@.len(),
                    chunk@ == content_at(content, chunk_start as int, max_size as int),
                    max_size <= we - chunk_start,
                    j <= n,
                    forall|v: u8| #[trigger]
                        old_self.spec_count(v) + window@.size() <= C::max_value(),
                    forall|v: u8| #[trigger]
                        self.spec_count(v) == old_self.spec_count(v) + byte_count(
                            content,
                            ws as int,
                            chunk_start + j,
                            v,
                        ),
                decreases n - j,
            {
                let byte = chunk[j];
                let ghost i = chunk_start + j;
                proof {
                    assert(byte == content[i]);
                    lemma_byte_count_bound(content, ws as int, i, byte);
                    assert(self.spec_count(byte) + 1 <= C::max_value());
                }
                let one = C::from_u64(1);
                self.add_count(byte, one);
                j = j + 1;
            }
            start = start + n as u64;
            if n == 0 {
                done = true;
            }
        }
        Ok(Window::from_start_len(ws, start - ws))
    }
}

/// Computed flat statistics about a window of data, in a storage that fits the window.
pub enum FlatStatisticsKind {
    /// Statistics over a small window of data (<64KiB).
    Small(RawFlatStatistics<u16>),
    /// Statistics over a medium window of data (64KiB to 4GiB).
    Medium(RawFlatStatistics<u32>),
    /// Statistics over a large window of data (>4GiB).
    Large(RawFlatStatistics<u64>),
}

impl FlatStatisticsKind {
    /// How often `value` occurs.
    pub open spec fn spec_count(&self, value: u8) -> nat {
        match self {
            FlatStatisticsKind::Small(raw) => raw.spec_count(value),
            FlatStatisticsKind::Medium(raw) => raw.spec_count(value),
            FlatStatisticsKind::Large(raw) => raw.spec_count(value),
        }
    }

    /// The storage rank: `0` for small, `1` for medium and `2` for large.
    pub open spec fn rank(&self) -> nat {
        match self {
            FlatStatisticsKind::Small(_) => 0,
            FlatStatisticsKind::Medium(_) => 1,
            FlatStatisticsKind::Large(_) => 2,
        }
    }

    /// The internal representation is consistent.
    pub open spec fn well_formed(&self) -> bool {
        match self {
            FlatStatisticsKind::Small(raw) => raw.well_formed(),
            FlatStatisticsKind::Medium(raw) => raw.well_formed(),
            FlatStatisticsKind::Large(raw) => raw.well_formed(),
        }
    }

    /// Allocates an appropriate statistics kind for the given window size.
    pub fn with_capacity(capacity: u64) -> (r: FlatStatisticsKind)
        ensures
            r.well_formed(),
            r.rank() == rank_for_size(capacity as int),
            forall|v: u8| #[trigger] r.spec_count(v) == 0,
    {
        if capacity > MEDIUM_MAX {
            FlatStatisticsKind::Large(RawFlatStatistics::empty())
        } else if capacity > SMALL_MAX {
            FlatStatisticsKind::Medium(RawFlatStatistics::empty())
        } else {
            FlatStatisticsKind::Small(RawFlatStatistics::empty())
        }
    }

    /// Every count lies within the capacity of the storage.
    pub proof fn lemma_count_bound(&self, value: u8)
        requires
            self.well_formed(),
        ensures
            self.spec_count(value) <= capacity_of_rank(self.rank()),
    {
        match self {
            FlatStatisticsKind::Small(raw) => raw.lemma_count_bound(value),
            FlatStatisticsKind::Medium(raw) => raw.lemma_count_bound(value),
            FlatStatisticsKind::Large(raw) => raw.lemma_count_bound(value),
        }
    }

    /// Returns how often `value` occurs.
    pub fn count_u64(&self, value: u8) -> (r: u64)
        requires
            self.well_formed(),
        ensures
            r == self.spec_count(value),
    {
        match self {
            FlatStatisticsKind::Small(raw) => raw.count(value).to_u64(),
            FlatStatisticsKind::Medium(raw) => raw.count(value).to_u64(),
            FlatStatisticsKind::Large(raw) => raw.count(value).to_u64(),
        }
    }

    /// Adds `count` occurrences of `value`.
    pub fn add_count(&mut self, value: u8, count: u64)
        requires
            old(self).well_formed(),
            old(self).spec_count(value) + count <= capacity_of_rank(old(self).rank()),
        ensures
            final(self).well_formed(),
            final(self).rank() == old(self).rank(),
            final(self).spec_count(value) == old(self).spec_count(value) + count,
            forall|v: u8| v != value ==> #[trigger] final(self).spec_count(v) == old(self).spec_count(v),
    {
        match self {
            FlatStatisticsKind::Small(raw) => {
                let c = <u16 as CountValue>::from_u64(count);
                raw.add_count(value, c);
            },
            FlatStatisticsKind::Medium(raw) => {
                let c = <u32 as CountValue>::from_u64(count);
                raw.add_count(value, c);
            },
            FlatStatisticsKind::Large(raw) => {
                raw.add_count(value, count);
            },
        }
    }

    /// Returns all counts as `u64`s, indexed by byte value.
    pub fn iter_counts_u64(&self) -> (r: Vec<u64>)
        requires
            self.well_formed(),
        ensures
            r@.len() == 256,
            forall|v: u8| #[trigger] r@[v as int] == self.spec_count(v),
    {
        let mut out: Vec<u64> = Vec::new();
        let mut i: u16 = 0;
        while i < 256
            invariant
                self.well_formed(),
                i <= 256,
                out@.len() == i,
                forall|j: int| 0 <= j < i ==> #[trigger] out@[j] == self.spec_count(j as u8),
            decreases 256 - i,
        {
            out.push(self.count_u64(i as u8));
            i = i + 1;
        }
        proof {
            assert forall|v: u8| #[trigger] out@[v as int] == self.spec_count(v) by {
                assert(out@[v as int] == self.spec_count((v as int) as u8));
            }
        }
        out
    }
}

} // verus!

verus! {

/// How often `value` follows one of the bytes `0..n` according to the bigram statistics.
pub open spec fn column_upto(stats: Statistics, value: u8, n: int) -> nat
    decreases n,
{
    if n <= 0 {
        0
    } else {
        column_upto(stats, value, n - 1) + stats.spec_follow((n - 1) as u8, value)
    }
}

/// How often `value` occurs according to the bigram statistics: each time it follows a byte,
/// plus once more if it is the first byte of the data.
pub open spec fn flat_count_of(stats: Statistics, value: u8) -> nat {
    column_upto(stats, value, 256) + if stats.spec_first_byte() == Some(value) {
        1nat
    } else {
        0nat
    }
}

/// Column sums only grow with more rows.
proof fn lemma_column_monotone(stats: Statistics, value: u8, i: int, j: int)
    requires
        0 <= i <= j,
    ensures
        column_upto(stats, value, i) <= column_upto(stats, value, j),
    decreases j - i,
{
    if i < j {
        lemma_column_monotone(stats, value, i, j - 1);
    }
}

/// For statistics that describe the data, a column sums the pairs that end in `value`.
proof fn lemma_column_is_pair_column(stats: Statistics, content: Seq<u8>, value: u8, n: int)
    requires
        stats.describes(content),
        0 <= n <= 256,
    ensures
        column_upto(stats, value, n) == pair_column(
            content,
            stats.spec_window().start,
            stats.spec_window().end,
            value,
            n,
        ),
    decreases n,
{
    if n > 0 {
        lemma_column_is_pair_column(stats, content, value, n - 1);
        assert(stats.spec_follow((n - 1) as u8, value) == pair_count(
            content,
            stats.spec_window().start,
            stats.spec_window().end,
            (n - 1) as u8,
            value,
        ));
    }
}

/// Every window size fits the storage chosen for it.
pub proof fn lemma_size_fits_rank(size: int)
    requires
        0 <= size <= u64::MAX,
    ensures
        size <= capacity_of_rank(rank_for_size(size)),
{
}

/// Bigram statistics that describe the data always convert to flat statistics: every byte count
/// fits the storage chosen for the window.
pub proof fn lemma_from_bigrams_fits(stats: Statistics, content: Seq<u8>)
    requires
        stats.wf(),
        stats.describes(content),
    ensures
        forall|v: u8| #[trigger]
            flat_count_of(stats, v) <= capacity_of_rank(rank_for_size(stats.spec_window().size())),
{
    stats.lemma_wf();
    let start = stats.spec_window().start;
    let end = stats.spec_window().end;
    assert forall|v: u8| #[trigger]
        flat_count_of(stats, v) <= capacity_of_rank(rank_for_size(stats.spec_window().size())) by {
        lemma_column_is_pair_column(stats, content, v, 256);
        lemma_pair_column_counts_bytes(content, start, end, v);
        lemma_byte_count_bound(content, start, end, v);
        lemma_size_fits_rank(end - start);
        if start == 0 && end == 0 {
            lemma_pair_column_empty(content, start, v, 256);
        }
    }
}

/// Computed flat statistics about a window of data.
pub struct FlatStatistics {
    /// The actual statistics.
    statistics: FlatStatisticsKind,
    /// The window over which the statistics were calculated.
    window: Window,
}

impl FlatStatistics {
    /// How often `value` occurs in the window.
    pub closed spec fn spec_count(&self, value: u8) -> nat {
        self.statistics.spec_count(value)
    }

    /// The window over which the statistics were calculated.
    pub closed spec fn spec_window(&self) -> WindowView {
        self.window@
    }

    /// The storage rank: `0` for small, `1` for medium and `2` for large.
    pub closed spec fn rank(&self) -> nat {
        self.statistics.rank()
    }

    /// The largest count that the storage of the statistics holds.
    pub open spec fn capacity(&self) -> nat {
        capacity_of_rank(self.rank())
    }

    /// The statistics are consistent: the storage is well formed and the window is valid.
    pub closed spec fn wf(&self) -> bool {
        &&& self.statistics.well_formed()
        &&& self.window@.wf()
    }

    /// The statistics describe the given data exactly: every count is the number of times the
    /// byte value occurs in the window.
    pub open spec fn describes(&self, content: Seq<u8>) -> bool {
        forall|v: u8| #[trigger]
            self.spec_count(v) == byte_count(
                content,
                self.spec_window().start,
                self.spec_window().end,
                v,
            )
    }

    /// Every count of well-formed statistics lies within the capacity of the storage.
    pub proof fn lemma_wf(&self)
        requires
            self.wf(),
        ensures
            self.spec_window().wf(),
            forall|v: u8| #[trigger] self.spec_count(v) <= self.capacity(),
    {
        assert forall|v: u8| #[trigger] self.spec_count(v) <= self.capacity() by {
            self.statistics.lemma_count_bound(v);
        }
    }

    /// Creates new empty statistics starting at the beginning of the given window.
    ///
    /// The capacity of the window is chosen such that it will fit the whole given window.
    pub fn empty_for_window(window: Window) -> (r: FlatStatistics)
        ensures
            r.wf(),
            r.spec_window() == (WindowView { start: window@.start, end: window@.start }),
            r.rank() == rank_for_size(window@.size()),
            forall|v: u8| #[trigger] r.spec_count(v) == 0,
    {
        FlatStatistics {
            statistics: FlatStatisticsKind::with_capacity(window.size()),
            window: Window::empty_from_start(window.start()),
        }
    }

    /// Computes statistics about a given window of data.
    ///
    /// The window of the result ends early where the data ends.
    pub fn compute<S: DataSource>(source: &mut S, window: Window) -> (r: Result<
        FlatStatistics,
        S::Error,
    >)
        requires
            window@.wf(),
        ensures
            S::infallible() ==> r is Ok,
            final(source).content() == old(source).content(),
            r matches Ok(stats) ==> {
                &&& stats.wf()
                &&& stats.describes(old(source).content())
                &&& stats.rank() == rank_for_size(window@.size())
                &&& stats.spec_window() == (WindowView {
                    start: window@.start,
                    end: window@.start + content_at(
                        old(source).content(),
                        window@.start,
                        window@.size(),
                    ).len(),
                })
            },
    {
        let ghost content = source.content();
        let capacity = window.size();
        proof {
            lemma_size_fits_rank(window@.size());
        }
        let (statistics, read_window) = if capacity > MEDIUM_MAX {
            let mut raw = RawFlatStatistics::<u64>::empty();
            let w = raw.compute(source, window)?;
            (FlatStatisticsKind::Large(raw), w)
        } else if capacity > SMALL_MAX {
            let mut raw = RawFlatStatistics::<u32>::empty();
            let w = raw.compute(source, window)?;
            (FlatStatisticsKind::Medium(raw), w)
        } else {
            let mut raw = RawFlatStatistics::<u16>::empty();
            let w = raw.compute(source, window)?;
            (FlatStatisticsKind::Small(raw), w)
        };
        Ok(FlatStatistics { statistics, window: read_window })
    }

    /// Adds an empty window to the statistics.
    ///
    /// This makes the statistics not fully representative of the input.
    pub fn add_empty_window(&mut self, window: Window)
        requires
            old(self).wf(),
            old(self).spec_window().end == window@.start,
        ensures
            final(self).wf(),
            final(self).spec_window() == (WindowView {
                start: old(self).spec_window().start,
                end: window@.end,
            }),
            final(self).rank() == old(self).rank(),
            forall|v: u8| #[trigger] final(self).spec_count(v) == old(self).spec_count(v),
    {
        match self.window.joined(window) {
            Some(joined) => {
                self.window = joined;
            },
            None => {
                // unreachable: the windows are adjacent
            },
        }
    }

    /// Adds the statistics of the adjacent window `rhs` to these statistics.
    ///
    /// The storage of these statistics must fit the counts of both.
    pub fn add_assign(&mut self, rhs: &FlatStatistics)
        requires
            old(self).wf(),
            rhs.wf(),
            old(self).spec_window().end == rhs.spec_window().start,
            old(self).rank() >= rhs.rank(),
            forall|v: u8| #[trigger]
                old(self).spec_count(v) + rhs.spec_count(v) <= old(self).capacity(),
        ensures
            final(self).wf(),
            final(self).rank() == old(self).rank(),
            final(self).spec_window() == (WindowView {
                start: old(self).spec_window().start,
                end: rhs.spec_window().end,
            }),
            forall|v: u8| #[trigger]
                final(self).spec_count(v) == old(self).spec_count(v) + rhs.spec_count(v),
            forall|content: Seq<u8>|
                old(self).describes(content) && rhs.describes(content)
                    ==> #[trigger] final(self).describes(content),
    {
        let ghost old_self = *self;
        let joined = match self.window.joined(rhs.window) {
            Some(w) => w,
            None => {
                return;  // unreachable: the windows are adjacent

            },
        };
        let mut value: u16 = 0;
        while value < 256
            invariant
                value <= 256,
                self.statistics.well_formed(),
                rhs.statistics.well_formed(),
                self.statistics.rank() == old_self.statistics.rank(),
                self.window == old_self.window,
                forall|v: u8| #[trigger]
                    old_self.spec_count(v) + rhs.spec_count(v) <= old_self.capacity(),
                forall|v: u8| #[trigger]
                    self.statistics.spec_count(v) == old_self.statistics.spec_count(v) + if (v as int)
                        < value {
                        rhs.statistics.spec_count(v)
                    } else {
                        0
                    },
            decreases 256 - value,
        {
            let v = value as u8;
            proof {
                assert(old_self.spec_count(v) + rhs.spec_count(v) <= old_self.capacity());
            }
            let count = rhs.statistics.count_u64(v);
            self.statistics.add_count(v, count);
            value = value + 1;
        }
        self.window = joined;
        proof {
            assert forall|content: Seq<u8>|
                old_self.describes(content) && rhs.describes(content) implies #[trigger]
                self.describes(content) by {
                assert forall|v: u8| #[trigger]
                    self.spec_count(v) == byte_count(
                        content,
                        old_self.spec_window().start,
                        rhs.spec_window().end,
                        v,
                    ) by {
                    lemma_byte_count_split(
                        content,
                        old_self.spec_window().start,
                        rhs.spec_window().start,
                        rhs.spec_window().end,
                        v,
                    );
                    assert(old_self.spec_count(v) == byte_count(
                        content,
                        old_self.spec_window().start,
                        rhs.spec_window().start,
                        v,
                    ));
                    assert(rhs.spec_count(v) == byte_count(
                        content,
                        rhs.spec_window().start,
                        rhs.spec_window().end,
                        v,
                    ));
                }
            }
        }
    }

    /// Converts the given bigram statistics to flat statistics.
    ///
    /// Each byte is counted by the byte before it, and the first byte of the data once more.
    pub fn from_bigrams(bigrams: &Statistics) -> (r: FlatStatistics)
        requires
            bigrams.wf(),
            forall|v: u8| #[trigger]
                flat_count_of(*bigrams, v) <= capacity_of_rank(
                    rank_for_size(bigrams.spec_window().size()),
                ),
        ensures
            r.wf(),
            r.spec_window() == bigrams.spec_window(),
            r.rank() == rank_for_size(bigrams.spec_window().size()),
            forall|v: u8| #[trigger] r.spec_count(v) == flat_count_of(*bigrams, v),
            forall|content: Seq<u8>|
                bigrams.describes(content) && !(bigrams.spec_window().start == 0
                    && bigrams.spec_window().end == 0) ==> #[trigger] r.describes(content),
    {
        proof {
            bigrams.lemma_wf();
        }
        let window = bigrams.window();
        let mut flat = FlatStatistics {
            statistics: FlatStatisticsKind::with_capacity(window.size()),
            window,
        };
        let ghost cap = capacity_of_rank(rank_for_size(bigrams.spec_window().size()));
        let mut value: u16 = 0;
        while value < 256
            invariant
                value <= 256,
                bigrams.wf(),
                flat.statistics.well_formed(),
                flat.statistics.rank() == rank_for_size(bigrams.spec_window().size()),
                cap == capacity_of_rank(rank_for_size(bigrams.spec_window().size())),
                cap <= u64::MAX,
                flat.window@ == bigrams.spec_window(),
                forall|v: u8| #[trigger] flat_count_of(*bigrams, v) <= cap,
                forall|v: u8| #[trigger]
                    flat.statistics.spec_count(v) == if (v as int) < value {
                        column_upto(*bigrams, v, 256)
                    } else {
                        0
                    },
            decreases 256 - value,
        {
            let b = value as u8;
            let mut count: u64 = 0;
            let mut prev: u16 = 0;
            assert(flat_count_of(*bigrams, b) <= cap);
            while prev < 256
                invariant
                    prev <= 256,
                    bigrams.wf(),
                    count == column_upto(*bigrams, b, prev as int),
                    column_upto(*bigrams, b, 256) <= cap,
                    cap <= u64::MAX,
                decreases 256 - prev,
            {
                proof {
                    lemma_column_monotone(*bigrams, b, prev + 1, 256);
                }
                let c = bigrams.follow(prev as u8, b);
                count = count + c;
                prev = prev + 1;
            }
            proof {
                assert(flat.statistics.spec_count(b) == 0);
            }
            flat.statistics.add_count(b, count);
            value = value + 1;
        }
        match bigrams.first_byte() {
            Some(b) => {
                proof {
                    assert(flat_count_of(*bigrams, b) <= cap);
                }
                flat.statistics.add_count(b, 1);
            },
            None => {},
        }
        proof {
            assert forall|content: Seq<u8>|
                bigrams.describes(content) && !(bigrams.spec_window().start == 0
                    && bigrams.spec_window().end == 0) implies #[trigger] flat.describes(content) by {
                let start = bigrams.spec_window().start;
                let end = bigrams.spec_window().end;
                assert forall|v: u8| #[trigger]
                    flat.spec_count(v) == byte_count(content, start, end, v) by {
                    lemma_column_is_pair_column(*bigrams, content, v, 256);
                    lemma_pair_column_counts_bytes(content, start, end, v);
                }
            }
        }
        flat
    }

    /// Returns all counts, indexed by byte value.
    pub fn counts(&self) -> (r: Vec<u64>)
        requires
            self.wf(),
        ensures
            r@.len() == 256,
            forall|v: u8| #[trigger] r@[v as int] == self.spec_count(v),
    {
        self.statistics.iter_counts_u64()
    }

    /// The window over which the statistics were calculated.
    pub fn window(&self) -> (r: Window)
        ensures
            r@ == self.spec_window(),
    {
        self.window
    }
}

} // verus!
