//! Implements bigram statistics computed on high nibbles instead of full bytes.

use vstd::prelude::*;
use vstd::set_lib::lemma_set_disjoint_lens;

use crate::data::{content_at, DataSource};
use crate::statistics::bigrams::{
    below_max, hex_pair_count, lemma_below_max_len, lemma_window_offsets_len, BigramStatistics,
};
use crate::statistics::raw_bigrams::pair_count;
use crate::statistics::regions::{window_offsets, Regions};
use crate::statistics::statistics_tree::TreeStatistics;
use crate::window::{Window, WindowView};

verus! {

/// The byte before the position `i` of the content; the very first byte of the data follows a
/// `0` byte.
pub open spec fn prev_byte(content: Seq<u8>, i: int) -> u8 {
    if i <= 0 {
        0
    } else {
        content[i - 1]
    }
}

/// The number of positions `i` in `start..end` of the content whose byte has `second` for its
/// high nibble and follows a byte with the high nibble `first`.
pub open spec fn nibble_pair_count(content: Seq<u8>, start: int, end: int, first: int, second: int) -> nat
    decreases end - start,
{
    if end <= start {
        0
    } else {
        nibble_pair_count(content, start, end - 1, first, second) + if 0 <= end - 1 < content.len()
            && prev_byte(content, end - 1) / 16 == first && content[end - 1] / 16 == second {
            1nat
        } else {
            0nat
        }
    }
}

/// The number of positions `i` in `start..end` of the content whose byte is `second` and follows
/// the byte `first`.
pub open spec fn position_pair_count(content: Seq<u8>, start: int, end: int, first: u8, second: u8) -> nat
    decreases end - start,
{
    if end <= start {
        0
    } else {
        position_pair_count(content, start, end - 1, first, second) + if 0 <= end - 1
            < content.len() && prev_byte(content, end - 1) == first && content[end - 1] == second {
            1nat
        } else {
            0nat
        }
    }
}

/// The sum of `counts(x, second)` over the `n` first bytes `x` whose high nibble is `first_hi`.
pub open spec fn row_sum(counts: spec_fn(u8, u8) -> nat, first_hi: int, second: u8, n: int) -> nat
    decreases n,
{
    if n <= 0 {
        0
    } else {
        row_sum(counts, first_hi, second, n - 1) + counts((16 * first_hi + n - 1) as u8, second)
    }
}

/// The sum of `counts(x, y)` over the bytes `x` whose high nibble is `first_hi` and the `m` first
/// bytes `y` whose high nibble is `second_hi`.
pub open spec fn block_sum(counts: spec_fn(u8, u8) -> nat, first_hi: int, second_hi: int, m: int) -> nat
    decreases m,
{
    if m <= 0 {
        0
    } else {
        block_sum(counts, first_hi, second_hi, m - 1) + row_sum(
            counts,
            first_hi,
            (16 * second_hi + m - 1) as u8,
            16,
        )
    }
}

/// Counting a window at most once per position.
pub proof fn lemma_nibble_pair_count_bound(content: Seq<u8>, start: int, end: int, first: int, second: int)
    ensures
        nibble_pair_count(content, start, end, first, second) <= if end <= start {
            0
        } else {
            end - start
        },
    decreases end - start,
{
    if end > start {
        lemma_nibble_pair_count_bound(content, start, end - 1, first, second);
    }
}

/// Nibble pair counts of adjacent ranges add up to the count of the joined range.
pub proof fn lemma_nibble_pair_count_split(
    content: Seq<u8>,
    start: int,
    mid: int,
    end: int,
    first: int,
    second: int,
)
    requires
        start <= mid <= end,
    ensures
        nibble_pair_count(content, start, end, first, second) == nibble_pair_count(
            content,
            start,
            mid,
            first,
            second,
        ) + nibble_pair_count(content, mid, end, first, second),
    decreases end - mid,
{
    if end > mid {
        lemma_nibble_pair_count_split(content, start, mid, end - 1, first, second);
    }
}

/// The pairs of a window counted with the byte before the window's first byte, or `0` at the
/// very start of the data, are the pairs of every position.
pub proof fn lemma_hex_pair_count_positions(content: Seq<u8>, start: int, end: int, first: u8, second: u8)
    requires
        0 <= start,
    ensures
        hex_pair_count(content, start, end, first, second) == position_pair_count(
            content,
            start,
            end,
            first,
            second,
        ),
    decreases end - start,
{
    if end > start {
        lemma_hex_pair_count_positions(content, start, end - 1, first, second);
    }
}

/// Adding one to a single count adds one to the row holding it.
proof fn lemma_row_sum_step(
    before: spec_fn(u8, u8) -> nat,
    after: spec_fn(u8, u8) -> nat,
    first_hi: int,
    second: u8,
    n: int,
    x: u8,
    y: u8,
)
    requires
        0 <= first_hi < 16,
        0 <= n <= 16,
        forall|a: u8, b: u8| #[trigger] after(a, b) == before(a, b) + if a == x && b == y {
            1nat
        } else {
            0nat
        },
    ensures
        row_sum(after, first_hi, second, n) == row_sum(before, first_hi, second, n) + if second == y
            && 16 * first_hi <= x < 16 * first_hi + n {
            1nat
        } else {
            0nat
        },
    decreases n,
{
    if n > 0 {
        lemma_row_sum_step(before, after, first_hi, second, n - 1, x, y);
        assert(after((16 * first_hi + n - 1) as u8, second) == before(
            (16 * first_hi + n - 1) as u8,
            second,
        ) + if (16 * first_hi + n - 1) as u8 == x && second == y {
            1nat
        } else {
            0nat
        });
    }
}

/// Adding one to a single count adds one to the block holding it.
proof fn lemma_block_sum_step(
    before: spec_fn(u8, u8) -> nat,
    after: spec_fn(u8, u8) -> nat,
    first_hi: int,
    second_hi: int,
    m: int,
    x: u8,
    y: u8,
)
    requires
        0 <= first_hi < 16,
        0 <= second_hi < 16,
        0 <= m <= 16,
        forall|a: u8, b: u8| #[trigger] after(a, b) == before(a, b) + if a == x && b == y {
            1nat
        } else {
            0nat
        },
    ensures
        block_sum(after, first_hi, second_hi, m) == block_sum(before, first_hi, second_hi, m) + if 16
            * first_hi <= x < 16 * first_hi + 16 && 16 * second_hi <= y < 16 * second_hi + m {
            1nat
        } else {
            0nat
        },
    decreases m,
{
    if m > 0 {
        lemma_block_sum_step(before, after, first_hi, second_hi, m - 1, x, y);
        lemma_row_sum_step(before, after, first_hi, (16 * second_hi + m - 1) as u8, 16, x, y);
    }
}

/// Summing the pair counts of the bytes over the blocks of their high nibbles gives the pair
/// counts of the high nibbles.
pub proof fn lemma_block_sum_positions(content: Seq<u8>, start: int, end: int, first_hi: int, second_hi: int)
    requires
        0 <= first_hi < 16,
        0 <= second_hi < 16,
    ensures
        block_sum(
            |a: u8, b: u8| position_pair_count(content, start, end, a, b),
            first_hi,
            second_hi,
            16,
        ) == nibble_pair_count(content, start, end, first_hi, second_hi),
    decreases end - start,
{
    let counts = |a: u8, b: u8| position_pair_count(content, start, end, a, b);
    if end <= start {
        lemma_block_sum_zero(counts, first_hi, second_hi, 16);
    } else {
        let shorter = |a: u8, b: u8| position_pair_count(content, start, end - 1, a, b);
        lemma_block_sum_positions(content, start, end - 1, first_hi, second_hi);
        let i = end - 1;
        if 0 <= i < content.len() {
            let x = prev_byte(content, i);
            let y = content[i];
            lemma_block_sum_step(shorter, counts, first_hi, second_hi, 16, x, y);
        } else {
            assert(counts =~= shorter);
        }
    }
}

/// The count of the pair of high nibbles `(first_hi, second_hi)` that downsampling the statistics
/// gives: the sum of the counts of the pairs of bytes with these high nibbles.
pub open spec fn downsampled_count(stats: BigramStatistics, first_hi: int, second_hi: int) -> nat {
    block_sum(follow_counts(stats), first_hi, second_hi, 16)
}

/// The counts of the statistics as a function of the pair of bytes.
pub open spec fn follow_counts(stats: BigramStatistics) -> spec_fn(u8, u8) -> nat {
    |x: u8, y: u8| stats.spec_follow(x, y)
}

/// A row grows with the number of counts it sums.
proof fn lemma_row_sum_mono(counts: spec_fn(u8, u8) -> nat, first_hi: int, second: u8, n: int, m: int)
    requires
        0 <= n <= m,
    ensures
        row_sum(counts, first_hi, second, n) <= row_sum(counts, first_hi, second, m),
    decreases m - n,
{
    if n < m {
        lemma_row_sum_mono(counts, first_hi, second, n, m - 1);
    }
}

/// A block grows with the number of rows it sums.
proof fn lemma_block_sum_mono(counts: spec_fn(u8, u8) -> nat, first_hi: int, second_hi: int, n: int, m: int)
    requires
        0 <= n <= m,
    ensures
        block_sum(counts, first_hi, second_hi, n) <= block_sum(counts, first_hi, second_hi, m),
    decreases m - n,
{
    if n < m {
        lemma_block_sum_mono(counts, first_hi, second_hi, n, m - 1);
    }
}

/// Statistics that describe a window of the data sum, over the blocks of high nibbles, to the
/// nibble pair counts of that window, which never exceed its size.
pub proof fn lemma_block_sum_describes(stats: &BigramStatistics, content: Seq<u8>, window: WindowView)
    requires
        window.wf(),
        stats.describes(content, window),
    ensures
        forall|f: int, s: int|
            0 <= f < 16 && 0 <= s < 16 ==> #[trigger] downsampled_count(*stats, f, s)
                == nibble_pair_count(content, window.start, window.end, f, s),
        forall|f: int, s: int|
            0 <= f < 16 && 0 <= s < 16 ==> #[trigger] nibble_pair_count(
                content,
                window.start,
                window.end,
                f,
                s,
            ) <= stats.covered().len(),
{
    let g = follow_counts(*stats);
    let h = |x: u8, y: u8| position_pair_count(content, window.start, window.end, x, y);
    assert(g =~= h) by {
        assert forall|x: u8, y: u8| #[trigger] g(x, y) == h(x, y) by {
            lemma_hex_pair_count_positions(content, window.start, window.end, x, y);
        }
    }
    lemma_window_offsets_len(window);
    assert forall|f: int, s: int| 0 <= f < 16 && 0 <= s < 16 implies #[trigger] downsampled_count(
        *stats,
        f,
        s,
    ) == nibble_pair_count(content, window.start, window.end, f, s) by {
        lemma_block_sum_positions(content, window.start, window.end, f, s);
    }
    assert forall|f: int, s: int| 0 <= f < 16 && 0 <= s < 16 implies #[trigger] nibble_pair_count(
        content,
        window.start,
        window.end,
        f,
        s,
    ) <= stats.covered().len() by {
        lemma_nibble_pair_count_bound(content, window.start, window.end, f, s);
    }
}

/// Sums of pointwise added counts add up.
proof fn lemma_row_sum_add(
    left: spec_fn(u8, u8) -> nat,
    right: spec_fn(u8, u8) -> nat,
    sum: spec_fn(u8, u8) -> nat,
    first_hi: int,
    second: u8,
    n: int,
)
    requires
        forall|a: u8, b: u8| #[trigger] sum(a, b) == left(a, b) + right(a, b),
    ensures
        row_sum(sum, first_hi, second, n) == row_sum(left, first_hi, second, n) + row_sum(
            right,
            first_hi,
            second,
            n,
        ),
    decreases n,
{
    if n > 0 {
        lemma_row_sum_add(left, right, sum, first_hi, second, n - 1);
        assert(sum((16 * first_hi + n - 1) as u8, second) == left((16 * first_hi + n - 1) as u8, second)
            + right((16 * first_hi + n - 1) as u8, second));
    }
}

/// Sums of pointwise added counts add up.
pub proof fn lemma_block_sum_add(
    left: spec_fn(u8, u8) -> nat,
    right: spec_fn(u8, u8) -> nat,
    sum: spec_fn(u8, u8) -> nat,
    first_hi: int,
    second_hi: int,
    m: int,
)
    requires
        forall|a: u8, b: u8| #[trigger] sum(a, b) == left(a, b) + right(a, b),
    ensures
        block_sum(sum, first_hi, second_hi, m) == block_sum(left, first_hi, second_hi, m) + block_sum(
            right,
            first_hi,
            second_hi,
            m,
        ),
    decreases m,
{
    if m > 0 {
        lemma_block_sum_add(left, right, sum, first_hi, second_hi, m - 1);
        lemma_row_sum_add(left, right, sum, first_hi, (16 * second_hi + m - 1) as u8, 16);
    }
}

/// Sums of counts that are all `0` are `0`.
pub proof fn lemma_block_sum_zero(counts: spec_fn(u8, u8) -> nat, first_hi: int, second_hi: int, m: int)
    requires
        forall|a: u8, b: u8| #[trigger] counts(a, b) == 0,
    ensures
        block_sum(counts, first_hi, second_hi, m) == 0,
    decreases m,
{
    if m > 0 {
        lemma_block_sum_zero(counts, first_hi, second_hi, m - 1);
        lemma_row_sum_zero(counts, first_hi, (16 * second_hi + m - 1) as u8, 16);
    }
}

/// Sums of counts that are all `0` are `0`.
proof fn lemma_row_sum_zero(counts: spec_fn(u8, u8) -> nat, first_hi: int, second: u8, n: int)
    requires
        forall|a: u8, b: u8| #[trigger] counts(a, b) == 0,
    ensures
        row_sum(counts, first_hi, second, n) == 0,
    decreases n,
{
    if n > 0 {
        lemma_row_sum_zero(counts, first_hi, second, n - 1);
    }
}

/// The size of the chunks in which the data is read.
const CHUNK_SIZE: u64 = 4096;

/// Computed bigram statistics about regions of data, downsampled to high nibbles instead of full
/// bytes.
pub struct DownsampledBigramStatistics {
    /// `follow[16 * s + f]` counts how many bytes of high nibble `s` follow a byte of high nibble
    /// `f` in the regions.
    follow: Vec<u64>,
    /// The regions in the input that the statistics cover.
    contained_regions: Regions,
}

impl DownsampledBigramStatistics {
    /// How often a byte of high nibble `second` follows a byte of high nibble `first` in the
    /// covered regions.
    pub closed spec fn spec_follow(&self, first: int, second: int) -> nat {
        self.follow@[16 * second + first] as nat
    }

    /// The offsets that the statistics cover.
    pub closed spec fn covered(&self) -> Set<u64> {
        self.contained_regions.offsets()
    }

    /// The statistics are consistent: no count exceeds the number of covered bytes, which lie
    /// below the largest `u64`.
    pub closed spec fn wf(&self) -> bool {
        &&& self.follow@.len() == 256
        &&& below_max(self.covered())
        &&& forall|f: int, s: int|
            0 <= f < 16 && 0 <= s < 16 ==> #[trigger] self.spec_follow(f, s) <= self.covered().len()
    }

    /// The statistics describe exactly the given window of the data.
    pub open spec fn describes(&self, content: Seq<u8>, window: WindowView) -> bool {
        &&& self.covered() == window_offsets(window)
        &&& forall|f: int, s: int|
            0 <= f < 16 && 0 <= s < 16 ==> #[trigger] self.spec_follow(f, s) == nibble_pair_count(
                content,
                window.start,
                window.end,
                f,
                s,
            )
    }

    /// Creates empty statistics.
    pub fn empty() -> (r: DownsampledBigramStatistics)
        ensures
            r.wf(),
            r.covered() == Set::<u64>::empty(),
            forall|f: int, s: int| 0 <= f < 16 && 0 <= s < 16 ==> #[trigger] r.spec_follow(f, s) == 0,
    {
        let mut follow: Vec<u64> = Vec::new();
        let mut i: usize = 0;
        while i < 256
            invariant
                i <= 256,
                follow@.len() == i,
                forall|j: int| 0 <= j < i ==> #[trigger] follow@[j] == 0,
            decreases 256 - i,
        {
            follow.push(0);
            i = i + 1;
        }
        DownsampledBigramStatistics { follow, contained_regions: Regions::empty() }
    }

    /// Returns the number of bytes that the statistics cover.
    pub fn num_covered_bytes(&self) -> (r: u64)
        ensures
            r == self.covered().len() as u64,
    {
        self.contained_regions.len() as u64
    }

    /// Returns how often a byte of high nibble `second` follows a byte of high nibble `first`.
    pub fn follow(&self, first: u8, second: u8) -> (r: u64)
        requires
            self.wf(),
            first < 16,
            second < 16,
        ensures
            r == self.spec_follow(first as int, second as int),
    {
        self.follow[16 * second as usize + first as usize]
    }

    /// Computes the statistics of the given window of data.
    ///
    /// The window of the statistics ends early where the data ends. The data must hold a byte
    /// of the window, unless the window starts after offset `0`.
    pub fn compute<D: DataSource>(source: &mut D, window: Window) -> (r: Result<
        DownsampledBigramStatistics,
        D::Error,
    >)
        requires
            window@.start > 0 || (window@.size() > 0 && old(source).content().len() > 0),
        ensures
            D::infallible() ==> r is Ok,
            final(source).content() == old(source).content(),
            r matches Ok(stats) ==> {
                &&& stats.wf()
                &&& stats.describes(
                    old(source).content(),
                    WindowView {
                        start: window@.start,
                        end: window@.start + content_at(
                            old(source).content(),
                            window@.start,
                            window@.size(),
                        ).len(),
                    },
                )
            },
    {
        let ghost content = source.content();
        let ws = window.start();
        let we = window.end();
        let mut stats = DownsampledBigramStatistics::empty();
        let mut follow = stats.follow;
        let mut prev: u8 = 0;
        if ws > 0 {
            let before = source.window_at(ws - 1, 1)?;
            if before.len() > 0 {
                prev = before[0];
            }
        }
        let mut start: u64 = ws;
        let mut done = false;
        proof {
            assert forall|f: int, s: int|
                0 <= f < 16 && 0 <= s < 16 implies #[trigger] follow@[16 * s + f] == nibble_pair_count(
                content,
                ws as int,
                start as int,
                f,
                s,
            ) by {
                assert(stats.spec_follow(f, s) == 0);
            }
        }
        while start < we && !done
            invariant
                source.content() == content,
                content == old(source).content(),
                window@.wf(),
                ws == window@.start,
                we == window@.end,
                ws <= start <= we,
                start == ws || start <= content.len(),
                done ==> start >= content.len(),
                start <= content.len() ==> prev == prev_byte(content, start as int),
                follow@.len() == 256,
                forall|f: int, s: int|
                    0 <= f < 16 && 0 <= s < 16 ==> #[trigger] follow@[16 * s + f] == nibble_pair_count(
                        content,
                        ws as int,
                        start as int,
                        f,
                        s,
                    ),
            decreases we - start, if done {
                0int
            } else {
                1int
            },
        {
            let remaining = we - start;
            let max_size: u64 = if remaining < CHUNK_SIZE {
                remaining
            } else {
                CHUNK_SIZE
            };
            let chunk = source.window_at(start, max_size as usize)?;
            let ghost chunk_start = start;
            let n = chunk.len();
            let mut j: usize = 0;
            while j < n
                invariant
                    source.content() == content,
                    content == old(source).content(),
                    ws <= chunk_start < we,
                    chunk_start == ws || chunk_start <= content.len(),
                    n == chunk@.len(),
                    chunk@ == content_at(content, chunk_start as int, max_size as int),
                    max_size <= we - chunk_start,
                    j <= n,
                    chunk_start + j <= content.len() ==> prev == prev_byte(content, chunk_start + j),
                    follow@.len() == 256,
                    forall|f: int, s: int|
                        0 <= f < 16 && 0 <= s < 16 ==> #[trigger] follow@[16 * s + f]
                            == nibble_pair_count(content, ws as int, chunk_start + j, f, s),
                decreases n - j,
            {
                let byte = chunk[j];
                let ghost i = chunk_start + j;
                let hi = byte >> 4;
                let prev_hi = prev >> 4;
                proof {
                    assert(byte == content[i]);
                    assert(byte >> 4 == byte / 16) by (bit_vector);
                    assert(prev >> 4 == prev / 16) by (bit_vector);
                    lemma_nibble_pair_count_bound(content, ws as int, i, prev_hi as int, hi as int);
                }
                let idx = 16 * hi as usize + prev_hi as usize;
                let updated = follow[idx] + 1;
                follow.set(idx, updated);
                proof {
                    assert forall|f: int, s: int|
                        0 <= f < 16 && 0 <= s < 16 implies #[trigger] follow@[16 * s + f]
                        == nibble_pair_count(content, ws as int, i + 1, f, s) by {
                        if 16 * s + f == idx {
                            assert(f == prev_hi && s == hi);
                        }
                    }
                }
                prev = byte;
                j = j + 1;
            }
            start = start + n as u64;
            if n == 0 {
                done = true;
            }
        }
        let read_window = Window::from_start_len(ws, start - ws);
        let ghost w = read_window@;
        proof {
            assert(w.end == window@.start + content_at(content, window@.start, window@.size()).len());
            if w.start == 0 {
                assert(content_at(content, 0, window@.size()).len() > 0);
            }
        }
        stats.follow = follow;
        stats.contained_regions = Regions::of_window(read_window);
        proof {
            lemma_window_offsets_len(w);
            assert forall|f: int, s: int|
                0 <= f < 16 && 0 <= s < 16 implies #[trigger] stats.spec_follow(f, s)
                <= stats.covered().len() by {
                lemma_nibble_pair_count_bound(content, w.start, w.end, f, s);
            }
            lemma_window_offsets_len(WindowView { start: 0, end: u64::MAX as int });
            assert(below_max(stats.covered()));
        }
        Ok(stats)
    }

    /// Adds the statistics of other regions to these statistics.
    ///
    /// The regions must not overlap.
    pub fn add_assign(&mut self, rhs: &DownsampledBigramStatistics)
        requires
            old(self).wf(),
            rhs.wf(),
            old(self).covered().disjoint(rhs.covered()),
        ensures
            final(self).wf(),
            final(self).covered() == old(self).covered().union(rhs.covered()),
            forall|f: int, s: int|
                0 <= f < 16 && 0 <= s < 16 ==> #[trigger] final(self).spec_follow(f, s) == old(
                    self,
                ).spec_follow(f, s) + rhs.spec_follow(f, s),
            forall|content: Seq<u8>, left: WindowView, right: WindowView|
                left.wf() && right.wf() && old(self).describes(content, left) && rhs.describes(
                    content,
                    right,
                ) && left.end == right.start ==> #[trigger] final(self).describes(
                    content,
                    WindowView { start: left.start, end: right.end },
                ),
    {
        let ghost old_self = *self;
        proof {
            lemma_below_max_len(self.covered());
            lemma_below_max_len(rhs.covered());
            lemma_set_disjoint_lens(self.covered(), rhs.covered());
            assert(below_max(self.covered() + rhs.covered()));
            lemma_below_max_len(self.covered() + rhs.covered());
            assert forall|j: int| 0 <= j < 256 implies old_self.follow@[j] + rhs.follow@[j] <= u64::MAX by {
                let f = j % 16;
                let s = j / 16;
                assert(16 * s + f == j);
                assert(old_self.spec_follow(f, s) <= old_self.covered().len());
                assert(rhs.spec_follow(f, s) <= rhs.covered().len());
            }
        }
        let mut i: usize = 0;
        while i < 256
            invariant
                0 <= i <= 256,
                self.follow@.len() == 256,
                rhs.wf(),
                self.contained_regions == old_self.contained_regions,
                forall|j: int|
                    0 <= j < 256 ==> old_self.follow@[j] + rhs.follow@[j] <= u64::MAX,
                forall|j: int|
                    0 <= j < 256 ==> #[trigger] self.follow@[j] == old_self.follow@[j] + if j < i {
                        rhs.follow@[j] as int
                    } else {
                        0
                    },
            decreases 256 - i,
        {
            let updated = self.follow[i] + rhs.follow[i];
            self.follow.set(i, updated);
            i = i + 1;
        }
        self.contained_regions.add(&rhs.contained_regions);
        proof {
            assert(self.covered() =~= old_self.covered().union(rhs.covered()));
            assert forall|f: int, s: int|
                0 <= f < 16 && 0 <= s < 16 implies #[trigger] self.spec_follow(f, s)
                <= self.covered().len() by {
                assert(old_self.spec_follow(f, s) <= old_self.covered().len());
                assert(rhs.spec_follow(f, s) <= rhs.covered().len());
            }
            assert forall|content: Seq<u8>, left: WindowView, right: WindowView|
                left.wf() && right.wf() && old_self.describes(content, left) && rhs.describes(
                    content,
                    right,
                ) && left.end == right.start implies #[trigger] self.describes(
                content,
                WindowView { start: left.start, end: right.end },
            ) by {
                let joined = WindowView { start: left.start, end: right.end };
                assert(self.covered() =~= window_offsets(joined));
                assert forall|f: int, s: int|
                    0 <= f < 16 && 0 <= s < 16 implies #[trigger] self.spec_follow(f, s)
                    == nibble_pair_count(content, joined.start, joined.end, f, s) by {
                    lemma_nibble_pair_count_split(content, left.start, left.end, right.end, f, s);
                    assert(old_self.spec_follow(f, s) == nibble_pair_count(
                        content,
                        left.start,
                        left.end,
                        f,
                        s,
                    ));
                    assert(rhs.spec_follow(f, s) == nibble_pair_count(
                        content,
                        right.start,
                        right.end,
                        f,
                        s,
                    ));
                }
            }
        }
    }

    /// The approximate number of bytes that the statistics take in memory.
    pub fn approximate_memory_usage(&self) -> (r: u64)
        ensures
            r == 0x8_0000,
    {
        0x8_0000
    }

    /// The covered regions as `(start, end)` pairs of inclusive bounds.
    pub fn contained_regions(&self) -> (r: Vec<(u64, u64)>)
        ensures
            forall|i: int| 0 <= i < r@.len() ==> (#[trigger] r@[i]).0 <= r@[i].1,
            forall|x: u64|
                #[trigger] self.covered().contains(x) <==> exists|i: int|
                    0 <= i < r@.len() && (#[trigger] r@[i]).0 <= x <= r@[i].1,
    {
        self.contained_regions.ranges()
    }
}

impl BigramStatistics {
    /// Returns the downsampled statistics: the count of a pair of high nibbles is the sum of the
    /// counts of the pairs of bytes with these high nibbles.
    pub fn downsampled(&self) -> (r: DownsampledBigramStatistics)
        requires
            self.wf(),
        ensures
            r.wf(),
            r.covered() == self.covered(),
            forall|f: int, s: int|
                0 <= f < 16 && 0 <= s < 16 ==> #[trigger] r.spec_follow(f, s) == downsampled_count(
                    *self,
                    f,
                    s,
                ),
            forall|content: Seq<u8>, window: WindowView|
                window.wf() && #[trigger] self.describes(content, window) ==> r.describes(
                    content,
                    window,
                ),
    {
        let ghost g = follow_counts(*self);
        proof {
            self.lemma_wf();
            lemma_below_max_len(self.covered());
        }
        let mut follow: Vec<u64> = Vec::new();
        let mut s: u8 = 0;
        while s < 16
            invariant
                s <= 16,
                self.wf(),
                self.covered().len() <= u64::MAX,
                g == follow_counts(*self),
                forall|f: int, s: int|
                    0 <= f < 16 && 0 <= s < 16 ==> #[trigger] downsampled_count(*self, f, s)
                        <= self.covered().len(),
                follow@.len() == 16 * s,
                forall|j: int| 0 <= j < 16 * s ==> #[trigger] follow@[j] == block_sum(g, j % 16, j / 16, 16),
            decreases 16 - s,
        {
            let mut f: u8 = 0;
            while f < 16
                invariant
                    s < 16,
                    f <= 16,
                    self.wf(),
                    self.covered().len() <= u64::MAX,
                    g == follow_counts(*self),
                    forall|f: int, s: int|
                        0 <= f < 16 && 0 <= s < 16 ==> #[trigger] downsampled_count(*self, f, s)
                            <= self.covered().len(),
                    follow@.len() == 16 * s + f,
                    forall|j: int|
                        0 <= j < 16 * s + f ==> #[trigger] follow@[j] == block_sum(g, j % 16, j / 16, 16),
                decreases 16 - f,
            {
                let mut total: u64 = 0;
                let mut b: u8 = 0;
                proof {
                    assert(downsampled_count(*self, f as int, s as int) <= self.covered().len());
                }
                while b < 16
                    invariant
                        s < 16,
                        f < 16,
                        b <= 16,
                        self.wf(),
                        g == follow_counts(*self),
                        block_sum(g, f as int, s as int, 16) <= u64::MAX,
                        total == block_sum(g, f as int, s as int, b as int),
                    decreases 16 - b,
                {
                    let mut a: u8 = 0;
                    while a < 16
                        invariant
                            s < 16,
                            f < 16,
                            b < 16,
                            a <= 16,
                            self.wf(),
                            g == follow_counts(*self),
                            block_sum(g, f as int, s as int, 16) <= u64::MAX,
                            total == block_sum(g, f as int, s as int, b as int) + row_sum(
                                g,
                                f as int,
                                (16 * s + b) as u8,
                                a as int,
                            ),
                        decreases 16 - a,
                    {
                        proof {
                            lemma_row_sum_mono(g, f as int, (16 * s + b) as u8, a + 1, 16);
                            lemma_block_sum_mono(g, f as int, s as int, b + 1, 16);
                        }
                        let count = self.follow(16 * f + a, 16 * s + b);
                        total = total + count;
                        a = a + 1;
                    }
                    b = b + 1;
                }
                follow.push(total);
                proof {
                    let j = 16 * s + f;
                    assert(j % 16 == f && j / 16 == s);
                }
                f = f + 1;
            }
            s = s + 1;
        }
        let r = DownsampledBigramStatistics { follow, contained_regions: self.regions() };
        proof {
            self.lemma_wf();
            assert forall|f: int, s: int|
                0 <= f < 16 && 0 <= s < 16 implies #[trigger] r.spec_follow(f, s) == downsampled_count(
                *self,
                f,
                s,
            ) by {
                let j = 16 * s + f;
                assert(j % 16 == f && j / 16 == s);
            }
            assert forall|content: Seq<u8>, window: WindowView|
                window.wf() && #[trigger] self.describes(content, window) implies r.describes(
                    content,
                    window,
                ) by {
                lemma_block_sum_describes(self, content, window);
            }
        }
        r
    }
}

impl TreeStatistics for DownsampledBigramStatistics {
    open spec fn wf(&self) -> bool {
        DownsampledBigramStatistics::wf(self)
    }

    open spec fn covered(&self) -> Set<u64> {
        DownsampledBigramStatistics::covered(self)
    }

    open spec fn memory_per_node() -> nat {
        0x8_0000
    }

    /// The count of the nibble pair `key % 16`, `key / 16`.
    open spec fn count(&self, key: int) -> nat {
        if 0 <= key < 256 {
            self.spec_follow(key % 16, key / 16)
        } else {
            0
        }
    }

    fn empty() -> (r: DownsampledBigramStatistics) {
        DownsampledBigramStatistics::empty()
    }

    fn approximate_memory_usage(&self) -> (r: u64) {
        DownsampledBigramStatistics::approximate_memory_usage(self)
    }

    fn add_assign(&mut self, rhs: &DownsampledBigramStatistics) {
        DownsampledBigramStatistics::add_assign(self, rhs)
    }
}

} // verus!
