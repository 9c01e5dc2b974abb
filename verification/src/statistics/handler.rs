//! Implements a handler that manages statistics for an input.

pub mod background_thread;
pub mod cache_size;

use std::sync::Arc;

use quick_cache::sync::Cache;
use vstd::arithmetic::div_mod::{lemma_fundamental_div_mod, lemma_mod_multiples_basic};
use vstd::prelude::*;

use crate::data::DataSource;
use crate::statistics::flat::lemma_size_fits_rank;
use crate::statistics::handler::cache_size::{CacheSize, NUM_SIZES};
use crate::statistics::{capacity_of_rank, rank_for_size, Statistics};
use crate::window::{is_power_of_two, lemma_power_of_two_pos, spec_align_down, spec_align_up, Window, WindowView};

verus! {

/// Statistics that are kept in a cache: well formed, over a window of the size they were
/// computed for.
pub struct CachedStatistics {
    stats: Statistics,
}

impl CachedStatistics {
    #[verifier::type_invariant]
    spec fn inv(&self) -> bool {
        &&& self.stats.wf()
        &&& self.stats.rank() == rank_for_size(self.stats.spec_window().size())
    }

    /// The statistics that are kept.
    pub closed spec fn spec_stats(&self) -> Statistics {
        self.stats
    }

    /// Returns the statistics that are kept.
    pub fn stats(&self) -> (r: &Statistics)
        ensures
            *r == self.spec_stats(),
            r.wf(),
            r.rank() == rank_for_size(r.spec_window().size()),
    {
        proof {
            use_type_invariant(self);
        }
        &self.stats
    }
}

/// The caches of statistics, one per cache size, each by the offset at which the statistics
/// start.
///
/// It holds concurrent caches of `quick_cache`, one per cache size. What they hold is
/// `cache_entries`, and the methods below say how each operation changes it.
#[verifier::external_body]
pub struct StatisticsCaches {
    caches: Vec<Cache<u64, Arc<CachedStatistics>>>,
}

/// The statistics that the caches hold, by the index of the cache and the offset at which they
/// start.
pub uninterp spec fn cache_entries(caches: StatisticsCaches) -> Map<(usize, u64), CachedStatistics>;

/// The number of caches.
pub uninterp spec fn cache_count(caches: StatisticsCaches) -> nat;

/// The caches hold no statistics.
pub open spec fn holds_nothing(caches: StatisticsCaches) -> bool {
    cache_entries(caches) == Map::<(usize, u64), CachedStatistics>::empty()
}

impl StatisticsCaches {
    /// Creates a first, empty cache that holds up to about `items_capacity` statistics.
    ///
    /// Calls `quick_cache::sync::Cache::new`, which creates an empty cache.
    #[verifier::external_body]
    fn new(items_capacity: usize) -> (r: StatisticsCaches)
        ensures
            cache_count(r) == 1,
            holds_nothing(r),
    {
        StatisticsCaches { caches: vec![Cache::new(items_capacity)] }
    }

    /// Adds an empty cache that holds up to about `items_capacity` statistics.
    ///
    /// Calls `quick_cache::sync::Cache::new`, which creates an empty cache.
    #[verifier::external_body]
    fn push_cache(&mut self, items_capacity: usize)
        ensures
            cache_count(*final(self)) == cache_count(*old(self)) + 1,
            cache_entries(*final(self)) == cache_entries(*old(self)),
    {
        self.caches.push(Cache::new(items_capacity));
    }

    /// Looks up the statistics that start at `key` in the cache with the given index.
    ///
    /// Calls `quick_cache::sync::Cache::get`, which returns the value stored for the key, if
    /// the cache holds one.
    #[verifier::external_body]
    fn get(&self, index: usize, key: u64) -> (r: Option<Arc<CachedStatistics>>)
        requires
            index < cache_count(*self),
        ensures
            r matches Some(cached) ==> cache_entries(*self).contains_key((index, key))
                && cache_entries(*self)[(index, key)] == *cached,
    {
        self.caches[index].get(&key)
    }

    /// Stores the statistics that start at `key` in the cache with the given index.
    ///
    /// Calls `quick_cache::sync::Cache::insert` with another pointer to the same statistics; the
    /// cache stores the value for the key, replacing an earlier one, and may evict entries, the
    /// new one among them, to stay within its capacity, so the cache holds at most what it held
    /// with the new entry.
    #[verifier::external_body]
    fn insert(&mut self, index: usize, key: u64, value: &Arc<CachedStatistics>)
        requires
            index < cache_count(*old(self)),
        ensures
            cache_count(*final(self)) == cache_count(*old(self)),
            cache_entries(*final(self)).submap_of(
                cache_entries(*old(self)).insert((index, key), **value),
            ),
    {
        self.caches[index].insert(key, Arc::clone(value))
    }
}

/// The statistics describe the data, or they are the empty statistics of an empty window.
pub open spec fn describes_or_empty(stats: Statistics, content: Seq<u8>) -> bool {
    ||| stats.describes(content)
    ||| {
        &&& stats.spec_window().size() == 0
        &&& stats.spec_first_byte() is None
        &&& forall|f: u8, s: u8| #[trigger] stats.spec_follow(f, s) == 0
    }
}

/// Adding statistics that describe the data to the adjacent statistics that describe it, or are
/// empty, gives statistics that describe it.
proof fn lemma_add_describes(before: Statistics, rhs: Statistics, after: Statistics, content: Seq<u8>)
    requires
        describes_or_empty(before, content),
        rhs.describes(content),
        before.spec_window().end == rhs.spec_window().start,
        after.spec_window() == (WindowView {
            start: before.spec_window().start,
            end: rhs.spec_window().end,
        }),
        after.spec_first_byte() == match before.spec_first_byte() {
            Some(b) => Some(b),
            None => rhs.spec_first_byte(),
        },
        forall|f: u8, s: u8| #[trigger]
            after.spec_follow(f, s) == before.spec_follow(f, s) + rhs.spec_follow(f, s),
        forall|content: Seq<u8>|
            before.describes(content) && rhs.describes(content) ==> #[trigger] after.describes(
                content,
            ),
    ensures
        describes_or_empty(after, content),
{
    if !before.describes(content) {
        assert(after.describes(content));
    }
}

/// The largest end of a window that the handler accepts: the largest cache size. Rounding a
/// larger end up to a multiple of that size would leave `u64`.
pub const MAX_END: u64 = 0x8000_0000_0000_0000;

/// `x` is a multiple of `a` when it is a multiple of a multiple `b` of `a`.
proof fn lemma_mod_transitive(x: int, a: int, b: int)
    requires
        a > 0,
        b > 0,
        b % a == 0,
        x % b == 0,
    ensures
        x % a == 0,
{
    lemma_fundamental_div_mod(x, b);
    lemma_fundamental_div_mod(b, a);
    let q = x / b;
    let r = b / a;
    assert(x == (r * q) * a) by (nonlinear_arith)
        requires
            x == b * q,
            b == a * r,
    ;
    lemma_mod_multiples_basic(r * q, a);
}

/// Rounding a multiple of `align` changes nothing.
proof fn lemma_align_of_multiple(x: int, align: int)
    requires
        align > 0,
        x % align == 0,
    ensures
        spec_align_down(x, align) == x,
        spec_align_up(x, align) == x,
{
    lemma_fundamental_div_mod(x, align);
    let q = x / align;
    assert(x + align - 1 == q * align + (align - 1)) by (nonlinear_arith)
        requires
            x == align * q,
    ;
    vstd::arithmetic::div_mod::lemma_mod_multiples_vanish(q, align - 1, align);
    vstd::arithmetic::div_mod::lemma_small_mod((align - 1) as nat, align as nat);
    assert(align * q == q * align) by (nonlinear_arith);
}

/// Rounding in either direction gives a multiple of `align`.
proof fn lemma_align_is_multiple(x: int, align: int)
    requires
        align > 0,
    ensures
        spec_align_up(x, align) % align == 0,
        spec_align_down(x, align) % align == 0,
{
    let up = spec_align_up(x, align);
    let down = spec_align_down(x, align);
    lemma_fundamental_div_mod(x + align - 1, align);
    lemma_fundamental_div_mod(x, align);
    assert(up == ((x + align - 1) / align) * align) by (nonlinear_arith)
        requires
            x + align - 1 == align * ((x + align - 1) / align) + (x + align - 1) % align,
            up == x + align - 1 - (x + align - 1) % align,
    ;
    assert(down == (x / align) * align) by (nonlinear_arith)
        requires
            x == align * (x / align) + x % align,
            down == x - x % align,
    ;
    lemma_mod_multiples_basic((x + align - 1) / align, align);
    lemma_mod_multiples_basic(x / align, align);
}

/// Rounding a multiple of `size` to a multiple of `align` gives a multiple of `size` again,
/// where one of the two divides the other.
proof fn lemma_aligned_boundaries(x: int, size: u64, align: u64)
    requires
        size > 0,
        align > 0,
        x % size as int == 0,
        align % size == 0 || size % align == 0,
    ensures
        spec_align_up(x, align as int) % size as int == 0,
        spec_align_down(x, align as int) % size as int == 0,
{
    if align % size == 0 {
        lemma_align_is_multiple(x, align as int);
        lemma_mod_transitive(spec_align_up(x, align as int), size as int, align as int);
        lemma_mod_transitive(spec_align_down(x, align as int), size as int, align as int);
    } else {
        lemma_mod_transitive(x, align as int, size as int);
        lemma_align_of_multiple(x, align as int);
    }
}

/// Manages statistics for an input.
pub struct StatisticsHandler {
    /// One cache of statistics per cache size, indexed by the cache size's index.
    caches: StatisticsCaches,
}

impl StatisticsHandler {
    /// The handler keeps a cache per cache size, and all statistics that it keeps describe the
    /// given data.
    pub closed spec fn serves(&self, content: Seq<u8>) -> bool {
        &&& cache_count(self.caches) == NUM_SIZES
        &&& forall|key: (usize, u64)| #[trigger]
            cache_entries(self.caches).contains_key(key) ==> cache_entries(
                self.caches,
            )[key].spec_stats().describes(content)
    }

    /// Creates a new statistics handler, which keeps no statistics yet.
    pub fn new() -> (r: StatisticsHandler)
        ensures
            forall|content: Seq<u8>| #[trigger] r.serves(content),
    {
        let smallest = CacheSize::smallest();
        let mut caches = StatisticsCaches::new(smallest.num_entries());
        let mut i: usize = 1;
        while i < NUM_SIZES
            invariant
                1 <= i <= NUM_SIZES,
                cache_count(caches) == i,
                holds_nothing(caches),
            decreases NUM_SIZES - i,
        {
            let entries: usize = match CacheSize::try_from_index(i) {
                Some(size) => size.num_entries(),
                None => 0,  // unreachable: every index below the number of sizes names a size
            };
            caches.push_cache(entries);
            i = i + 1;
        }
        StatisticsHandler { caches }
    }

    /// Returns the cached statistics for the given window or computes them, and whether they
    /// were cached.
    ///
    /// The window must have a cache size and be aligned to it.
    fn get_or_compute<S: DataSource>(&self, source: &mut S, window: Window) -> (r: Result<
        (Arc<CachedStatistics>, bool),
        S::Error,
    >)
        requires
            window@.wf(),
            window@.end <= old(source).content().len(),
            exists|size: CacheSize| #[trigger] size.spec_size() == window@.size(),
            self.serves(old(source).content()),
        ensures
            S::infallible() ==> r is Ok,
            final(source).content() == old(source).content(),
            r matches Ok((cached, was_cached)) ==> {
                &&& cached.spec_stats().spec_window() == window@
                &&& cached.spec_stats().describes(old(source).content())
            },
    {
        let size = match CacheSize::try_from(window.size()) {
            Ok(size) => size,
            Err(()) => {
                // unreachable: the window has a cache size
                proof {
                    assert(false);
                }
                return self.compute_entry(source, window);
            },
        };
        match self.caches.get(size.index(), window.start()) {
            Some(cached) => {
                let stats = cached.stats();
                let w = stats.window();
                if w.start() == window.start() && w.end() == window.end() {
                    return Ok((cached, true));
                }
            },
            None => {},
        }
        self.compute_entry(source, window)
    }

    /// Computes the statistics of a window that lies within the data, as an entry of a cache.
    fn compute_entry<S: DataSource>(&self, source: &mut S, window: Window) -> (r: Result<
        (Arc<CachedStatistics>, bool),
        S::Error,
    >)
        requires
            window@.wf(),
            window@.end <= old(source).content().len(),
        ensures
            S::infallible() ==> r is Ok,
            final(source).content() == old(source).content(),
            r matches Ok((cached, was_cached)) ==> {
                &&& cached.spec_stats().spec_window() == window@
                &&& cached.spec_stats().describes(old(source).content())
                &&& !was_cached
            },
    {
        let stats = Statistics::compute(source, window)?;
        Ok((Arc::new(CachedStatistics { stats }), false))
    }

    /// Returns the cached statistics for the given window.
    ///
    /// Recomputes and caches them if necessary.
    fn get_or_cache<S: DataSource>(&mut self, source: &mut S, window: Window) -> (r: Result<
        Arc<CachedStatistics>,
        S::Error,
    >)
        requires
            window@.wf(),
            window@.end <= old(source).content().len(),
            exists|size: CacheSize| #[trigger] size.spec_size() == window@.size(),
            old(self).serves(old(source).content()),
        ensures
            S::infallible() ==> r is Ok,
            final(source).content() == old(source).content(),
            final(self).serves(old(source).content()),
            r matches Ok(cached) ==> {
                &&& cached.spec_stats().spec_window() == window@
                &&& cached.spec_stats().describes(old(source).content())
            },
    {
        let (stats, cached) = self.get_or_compute(source, window)?;
        if cached {
            return Ok(stats);
        }
        match CacheSize::try_from(window.size()) {
            Ok(size) => {
                let ghost content = source.content();
                let ghost before = cache_entries(self.caches);
                let index = size.index();
                let start = window.start();
                self.caches.insert(index, start, &stats);
                proof {
                    assert forall|key: (usize, u64)| #[trigger]
                        cache_entries(self.caches).contains_key(key) implies cache_entries(
                            self.caches,
                        )[key].spec_stats().describes(content) by {
                        let grown = before.insert((index, start), *stats);
                        assert(cache_entries(self.caches).submap_of(grown));
                        assert(grown.contains_key(key));
                        assert(cache_entries(self.caches)[key] == grown[key]);
                        if key != (index, start) {
                            assert(before.contains_key(key));
                        }
                    }
                }
            },
            Err(()) => {},
        }
        Ok(stats)
    }

    /// Adds the statistics of the consecutive windows of the given cache size that make up
    /// `window` to `stats`.
    fn add_window<S: DataSource>(
        &mut self,
        stats: &mut Statistics,
        source: &mut S,
        window: Window,
        size: CacheSize,
    ) -> (r: Result<(), S::Error>)
        requires
            window@.wf(),
            window@.end <= old(source).content().len(),
            window@.start % size.spec_size() as int == 0,
            window@.end % size.spec_size() as int == 0,
            old(stats).wf(),
            old(stats).spec_window().end == window@.start,
            old(stats).spec_window().size() + window@.size() <= old(stats).capacity(),
            rank_for_size(window@.size()) <= old(stats).rank(),
            old(self).serves(old(source).content()),
            describes_or_empty(*old(stats), old(source).content()),
        ensures
            S::infallible() ==> r is Ok,
            final(source).content() == old(source).content(),
            final(self).serves(old(source).content()),
            window@.size() == 0 ==> *final(stats) == *old(stats),
            r is Ok ==> {
                &&& final(stats).wf()
                &&& final(stats).rank() == old(stats).rank()
                &&& final(stats).spec_window() == (WindowView {
                    start: old(stats).spec_window().start,
                    end: window@.end,
                })
                &&& describes_or_empty(*final(stats), old(source).content())
            },
    {
        let ghost content = source.content();
        let ghost start_stats = *stats;
        let size_u64 = size.size();
        proof {
            size.lemma_size_is_power_of_two();
            lemma_power_of_two_pos(size_u64);
            lemma_fundamental_div_mod(window@.start, size_u64 as int);
            lemma_fundamental_div_mod(window@.end, size_u64 as int);
            lemma_fundamental_div_mod(window@.size(), size_u64 as int);
            assert(window@.size() % size_u64 as int == 0) by {
                vstd::arithmetic::div_mod::lemma_sub_mod_noop(
                    window@.end,
                    window@.start,
                    size_u64 as int,
                );
            }
        }
        let count = window.size() / size_u64;
        let mut i: u64 = 0;
        while i < count
            invariant
                source.content() == content,
                content == old(source).content(),
                window@.wf(),
                window@.end <= content.len(),
                size_u64 == size.spec_size(),
                size_u64 > 0,
                count == window@.size() / size_u64 as int,
                count * size_u64 == window@.size(),
                i <= count,
                stats.wf(),
                stats.rank() == start_stats.rank(),
                stats.spec_window() == (WindowView {
                    start: start_stats.spec_window().start,
                    end: window@.start + i * size_u64,
                }),
                start_stats.spec_window().end == window@.start,
                start_stats.spec_window().size() + window@.size() <= start_stats.capacity(),
                rank_for_size(window@.size()) <= start_stats.rank(),
                self.serves(content),
                describes_or_empty(*stats, content),
                i == 0 ==> *stats == start_stats,
            decreases count - i,
        {
            proof {
                assert((i + 1) * size_u64 <= count * size_u64) by (nonlinear_arith)
                    requires
                        i < count,
                ;
                assert((i + 1) * size_u64 == i * size_u64 + size_u64) by (nonlinear_arith);
            }
            let piece = Window::from_start_len(window.start() + i * size_u64, size_u64);
            let cached = self.get_or_cache(source, piece)?;
            let piece_stats = cached.stats();
            proof {
                assert(piece_stats.spec_window() == piece@);
                assert(piece_stats.rank() == rank_for_size(size_u64 as int));
                assert(stats.capacity() == start_stats.capacity());
            }
            let ghost before_add = *stats;
            stats.add_assign(piece_stats);
            proof {
                lemma_add_describes(before_add, *piece_stats, *stats, content);
            }
            i = i + 1;
        }
        Ok(())
    }

    /// Adds a section that is aligned to a cache size to the statistics, using the largest
    /// cached windows that fit.
    fn add_aligned_section<S: DataSource>(
        &mut self,
        stats: &mut Statistics,
        source: &mut S,
        window: Window,
        size: CacheSize,
    ) -> (r: Result<(), S::Error>)
        requires
            window@.wf(),
            window@.end <= old(source).content().len(),
            window@.end <= MAX_END,
            window@.start % size.spec_size() as int == 0,
            window@.end % size.spec_size() as int == 0,
            old(stats).wf(),
            old(stats).spec_window().end == window@.start,
            old(stats).spec_window().size() + window@.size() <= old(stats).capacity(),
            rank_for_size(window@.size()) <= old(stats).rank(),
            old(self).serves(old(source).content()),
            describes_or_empty(*old(stats), old(source).content()),
        ensures
            S::infallible() ==> r is Ok,
            final(source).content() == old(source).content(),
            final(self).serves(old(source).content()),
            window@.size() == 0 ==> *final(stats) == *old(stats),
            r is Ok ==> {
                &&& final(stats).wf()
                &&& final(stats).rank() == old(stats).rank()
                &&& final(stats).spec_window() == (WindowView {
                    start: old(stats).spec_window().start,
                    end: window@.end,
                })
                &&& describes_or_empty(*final(stats), old(source).content())
            },
        decreases NUM_SIZES - size.spec_index(),
    {
        match size.next() {
            Some(next_size) => {
                let next_u64 = next_size.size();
                proof {
                    size.lemma_size_is_power_of_two();
                    next_size.lemma_size_is_power_of_two();
                    lemma_power_of_two_pos(size.spec_size());
                    lemma_power_of_two_pos(next_u64);
                    size.lemma_next_divides();
                }
                match window.align(next_u64) {
                    Some((before, aligned, after)) => {
                        let ghost start_stats = *stats;
                        proof {
                            lemma_aligned_boundaries(window@.start, size.spec_size(), next_u64);
                            lemma_aligned_boundaries(window@.end, size.spec_size(), next_u64);
                            lemma_align_is_multiple(window@.start, next_u64 as int);
                            lemma_align_is_multiple(window@.end, next_u64 as int);
                            assert(before@.size() <= window@.size());
                            assert(aligned@.size() <= window@.size());
                            assert(after@.size() <= window@.size());
                        }
                        self.add_window(stats, source, before, size)?;
                        proof {
                            assert(stats.spec_window().size() + aligned@.size()
                                <= start_stats.spec_window().size() + window@.size());
                        }
                        self.add_aligned_section(stats, source, aligned, next_size)?;
                        proof {
                            assert(stats.spec_window().size() + after@.size()
                                == start_stats.spec_window().size() + window@.size());
                        }
                        self.add_window(stats, source, after, size)?;
                        return Ok(());
                    },
                    None => {},
                }
            },
            None => {},
        }
        self.add_window(stats, source, window, size)
    }

    /// Returns the statistics associated with the given window: those of a non-empty window
    /// describe the data there, and those of an empty window hold no counts and no first byte.
    ///
    /// The window must lie within the data, and the handler must be used with one data only.
    pub fn get<S: DataSource>(&mut self, source: &mut S, window: Window) -> (r: Result<
        Statistics,
        S::Error,
    >)
        requires
            window@.end <= old(source).content().len(),
            window@.end <= MAX_END,
            old(self).serves(old(source).content()),
        ensures
            S::infallible() ==> r is Ok,
            final(source).content() == old(source).content(),
            final(self).serves(old(source).content()),
            r matches Ok(stats) ==> {
                &&& stats.wf()
                &&& stats.spec_window() == window@
                &&& stats.rank() == rank_for_size(window@.size())
                &&& describes_or_empty(stats, old(source).content())
                &&& window@.size() > 0 ==> stats.describes(old(source).content())
                &&& window@.size() == 0 ==> stats.spec_first_byte() is None && forall|f: u8, s: u8|
                    #[trigger] stats.spec_follow(f, s) == 0
            },
    {
        let ghost content = source.content();
        let window_size = window.size();
        proof {
            lemma_size_fits_rank(window@.size());
        }
        let mut output = Statistics::empty_for_window(window);
        let smallest = CacheSize::smallest();
        proof {
            smallest.lemma_size_is_power_of_two();
        }
        match window.align(smallest.size()) {
            Some((before, aligned, after)) => {
                if !before.is_empty() {
                    let stats = Statistics::compute(source, before)?;
                    let ghost before_add = output;
                    output.add_assign(&stats);
                    proof {
                        lemma_add_describes(before_add, stats, output, content);
                    }
                }
                proof {
                    lemma_power_of_two_pos(smallest.spec_size());
                    lemma_align_is_multiple(window@.start, smallest.spec_size() as int);
                    lemma_align_is_multiple(window@.end, smallest.spec_size() as int);
                }
                self.add_aligned_section(&mut output, source, aligned, smallest)?;
                if !after.is_empty() {
                    let stats = Statistics::compute(source, after)?;
                    let ghost before_add = output;
                    output.add_assign(&stats);
                    proof {
                        lemma_add_describes(before_add, stats, output, content);
                    }
                }
            },
            None => {
                let stats = Statistics::compute(source, window)?;
                let ghost before_add = output;
                output.add_assign(&stats);
                proof {
                    lemma_add_describes(before_add, stats, output, content);
                }
            },
        }
        Ok(output)
    }
}

impl Default for StatisticsHandler {
    fn default() -> (r: StatisticsHandler) {
        StatisticsHandler::new()
    }
}

} // verus!
