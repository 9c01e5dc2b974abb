//! Compute and represent statistics about windows of data.

pub mod count;
pub mod flat;
pub mod handler;
pub mod metrics;
pub mod tree;
pub mod raw_bigrams;
pub mod regions;
pub mod bigrams;
pub mod classification;
pub mod downsampled_bigrams;
pub mod statistics_tree;

use vstd::prelude::*;

use crate::data::{content_at, DataSource};
use crate::statistics::count::CountValue;
use crate::statistics::raw_bigrams::{
    first_byte_of, pair_count, BigramCounter, RawBigrams, SmallRawBigrams,
};
use crate::window::{Window, WindowView};

verus! {

/// Statistics over windows up to this size count in 16 bits.
pub const SMALL_MAX: u64 = 65535;

/// Statistics over windows up to this size count in 32 bits.
pub const MEDIUM_MAX: u64 = 4294967295;

/// The storage that statistics over a window of the given size use: `0` for small, `1` for
/// medium and `2` for large windows.
pub open spec fn rank_for_size(size: int) -> nat {
    if size > MEDIUM_MAX {
        2
    } else if size > SMALL_MAX {
        1
    } else {
        0
    }
}

/// The largest count that a storage of the given rank holds.
pub open spec fn capacity_of_rank(rank: nat) -> nat {
    if rank == 0 {
        SMALL_MAX as nat
    } else if rank == 1 {
        MEDIUM_MAX as nat
    } else {
        u64::MAX as nat
    }
}

/// Computed statistics about a window of data.
pub enum StatisticsKind {
    /// Statistics over a large window of data (>4GiB).
    Large(RawBigrams<u64>),
    /// Statistics over a medium window of data (64KiB to 4GiB).
    Medium(RawBigrams<u32>),
    /// Statistics over a small window of data (<64KiB).
    Small(SmallRawBigrams),
}

impl StatisticsKind {
    /// How often `second` follows `first`.
    pub open spec fn spec_follow(&self, first: u8, second: u8) -> nat {
        match self {
            StatisticsKind::Large(raw) => raw.spec_follow(first, second),
            StatisticsKind::Medium(raw) => raw.spec_follow(first, second),
            StatisticsKind::Small(raw) => raw.spec_follow(first, second),
        }
    }

    /// The storage rank: `0` for small, `1` for medium and `2` for large.
    pub open spec fn rank(&self) -> nat {
        match self {
            StatisticsKind::Large(_) => 2,
            StatisticsKind::Medium(_) => 1,
            StatisticsKind::Small(_) => 0,
        }
    }

    /// The storage of small statistics holds an entry for the given bigram; larger storages
    /// hold one for every bigram.
    pub open spec fn stored_small(&self, first: u8, second: u8) -> bool {
        match self {
            StatisticsKind::Small(raw) => raw.stored(first, second),
            _ => true,
        }
    }

    /// The internal representation is consistent.
    pub open spec fn well_formed(&self) -> bool {
        match self {
            StatisticsKind::Large(raw) => raw.well_formed(),
            StatisticsKind::Medium(raw) => raw.well_formed(),
            StatisticsKind::Small(raw) => raw.well_formed(),
        }
    }

    /// Allocates an appropriate statistics kind for the given window size.
    pub fn with_capacity(capacity: u64) -> (r: StatisticsKind)
        ensures
            r.well_formed(),
            r.rank() == rank_for_size(capacity as int),
            forall|f: u8, s: u8| #[trigger] r.spec_follow(f, s) == 0,
            r matches StatisticsKind::Small(raw) ==> forall|f: u8, s: u8| !#[trigger] raw.stored(
                f,
                s,
            ),
    {
        if capacity > MEDIUM_MAX {
            StatisticsKind::Large(RawBigrams::empty())
        } else if capacity > SMALL_MAX {
            StatisticsKind::Medium(RawBigrams::empty())
        } else {
            StatisticsKind::Small(SmallRawBigrams::empty())
        }
    }

    /// Adds every count of `other` to these counts; the sums must stay within `limit`, which
    /// the storage holds.
    fn add_counts(&mut self, other: &StatisticsKind, Ghost(limit): Ghost<nat>)
        requires
            old(self).well_formed(),
            other.well_formed(),
            old(self).rank() >= other.rank(),
            limit <= capacity_of_rank(old(self).rank()),
            forall|f: u8, s: u8| #[trigger]
                old(self).spec_follow(f, s) + other.spec_follow(f, s) <= limit,
        ensures
            final(self).well_formed(),
            final(self).rank() == old(self).rank(),
            forall|f: u8, s: u8| #[trigger]
                final(self).spec_follow(f, s) == old(self).spec_follow(f, s) + other.spec_follow(
                    f,
                    s,
                ),
            old(self).rank() == 0 ==> forall|f: u8, s: u8| #[trigger]
                final(self).stored_small(f, s) == (old(self).stored_small(f, s)
                    || other.stored_small(f, s)),
    {
        let ghost start = *self;
        match self {
            StatisticsKind::Large(this) => {
                match other {
                    StatisticsKind::Large(o) => {
                        proof {
                            assert forall|f: u8, s: u8| #[trigger]
                                this.spec_follow(f, s) + o.spec_follow(f, s) <= limit by {
                                assert(start.spec_follow(f, s) + other.spec_follow(f, s) <= limit);
                            }
                        }
                        add_raw_to_raw(this, o, Ghost(limit));
                    },
                    StatisticsKind::Medium(o) => {
                        proof {
                            assert forall|f: u8, s: u8| #[trigger]
                                this.spec_follow(f, s) + o.spec_follow(f, s) <= limit by {
                                assert(start.spec_follow(f, s) + other.spec_follow(f, s) <= limit);
                            }
                        }
                        add_raw_to_raw(this, o, Ghost(limit));
                    },
                    StatisticsKind::Small(o) => {
                        proof {
                            assert forall|f: u8, s: u8| #[trigger]
                                this.spec_follow(f, s) + o.spec_follow(f, s) <= limit by {
                                assert(start.spec_follow(f, s) + other.spec_follow(f, s) <= limit);
                            }
                        }
                        add_small_to_raw(this, o, Ghost(limit));
                    },
                }
            },
            StatisticsKind::Medium(this) => {
                match other {
                    StatisticsKind::Medium(o) => {
                        proof {
                            assert forall|f: u8, s: u8| #[trigger]
                                this.spec_follow(f, s) + o.spec_follow(f, s) <= limit by {
                                assert(start.spec_follow(f, s) + other.spec_follow(f, s) <= limit);
                            }
                        }
                        add_raw_to_raw(this, o, Ghost(limit));
                    },
                    StatisticsKind::Small(o) => {
                        proof {
                            assert forall|f: u8, s: u8| #[trigger]
                                this.spec_follow(f, s) + o.spec_follow(f, s) <= limit by {
                                assert(start.spec_follow(f, s) + other.spec_follow(f, s) <= limit);
                            }
                        }
                        add_small_to_raw(this, o, Ghost(limit));
                    },
                    StatisticsKind::Large(_) => {},
                }
            },
            StatisticsKind::Small(this) => {
                match other {
                    StatisticsKind::Small(o) => {
                        proof {
                            assert forall|f: u8, s: u8| #[trigger]
                                this.spec_follow(f, s) + o.spec_follow(f, s) <= limit by {
                                assert(start.spec_follow(f, s) + other.spec_follow(f, s) <= limit);
                            }
                        }
                        add_small_to_small(this, o, Ghost(limit));
                    },
                    _ => {},
                }
            },
        }
    }
}

/// Computed statistics about a window of data.
pub struct Statistics {
    /// The actual statistics.
    statistics: StatisticsKind,
    /// The window over which the statistics were calculated.
    window: Window,
    /// The first byte in the window, if it is the first window.
    first_byte: Option<u8>,
}

impl Statistics {
    /// How often `second` follows `first` in the window.
    pub closed spec fn spec_follow(&self, first: u8, second: u8) -> nat {
        self.statistics.spec_follow(first, second)
    }

    /// The window over which the statistics were calculated.
    pub closed spec fn spec_window(&self) -> WindowView {
        self.window@
    }

    /// The first byte of the data, for statistics that start at offset `0`.
    pub closed spec fn spec_first_byte(&self) -> Option<u8> {
        self.first_byte
    }

    /// The storage rank: `0` for small, `1` for medium and `2` for large.
    pub closed spec fn rank(&self) -> nat {
        self.statistics.rank()
    }

    /// The largest count that the storage of the statistics holds.
    pub open spec fn capacity(&self) -> nat {
        capacity_of_rank(self.rank())
    }

    /// The storage of the small statistics holds an entry for the given bigram.
    pub closed spec fn stored(&self, first: u8, second: u8) -> bool {
        self.statistics.stored_small(first, second)
    }

    /// The statistics are consistent: the storage is well formed, the window is valid and no
    /// count exceeds the size of the window or the capacity of the storage.
    pub closed spec fn wf(&self) -> bool {
        &&& self.statistics.well_formed()
        &&& self.window@.wf()
        &&& forall|f: u8, s: u8| #[trigger]
            self.statistics.spec_follow(f, s) <= self.window@.size()
        &&& forall|f: u8, s: u8| #[trigger]
            self.statistics.spec_follow(f, s) <= capacity_of_rank(self.statistics.rank())
    }

    /// What well-formed statistics guarantee: a valid window and counts within the window size
    /// and the capacity of the storage.
    pub proof fn lemma_wf(&self)
        requires
            self.wf(),
        ensures
            self.spec_window().wf(),
            forall|f: u8, s: u8| #[trigger] self.spec_follow(f, s) <= self.spec_window().size(),
            forall|f: u8, s: u8| #[trigger] self.spec_follow(f, s) <= self.capacity(),
    {
    }

    /// The statistics describe the given data exactly: every count is the number of times the
    /// bigram occurs in the window, and the first byte of the data is recorded iff the window
    /// starts at offset `0`.
    pub open spec fn describes(&self, content: Seq<u8>) -> bool {
        &&& forall|f: u8, s: u8| #[trigger]
            self.spec_follow(f, s) == pair_count(
                content,
                self.spec_window().start,
                self.spec_window().end,
                f,
                s,
            )
        &&& self.spec_first_byte() == first_byte_of(content, self.spec_window().start)
    }

    /// Creates new empty statistics starting at the beginning of the given window.
    ///
    /// The capacity of the window is chosen such that it will fit the whole given window.
    pub fn empty_for_window(window: Window) -> (r: Statistics)
        requires
            window@.wf(),
        ensures
            r.wf(),
            r.spec_window() == (WindowView { start: window@.start, end: window@.start }),
            r.spec_first_byte() is None,
            r.rank() == rank_for_size(window@.size()),
            forall|f: u8, s: u8| #[trigger] r.spec_follow(f, s) == 0,
            r.rank() == 0 ==> forall|f: u8, s: u8| !#[trigger] r.stored(f, s),
    {
        Statistics {
            statistics: StatisticsKind::with_capacity(window.size()),
            window: Window::empty_from_start(window.start()),
            first_byte: None,
        }
    }

    /// Computes statistics about a given window of data.
    ///
    /// The window of the result ends early where the data ends.
    pub fn compute<S: DataSource>(source: &mut S, window: Window) -> (r: Result<
        Statistics,
        S::Error,
    >)
        requires
            window@.wf(),
        ensures
            S::infallible() ==> r is Ok,
            final(source).content() == old(source).content(),
            r matches Ok(stats) ==> {
                &&& stats.wf()
                &&& stats.describes(old(source).content())
                &&& stats.rank() == rank_for_size(window@.size())
                &&& stats.spec_window() == (WindowView {
                    start: window@.start,
                    end: window@.start + content_at(
                        old(source).content(),
                        window@.start,
                        window@.size(),
                    ).len(),
                })
            },
    {
        let ghost content = source.content();
        let capacity = window.size();
        let (statistics, read_window, first_byte) = if capacity > MEDIUM_MAX {
            let mut raw = RawBigrams::<u64>::empty();
            let (w, first) = raw.compute(source, window)?;
            proof {
                assert forall|f: u8, s: u8| #[trigger]
                    raw.spec_follow(f, s) == pair_count(content, w@.start, w@.end, f, s) by {
                    assert(raw.count(f, s) == pair_count(content, w@.start, w@.end, f, s));
                }
            }
            (StatisticsKind::Large(raw), w, first)
        } else if capacity > SMALL_MAX {
            let mut raw = RawBigrams::<u32>::empty();
            let (w, first) = raw.compute(source, window)?;
            proof {
                assert forall|f: u8, s: u8| #[trigger]
                    raw.spec_follow(f, s) == pair_count(content, w@.start, w@.end, f, s) by {
                    assert(raw.count(f, s) == pair_count(content, w@.start, w@.end, f, s));
                }
            }
            (StatisticsKind::Medium(raw), w, first)
        } else {
            let mut raw = SmallRawBigrams::empty();
            let (w, first) = raw.compute(source, window)?;
            proof {
                assert forall|f: u8, s: u8| #[trigger]
                    raw.spec_follow(f, s) == pair_count(content, w@.start, w@.end, f, s) by {
                    assert(raw.count(f, s) == pair_count(content, w@.start, w@.end, f, s));
                }
            }
            (StatisticsKind::Small(raw), w, first)
        };
        proof {
            assert forall|f: u8, s: u8| #[trigger] statistics.spec_follow(f, s) == pair_count(
                content,
                read_window@.start,
                read_window@.end,
                f,
                s,
            ) by {}
            assert forall|f: u8, s: u8| #[trigger] statistics.spec_follow(f, s) <= read_window@.size()
                && statistics.spec_follow(f, s) <= capacity_of_rank(statistics.rank()) by {
                raw_bigrams::lemma_pair_count_bound(
                    content,
                    read_window@.start,
                    read_window@.end,
                    f,
                    s,
                );
            }
        }
        Ok(Statistics { statistics, window: read_window, first_byte })
    }

    /// Adds an empty window to the statistics.
    ///
    /// This makes the statistics not fully representative of the input.
    pub fn add_empty_window(&mut self, window: Window)
        requires
            old(self).wf(),
            old(self).spec_window().end == window@.start,
            window@.wf(),
        ensures
            final(self).wf(),
            final(self).spec_window() == (WindowView {
                start: old(self).spec_window().start,
                end: window@.end,
            }),
            final(self).spec_first_byte() == old(self).spec_first_byte(),
            final(self).rank() == old(self).rank(),
            forall|f: u8, s: u8| #[trigger]
                final(self).spec_follow(f, s) == old(self).spec_follow(f, s) && final(self).stored(
                    f,
                    s,
                ) == old(self).stored(f, s),
    {
        match self.window.joined(window) {
            Some(joined) => {
                self.window = joined;
            },
            None => {
                // unreachable: the windows are adjacent
            },
        }
    }

    /// Adds the statistics of the adjacent window `rhs` to these statistics.
    ///
    /// The storage of these statistics must fit the sum of each count.
    pub fn add_assign(&mut self, rhs: &Statistics)
        requires
            old(self).wf(),
            rhs.wf(),
            old(self).spec_window().end == rhs.spec_window().start,
            old(self).rank() >= rhs.rank(),
            forall|f: u8, s: u8| #[trigger]
                old(self).spec_follow(f, s) + rhs.spec_follow(f, s) <= old(self).capacity(),
        ensures
            final(self).wf(),
            final(self).rank() == old(self).rank(),
            final(self).spec_window() == (WindowView {
                start: old(self).spec_window().start,
                end: rhs.spec_window().end,
            }),
            final(self).spec_first_byte() == match old(self).spec_first_byte() {
                Some(b) => Some(b),
                None => rhs.spec_first_byte(),
            },
            forall|f: u8, s: u8| #[trigger]
                final(self).spec_follow(f, s) == old(self).spec_follow(f, s) + rhs.spec_follow(
                    f,
                    s,
                ),
            old(self).rank() == 0 ==> forall|f: u8, s: u8| #[trigger]
                final(self).stored(f, s) == (old(self).stored(f, s) || rhs.stored(f, s)),
            forall|content: Seq<u8>|
                old(self).describes(content) && rhs.describes(content)
                    ==> #[trigger] final(self).describes(content),
    {
        let ghost old_self = *self;
        let joined = match self.window.joined(rhs.window) {
            Some(w) => w,
            None => {
                return;  // unreachable: the windows are adjacent

            },
        };
        let ghost limit: nat = old_self.capacity();
        proof {
            assert forall|f: u8, s: u8| #[trigger]
                self.statistics.spec_follow(f, s) + rhs.statistics.spec_follow(f, s) <= limit by {
                assert(old_self.spec_follow(f, s) + rhs.spec_follow(f, s) <= limit);
            }
        }
        self.statistics.add_counts(&rhs.statistics, Ghost(limit));
        self.window = joined;
        self.first_byte = match self.first_byte {
            Some(b) => Some(b),
            None => rhs.first_byte,
        };
        proof {
            assert forall|content: Seq<u8>|
                old_self.describes(content) && rhs.describes(content) implies #[trigger]
                self.describes(content) by {
                let start = old_self.spec_window().start;
                let mid = rhs.spec_window().start;
                let end = rhs.spec_window().end;
                assert forall|f: u8, s: u8| #[trigger]
                    self.spec_follow(f, s) == pair_count(content, start, end, f, s) by {
                    raw_bigrams::lemma_pair_count_split(content, start, mid, end, f, s);
                    assert(self.statistics.spec_follow(f, s) == old_self.statistics.spec_follow(f, s)
                        + rhs.statistics.spec_follow(f, s));
                    assert(old_self.spec_follow(f, s) == pair_count(content, start, mid, f, s));
                    assert(rhs.spec_follow(f, s) == pair_count(content, mid, end, f, s));
                }
            }
        }
    }

    /// The window over which the statistics were calculated.
    pub fn window(&self) -> (r: Window)
        ensures
            r@ == self.spec_window(),
    {
        self.window
    }

    /// The first byte of the data, if the statistics start at offset `0`.
    pub fn first_byte(&self) -> (r: Option<u8>)
        ensures
            r == self.spec_first_byte(),
    {
        self.first_byte
    }

    /// Returns how often `second` follows `first` in the window.
    pub fn follow(&self, first: u8, second: u8) -> (r: u64)
        requires
            self.wf(),
        ensures
            r == self.spec_follow(first, second),
    {
        match &self.statistics {
            StatisticsKind::Large(raw) => raw.follow(first, second).to_u64(),
            StatisticsKind::Medium(raw) => raw.follow(first, second).to_u64(),
            StatisticsKind::Small(raw) => raw.follow(first, second) as u64,
        }
    }
}

/// Adds every count of `other` to `this`.
fn add_raw_to_raw<C: CountValue, D: CountValue>(
    this: &mut RawBigrams<C>,
    other: &RawBigrams<D>,
    Ghost(limit): Ghost<nat>,
)
    requires
        old(this).well_formed(),
        other.well_formed(),
        limit <= C::max_value(),
        forall|f: u8, s: u8| #[trigger]
            old(this).spec_follow(f, s) + other.spec_follow(f, s) <= limit,
    ensures
        final(this).well_formed(),
        forall|f: u8, s: u8| #[trigger]
            final(this).spec_follow(f, s) == old(this).spec_follow(f, s) + other.spec_follow(f, s),
{
    let ghost start = *this;
    let mut second: u16 = 0;
    while second < 256
        invariant
            0 <= second <= 256,
            this.well_formed(),
            other.well_formed(),
            limit <= C::max_value(),
            forall|f: u8, s: u8| #[trigger]
                start.spec_follow(f, s) + other.spec_follow(f, s) <= limit,
            forall|f: u8, s: u8| #[trigger]
                this.spec_follow(f, s) == start.spec_follow(f, s) + if (s as int) < second {
                    other.spec_follow(f, s)
                } else {
                    0
                },
        decreases 256 - second,
    {
        let mut first: u16 = 0;
        while first < 256
            invariant
                0 <= second < 256,
                0 <= first <= 256,
                this.well_formed(),
                other.well_formed(),
                limit <= C::max_value(),
                forall|f: u8, s: u8| #[trigger]
                    start.spec_follow(f, s) + other.spec_follow(f, s) <= limit,
                forall|f: u8, s: u8| #[trigger]
                    this.spec_follow(f, s) == start.spec_follow(f, s) + if (s as int) < second || (
                    s as int == second && (f as int) < first) {
                        other.spec_follow(f, s)
                    } else {
                        0
                    },
            decreases 256 - first,
        {
            let f = first as u8;
            let s = second as u8;
            let value = other.follow(f, s).to_u64();
            proof {
                assert(start.spec_follow(f, s) + other.spec_follow(f, s) <= limit);
                assert(this.spec_follow(f, s) == start.spec_follow(f, s));
            }
            let count = C::from_u64(value);
            this.add_count(f, s, count);
            first = first + 1;
        }
        second = second + 1;
    }
}

/// Adds every stored count of `other` to `this`.
fn add_small_to_raw<C: CountValue>(
    this: &mut RawBigrams<C>,
    other: &SmallRawBigrams,
    Ghost(limit): Ghost<nat>,
)
    requires
        old(this).well_formed(),
        other.well_formed(),
        limit <= C::max_value(),
        forall|f: u8, s: u8| #[trigger]
            old(this).spec_follow(f, s) + other.spec_follow(f, s) <= limit,
    ensures
        final(this).well_formed(),
        forall|f: u8, s: u8| #[trigger]
            final(this).spec_follow(f, s) == old(this).spec_follow(f, s) + other.spec_follow(f, s),
{
    let ghost start = *this;
    let mut second: u16 = 0;
    while second < 256
        invariant
            0 <= second <= 256,
            this.well_formed(),
            other.well_formed(),
            limit <= C::max_value(),
            forall|f: u8, s: u8| #[trigger]
                start.spec_follow(f, s) + other.spec_follow(f, s) <= limit,
            forall|f: u8, s: u8| #[trigger]
                this.spec_follow(f, s) == start.spec_follow(f, s) + if (s as int) < second {
                    other.spec_follow(f, s)
                } else {
                    0
                },
        decreases 256 - second,
    {
        let mut first: u16 = 0;
        while first < 256
            invariant
                0 <= second < 256,
                0 <= first <= 256,
                this.well_formed(),
                other.well_formed(),
                limit <= C::max_value(),
                forall|f: u8, s: u8| #[trigger]
                    start.spec_follow(f, s) + other.spec_follow(f, s) <= limit,
                forall|f: u8, s: u8| #[trigger]
                    this.spec_follow(f, s) == start.spec_follow(f, s) + if (s as int) < second || (
                    s as int == second && (f as int) < first) {
                        other.spec_follow(f, s)
                    } else {
                        0
                    },
            decreases 256 - first,
        {
            let f = first as u8;
            let s = second as u8;
            let value = other.follow(f, s);
            proof {
                assert(start.spec_follow(f, s) + other.spec_follow(f, s) <= limit);
                assert(this.spec_follow(f, s) == start.spec_follow(f, s));
            }
            if value > 0 {
                let count = C::from_u64(value as u64);
                this.add_count(f, s, count);
            }
            first = first + 1;
        }
        second = second + 1;
    }
}

/// Adds every stored count of `other` to `this`, storing an entry in `this` for each of them.
fn add_small_to_small(this: &mut SmallRawBigrams, other: &SmallRawBigrams, Ghost(limit): Ghost<nat>)
    requires
        old(this).well_formed(),
        other.well_formed(),
        limit <= u16::MAX,
        forall|f: u8, s: u8| #[trigger]
            old(this).spec_follow(f, s) + other.spec_follow(f, s) <= limit,
    ensures
        final(this).well_formed(),
        forall|f: u8, s: u8| #[trigger]
            final(this).spec_follow(f, s) == old(this).spec_follow(f, s) + other.spec_follow(f, s),
        forall|f: u8, s: u8| #[trigger]
            final(this).stored(f, s) == (old(this).stored(f, s) || other.stored(f, s)),
{
    let ghost start = *this;
    let mut second: u16 = 0;
    while second < 256
        invariant
            0 <= second <= 256,
            this.well_formed(),
            other.well_formed(),
            limit <= u16::MAX,
            forall|f: u8, s: u8| #[trigger]
                start.spec_follow(f, s) + other.spec_follow(f, s) <= limit,
            forall|f: u8, s: u8| #[trigger]
                this.spec_follow(f, s) == start.spec_follow(f, s) + if (s as int) < second {
                    other.spec_follow(f, s)
                } else {
                    0
                },
            forall|f: u8, s: u8| #[trigger]
                this.stored(f, s) == (start.stored(f, s) || (s as int) < second && other.stored(
                    f,
                    s,
                )),
        decreases 256 - second,
    {
        let mut first: u16 = 0;
        while first < 256
            invariant
                0 <= second < 256,
                0 <= first <= 256,
                this.well_formed(),
                other.well_formed(),
                limit <= u16::MAX,
                forall|f: u8, s: u8| #[trigger]
                    start.spec_follow(f, s) + other.spec_follow(f, s) <= limit,
                forall|f: u8, s: u8| #[trigger]
                    this.spec_follow(f, s) == start.spec_follow(f, s) + if (s as int) < second || (
                    s as int == second && (f as int) < first) {
                        other.spec_follow(f, s)
                    } else {
                        0
                    },
                forall|f: u8, s: u8| #[trigger]
                    this.stored(f, s) == (start.stored(f, s) || ((s as int) < second || (s as int
                        == second && (f as int) < first)) && other.stored(f, s)),
            decreases 256 - first,
        {
            let f = first as u8;
            let s = second as u8;
            let ghost before = *this;
            proof {
                assert(start.spec_follow(f, s) + other.spec_follow(f, s) <= limit);
                assert(this.spec_follow(f, s) == start.spec_follow(f, s));
                assert(this.stored(f, s) == start.stored(f, s));
            }
            match other.stored_count(f, s) {
                Some(value) => {
                    this.add_count(f, s, value);
                },
                None => {},
            }
            proof {
                assert forall|g: u8, t: u8| #[trigger]
                    this.spec_follow(g, t) == start.spec_follow(g, t) + if (t as int) < second || (
                    t as int == second && (g as int) <= first) {
                        other.spec_follow(g, t)
                    } else {
                        0
                    } by {
                    if (g, t) != (f, s) {
                        assert(this.spec_follow(g, t) == before.spec_follow(g, t));
                    }
                }
                assert forall|g: u8, t: u8| #[trigger]
                    this.stored(g, t) == (start.stored(g, t) || ((t as int) < second || (t as int
                        == second && (g as int) <= first)) && other.stored(g, t)) by {
                    if (g, t) != (f, s) {
                        assert(this.stored(g, t) == before.stored(g, t));
                    }
                }
            }
            first = first + 1;
        }
        second = second + 1;
    }
}

} // verus!

verus! {

/// The bigram stored at position `index` of a dense bigram table, as `(first, second)`.
pub open spec fn bigram_at(index: int) -> (u8, u8) {
    ((index % 256) as u8, (index / 256) as u8)
}

impl Statistics {
    /// The sum of the counts of the first `n` bigrams of the dense table.
    pub open spec fn total_upto(&self, n: int) -> nat
        decreases n,
    {
        if n <= 0 {
            0
        } else {
            self.total_upto(n - 1) + self.spec_follow(bigram_at(n - 1).0, bigram_at(n - 1).1)
        }
    }

    /// The number of bigrams among the first `n` of the dense table that occur at all.
    pub open spec fn nonzero_upto(&self, n: int) -> nat
        decreases n,
    {
        if n <= 0 {
            0
        } else {
            self.nonzero_upto(n - 1) + if self.spec_follow(bigram_at(n - 1).0, bigram_at(n - 1).1)
                > 0 {
                1nat
            } else {
                0nat
            }
        }
    }

    /// The largest count among the first `n` bigrams of the dense table.
    pub open spec fn max_upto(&self, n: int) -> nat
        decreases n,
    {
        if n <= 0 {
            0
        } else {
            let c = self.spec_follow(bigram_at(n - 1).0, bigram_at(n - 1).1);
            let m = self.max_upto(n - 1);
            if c > m {
                c
            } else {
                m
            }
        }
    }

    /// Summarizes the counts for rendering them as a signature: returns the number of bigrams
    /// that occur, the sum of all counts and the largest count.
    pub fn signature_summary(&self) -> (r: (u64, u128, u64))
        requires
            self.wf(),
        ensures
            r.0 == self.nonzero_upto(65536),
            r.1 == self.total_upto(65536),
            r.2 == self.max_upto(65536),
    {
        let mut nonzero_count: u64 = 0;
        let mut sum: u128 = 0;
        let mut max: u64 = 0;
        let mut index: u32 = 0;
        while index < 65536
            invariant
                self.wf(),
                index <= 65536,
                nonzero_count == self.nonzero_upto(index as int),
                nonzero_count <= index,
                sum == self.total_upto(index as int),
                sum <= index * (u64::MAX as int),
                max == self.max_upto(index as int),
            decreases 65536 - index,
        {
            let first = (index % 256) as u8;
            let second = (index / 256) as u8;
            let count = self.follow(first, second);
            proof {
                assert(bigram_at(index as int) == (first, second));
            }
            if count > max {
                max = count;
            }
            if count > 0 {
                nonzero_count = nonzero_count + 1;
            }
            proof {
                assert(sum + count <= (index + 1) * (u64::MAX as int)) by (nonlinear_arith)
                    requires
                        sum <= index * (u64::MAX as int),
                        count <= u64::MAX,
                ;
            }
            sum = sum + count as u128;
            index = index + 1;
        }
        (nonzero_count, sum, max)
    }
}

/// A rendering of bigram statistics: one brightness value per bigram.
pub struct Signature {
    /// `values[first * 256 + second]` is the brightness of the bigram `(first, second)`.
    values: Vec<u8>,
}

impl Signature {
    #[verifier::type_invariant]
    spec fn inv(&self) -> bool {
        self.values@.len() == 65536
    }

    /// The brightness of the bigram `(first, second)`.
    pub closed spec fn spec_tuple(&self, first: u8, second: u8) -> u8 {
        self.values@[first as int * 256 + second as int]
    }

    /// Creates a signature from the brightness values of all bigrams, where
    /// `values[first * 256 + second]` belongs to the bigram `(first, second)`.
    ///
    /// Returns `None` unless there is exactly one value per bigram.
    pub fn from_values(values: Vec<u8>) -> (r: Option<Signature>)
        ensures
            r is Some <==> values@.len() == 65536,
            r matches Some(sig) ==> forall|first: u8, second: u8| #[trigger]
                sig.spec_tuple(first, second) == values@[first as int * 256 + second as int],
    {
        if values.len() == 65536 {
            Some(Signature { values })
        } else {
            None
        }
    }

    /// Returns the brightness of the bigram `(first, second)`.
    pub fn tuple(&self, first: u8, second: u8) -> (r: u8)
        ensures
            r == self.spec_tuple(first, second),
    {
        proof {
            use_type_invariant(self);
        }
        self.values[first as usize * 256 + second as usize]
    }
}

} // verus!
