//! Implements counts of bigrams.

use std::collections::BTreeMap;

use vstd::prelude::*;

use crate::data::{content_at, DataSource};
use crate::statistics::count::CountValue;
use crate::window::Window;

verus! {

broadcast use vstd::std_specs::btree::group_btree_axioms;

/// The number of positions `i` in `start..end` of the content at which `second` follows
/// `first`, i.e. `content[i - 1] == first` and `content[i] == second`.
///
/// Position `0` has no byte before it and positions past the content hold no byte.
pub open spec fn pair_count(content: Seq<u8>, start: int, end: int, first: u8, second: u8) -> nat
    decreases end - start,
{
    if end <= start {
        0
    } else {
        pair_count(content, start, end - 1, first, second) + if 0 < end - 1 < content.len()
            && content[end - 2] == first && content[end - 1] == second {
            1nat
        } else {
            0nat
        }
    }
}

/// A window never holds more pairs than positions.
pub proof fn lemma_pair_count_bound(content: Seq<u8>, start: int, end: int, first: u8, second: u8)
    requires
        0 <= start,
    ensures
        pair_count(content, start, end, first, second) + (if start == 0 && end > 0 {
            1int
        } else {
            0int
        }) <= if end <= start {
            0
        } else {
            end - start
        },
    decreases end - start,
{
    if end > start {
        lemma_pair_count_bound(content, start, end - 1, first, second);
    }
}

/// Pair counts of adjacent ranges add up to the pair count of the joined range.
pub proof fn lemma_pair_count_split(
    content: Seq<u8>,
    start: int,
    mid: int,
    end: int,
    first: u8,
    second: u8,
)
    requires
        start <= mid <= end,
    ensures
        pair_count(content, start, end, first, second) == pair_count(
            content,
            start,
            mid,
            first,
            second,
        ) + pair_count(content, mid, end, first, second),
    decreases end - mid,
{
    if end > mid {
        lemma_pair_count_split(content, start, mid, end - 1, first, second);
    }
}

/// The first byte of the content, recorded only for windows that start at offset `0`, since only
/// there it is not preceded by another byte.
pub open spec fn first_byte_of(content: Seq<u8>, start: int) -> Option<u8> {
    if start == 0 && content.len() > 0 {
        Some(content[0])
    } else {
        None
    }
}

/// The slot of the bigram `(first, second)` in a dense table.
pub open spec fn bigram_index(first: u8, second: u8) -> int {
    second as int * 256 + first as int
}

/// A table of bigram counts.
pub trait BigramCounter {
    /// How often `second` follows `first`.
    spec fn count(&self, first: u8, second: u8) -> nat;

    /// The largest count a bigram can reach.
    spec fn max_count(&self) -> nat;

    /// The internal representation is consistent.
    spec fn wf(&self) -> bool;

    /// Counts one more occurrence of `second` following `first`.
    fn increase(&mut self, first: u8, second: u8)
        requires
            old(self).wf(),
            old(self).count(first, second) + 1 <= old(self).max_count(),
        ensures
            final(self).wf(),
            final(self).max_count() == old(self).max_count(),
            final(self).count(first, second) == old(self).count(first, second) + 1,
            forall|f: u8, s: u8|
                (f, s) != (first, second) ==> #[trigger] final(self).count(f, s) == old(
                    self,
                ).count(f, s),
    ;

    /// Counts one less occurrence of `second` following `first`.
    fn decrease(&mut self, first: u8, second: u8)
        requires
            old(self).wf(),
            old(self).count(first, second) > 0,
        ensures
            final(self).wf(),
            final(self).max_count() == old(self).max_count(),
            final(self).count(first, second) == old(self).count(first, second) - 1,
            forall|f: u8, s: u8|
                (f, s) != (first, second) ==> #[trigger] final(self).count(f, s) == old(
                    self,
                ).count(f, s),
    ;
}

/// Computed statistics about bigrams in a window of data.
pub struct RawBigrams<C: CountValue> {
    /// `follow[bigram_index(b1, b2)]` counts how many `b2`s follow a `b1` in the window.
    follow: Vec<C>,
}

impl<C: CountValue> RawBigrams<C> {
    /// The table holds a slot for every bigram.
    pub closed spec fn well_formed(&self) -> bool {
        self.follow@.len() == 65536
    }

    /// How often `second` follows `first`.
    pub closed spec fn spec_follow(&self, first: u8, second: u8) -> nat {
        self.follow@[bigram_index(first, second)].as_nat()
    }

    /// Creates an empty raw bigram count.
    pub fn empty() -> (r: RawBigrams<C>)
        ensures
            r.well_formed(),
            forall|f: u8, s: u8| #[trigger] r.spec_follow(f, s) == 0,
    {
        let mut follow: Vec<C> = Vec::new();
        let mut i: usize = 0;
        while i < 65536
            invariant
                i <= 65536,
                follow@.len() == i,
                forall|j: int| 0 <= j < i ==> #[trigger] follow@[j].as_nat() == 0,
            decreases 65536 - i,
        {
            follow.push(C::zero());
            i = i + 1;
        }
        RawBigrams { follow }
    }

    /// Adds the given count to the given bigram.
    pub fn add_count(&mut self, first: u8, second: u8, count: C)
        requires
            old(self).well_formed(),
            old(self).spec_follow(first, second) + count.as_nat() <= C::max_value(),
        ensures
            final(self).well_formed(),
            final(self).spec_follow(first, second) == old(self).spec_follow(first, second)
                + count.as_nat(),
            forall|f: u8, s: u8|
                (f, s) != (first, second) ==> #[trigger] final(self).spec_follow(f, s) == old(
                    self,
                ).spec_follow(f, s),
    {
        let idx = second as usize * 256 + first as usize;
        let updated = self.follow[idx].add(count);
        self.follow.set(idx, updated);
        proof {
            assert forall|f: u8, s: u8| (f, s) != (first, second) implies #[trigger] self.spec_follow(
                f,
                s,
            ) == old(self).spec_follow(f, s) by {
                assert(bigram_index(f, s) != bigram_index(first, second));
            }
        }
    }

    /// Returns the count of values where `second` follows `first` in the window.
    pub fn follow(&self, first: u8, second: u8) -> (r: C)
        requires
            self.well_formed(),
        ensures
            r.as_nat() == self.spec_follow(first, second),
    {
        self.follow[second as usize * 256 + first as usize]
    }

    /// Fills the bigram counts with information about the given window.
    ///
    /// Returns the window that was actually read (it ends early where the data ends) and the
    /// first byte of the data if the window starts at offset `0`.
    pub fn compute<S: DataSource>(&mut self, source: &mut S, window: Window) -> (r: Result<
        (Window, Option<u8>),
        S::Error,
    >)
        requires
            old(self).well_formed(),
            window@.wf(),
            forall|f: u8, s: u8|
                #[trigger] old(self).count(f, s) + window@.size() <= C::max_value(),
        ensures
            S::infallible() ==> r is Ok,
            final(self).well_formed(),
            final(source).content() == old(source).content(),
            r matches Ok((w, first)) ==> {
                let content = old(source).content();
                &&& w@.start == window@.start
                &&& w@.end == window@.start + content_at(
                    content,
                    window@.start,
                    window@.size(),
                ).len()
                &&& first == first_byte_of(content, window@.start)
                &&& forall|f: u8, s: u8| #[trigger]
                    final(self).count(f, s) == old(self).count(f, s) + pair_count(
                        content,
                        w@.start,
                        w@.end,
                        f,
                        s,
                    )
            },
    {
        raw_compute(self, source, window)
    }
}

impl<C: CountValue> BigramCounter for RawBigrams<C> {
    open spec fn count(&self, first: u8, second: u8) -> nat {
        self.spec_follow(first, second)
    }

    open spec fn max_count(&self) -> nat {
        C::max_value()
    }

    open spec fn wf(&self) -> bool {
        self.well_formed()
    }

    fn increase(&mut self, first: u8, second: u8) {
        let one = C::from_u64(1);
        self.add_count(first, second, one);
    }

    fn decrease(&mut self, first: u8, second: u8) {
        let idx = second as usize * 256 + first as usize;
        let updated = self.follow[idx].decrement();
        self.follow.set(idx, updated);
        proof {
            assert forall|f: u8, s: u8| (f, s) != (first, second) implies #[trigger] self.count(
                f,
                s,
            ) == old(self).count(f, s) by {
                assert(bigram_index(f, s) != bigram_index(first, second));
            }
        }
    }
}

/// Computed statistics about bigrams in a small window of data.
///
/// Only bigrams that occur are stored.
pub struct SmallRawBigrams {
    /// `follow[bigram_index(b1, b2)]` counts how many `b2`s follow a `b1` in the window.
    follow: BTreeMap<u16, u16>,
}

impl SmallRawBigrams {
    /// Every stored key is the slot of a bigram.
    pub closed spec fn well_formed(&self) -> bool {
        forall|k: u16| #[trigger] self.follow@.contains_key(k) ==> k < 65536
    }

    /// How often `second` follows `first`.
    pub closed spec fn spec_follow(&self, first: u8, second: u8) -> nat {
        let key = bigram_index(first, second) as u16;
        if self.follow@.contains_key(key) {
            self.follow@[key] as nat
        } else {
            0
        }
    }

    /// The bigrams for which an entry is stored.
    pub closed spec fn stored(&self, first: u8, second: u8) -> bool {
        self.follow@.contains_key(bigram_index(first, second) as u16)
    }

    /// Creates an empty raw bigram count.
    pub fn empty() -> (r: SmallRawBigrams)
        ensures
            r.well_formed(),
            forall|f: u8, s: u8| #[trigger] r.spec_follow(f, s) == 0,
            forall|f: u8, s: u8| !#[trigger] r.stored(f, s),
    {
        SmallRawBigrams { follow: BTreeMap::new() }
    }

    /// Adds the given count to the given bigram, storing an entry for it.
    pub fn add_count(&mut self, first: u8, second: u8, count: u16)
        requires
            old(self).well_formed(),
            old(self).spec_follow(first, second) + count <= u16::MAX,
        ensures
            final(self).well_formed(),
            final(self).spec_follow(first, second) == old(self).spec_follow(first, second)
                + count,
            final(self).stored(first, second),
            forall|f: u8, s: u8|
                (f, s) != (first, second) ==> #[trigger] final(self).spec_follow(f, s) == old(
                    self,
                ).spec_follow(f, s),
            forall|f: u8, s: u8|
                (f, s) != (first, second) ==> #[trigger] final(self).stored(f, s) == old(
                    self,
                ).stored(f, s),
    {
        let key: u16 = second as u16 * 256 + first as u16;
        let current: u16 = match self.follow.get(&key) {
            Some(v) => *v,
            None => 0,
        };
        self.follow.insert(key, current + count);
        proof {
            assert forall|f: u8, s: u8| (f, s) != (first, second) implies #[trigger] self.spec_follow(
                f,
                s,
            ) == old(self).spec_follow(f, s) && self.stored(f, s) == old(self).stored(f, s) by {
                assert(bigram_index(f, s) != bigram_index(first, second));
                assert(bigram_index(f, s) as u16 != key);
            }
            assert forall|f: u8, s: u8| (f, s) != (first, second) implies #[trigger] self.stored(
                f,
                s,
            ) == old(self).stored(f, s) by {
                assert(bigram_index(f, s) != bigram_index(first, second));
                assert(bigram_index(f, s) as u16 != key);
            }
        }
    }

    /// Returns the count of values where `second` follows `first` in the window.
    pub fn follow(&self, first: u8, second: u8) -> (r: u16)
        ensures
            r == self.spec_follow(first, second),
    {
        let key: u16 = second as u16 * 256 + first as u16;
        match self.follow.get(&key) {
            Some(v) => *v,
            None => 0,
        }
    }

    /// Returns the stored entry for the given bigram, if there is one.
    pub fn stored_count(&self, first: u8, second: u8) -> (r: Option<u16>)
        ensures
            r is Some <==> self.stored(first, second),
            r matches Some(v) ==> v == self.spec_follow(first, second),
            r is None ==> self.spec_follow(first, second) == 0,
    {
        let key: u16 = second as u16 * 256 + first as u16;
        match self.follow.get(&key) {
            Some(v) => Some(*v),
            None => None,
        }
    }

    /// Fills the bigram counts with information about the given window.
    ///
    /// Returns the window that was actually read (it ends early where the data ends) and the
    /// first byte of the data if the window starts at offset `0`.
    pub fn compute<S: DataSource>(&mut self, source: &mut S, window: Window) -> (r: Result<
        (Window, Option<u8>),
        S::Error,
    >)
        requires
            old(self).well_formed(),
            window@.wf(),
            forall|f: u8, s: u8| #[trigger] old(self).count(f, s) + window@.size() <= u16::MAX,
        ensures
            S::infallible() ==> r is Ok,
            final(self).well_formed(),
            final(source).content() == old(source).content(),
            r matches Ok((w, first)) ==> {
                let content = old(source).content();
                &&& w@.start == window@.start
                &&& w@.end == window@.start + content_at(
                    content,
                    window@.start,
                    window@.size(),
                ).len()
                &&& first == first_byte_of(content, window@.start)
                &&& forall|f: u8, s: u8| #[trigger]
                    final(self).count(f, s) == old(self).count(f, s) + pair_count(
                        content,
                        w@.start,
                        w@.end,
                        f,
                        s,
                    )
            },
    {
        raw_compute(self, source, window)
    }
}

impl BigramCounter for SmallRawBigrams {
    open spec fn count(&self, first: u8, second: u8) -> nat {
        self.spec_follow(first, second)
    }

    open spec fn max_count(&self) -> nat {
        u16::MAX as nat
    }

    open spec fn wf(&self) -> bool {
        self.well_formed()
    }

    fn increase(&mut self, first: u8, second: u8) {
        self.add_count(first, second, 1);
    }

    fn decrease(&mut self, first: u8, second: u8) {
        let key: u16 = second as u16 * 256 + first as u16;
        let current: u16 = match self.follow.get(&key) {
            Some(v) => *v,
            None => 0,
        };
        if current > 0 {
            if current == 1 {
                // remove the 0 count to keep the entries to the bigrams that occur
                self.follow.remove(&key);
            } else {
                self.follow.insert(key, current - 1);
            }
        }
        proof {
            assert forall|f: u8, s: u8| (f, s) != (first, second) implies #[trigger] self.count(
                f,
                s,
            ) == old(self).count(f, s) by {
                assert(bigram_index(f, s) != bigram_index(first, second));
                assert(bigram_index(f, s) as u16 != key);
            }
        }
    }
}

/// The default byte assumed before the first byte of the data.
const DEFAULT_PREV_BYTE: u8 = 0;

/// The size of the chunks in which the data is read.
const CHUNK_SIZE: u64 = 4096;

/// Computes the bigram statistics of the given window into the given counter.
///
/// The byte before the window is read as well, so that the first byte of the window is counted
/// as following it. At offset `0` there is no such byte; the first byte of the data is then
/// returned instead.
pub fn raw_compute<T: BigramCounter, S: DataSource>(
    this: &mut T,
    source: &mut S,
    window: Window,
) -> (r: Result<(Window, Option<u8>), S::Error>)
    requires
        old(this).wf(),
        window@.wf(),
        forall|f: u8, s: u8| #[trigger] old(this).count(f, s) + window@.size() <= old(
            this,
        ).max_count(),
    ensures
        S::infallible() ==> r is Ok,
        final(this).wf(),
        final(this).max_count() == old(this).max_count(),
        final(source).content() == old(source).content(),
        r matches Ok((w, first)) ==> {
            let content = old(source).content();
            &&& w@.start == window@.start
            &&& w@.end == window@.start + content_at(
                content,
                window@.start,
                window@.size(),
            ).len()
            &&& first == first_byte_of(content, window@.start)
            &&& forall|f: u8, s: u8| #[trigger]
                final(this).count(f, s) == old(this).count(f, s) + pair_count(
                    content,
                    w@.start,
                    w@.end,
                    f,
                    s,
                )
        },
{
    let ghost content = source.content();
    let ghost old_this = *this;
    let ws = window.start();
    let we = window.end();

    let byte_before_window: Option<u8> = if ws > 0 {
        let before = source.window_at(ws - 1, 1)?;
        if before.len() > 0 {
            Some(before[0])
        } else {
            None
        }
    } else {
        None
    };

    let mut prev_byte: u8 = match byte_before_window {
        Some(b) => b,
        None => DEFAULT_PREV_BYTE,
    };
    let mut start: u64 = ws;
    let mut done = false;
    // whether the pair `(DEFAULT_PREV_BYTE, content[0])` was counted
    let ghost counted_default = byte_before_window is None && ws == 0;

    while start < we && !done
        invariant
            source.content() == content,
            content == old(source).content(),
            old_this == *old(this),
            this.wf(),
            this.max_count() == old_this.max_count(),
            window@.wf(),
            ws == window@.start,
            we == window@.end,
            ws <= start <= we,
            start == ws || start <= content.len(),
            done ==> start >= content.len(),
            byte_before_window is Some ==> ws > 0 && ws - 1 < content.len()
                && byte_before_window->0 == content[ws - 1],
            byte_before_window is None && ws > 0 ==> ws > content.len(),
            counted_default == (byte_before_window is None && ws == 0),
            start > ws ==> prev_byte == content[start - 1],
            start == ws && byte_before_window is Some ==> prev_byte == byte_before_window->0,
            start == ws && byte_before_window is None ==> prev_byte == DEFAULT_PREV_BYTE,
            forall|f: u8, s: u8| #[trigger]
                old_this.count(f, s) + window@.size() <= old_this.max_count(),
            forall|f: u8, s: u8| #[trigger]
                this.count(f, s) == old_this.count(f, s) + pair_count(content, ws as int, start as int, f, s)
                    + if counted_default && start > 0 && f == DEFAULT_PREV_BYTE && s
                    == content[0] {
                    1nat
                } else {
                    0nat
                },
        decreases we - start, if done { 0int } else { 1int },
    {
        let remaining = we - start;
        let max_size: u64 = if remaining < CHUNK_SIZE {
            remaining
        } else {
            CHUNK_SIZE
        };
        let chunk = source.window_at(start, max_size as usize)?;
        let ghost chunk_start = start;
        let n = chunk.len();
        let mut j: usize = 0;
        while j < n
            invariant
                source.content() == content,
                content == old(source).content(),
                old_this == *old(this),
                this.wf(),
                this.max_count() == old_this.max_count(),
                window@.wf(),
                ws == window@.start,
                we == window@.end,
                ws <= chunk_start < we,
                chunk_start == ws || chunk_start <= content.len(),
                n == chunk@.len(),
                chunk@ == content_at(content, chunk_start as int, max_size as int),
                max_size <= we - chunk_start,
                j <= n,
                byte_before_window is Some ==> ws > 0 && ws - 1 < content.len()
                    && byte_before_window->0 == content[ws - 1],
                byte_before_window is None && ws > 0 ==> ws > content.len(),
                counted_default == (byte_before_window is None && ws == 0),
                chunk_start + j > ws ==> prev_byte == content[chunk_start + j - 1],
                chunk_start + j == ws && byte_before_window is Some ==> prev_byte
                    == byte_before_window->0,
                chunk_start + j == ws && byte_before_window is None ==> prev_byte
                    == DEFAULT_PREV_BYTE,
                forall|f: u8, s: u8| #[trigger]
                    old_this.count(f, s) + window@.size() <= old_this.max_count(),
                forall|f: u8, s: u8| #[trigger]
                    this.count(f, s) == old_this.count(f, s) + pair_count(
                        content,
                        ws as int,
                        chunk_start + j,
                        f,
                        s,
                    ) + if counted_default && chunk_start + j > 0 && f == DEFAULT_PREV_BYTE
                        && s == content[0] {
                        1nat
                    } else {
                        0nat
                    },
            decreases n - j,
        {
            let byte = chunk[j];
            let ghost i = chunk_start + j;
            proof {
                assert(byte == content[i]);
                lemma_pair_count_bound(content, ws as int, i, prev_byte, byte);
                assert(this.count(prev_byte, byte) + 1 <= this.max_count());
            }
            this.increase(prev_byte, byte);
            proof {
                assert forall|f: u8, s: u8| #[trigger]
                    this.count(f, s) == old_this.count(f, s) + pair_count(
                        content,
                        ws as int,
                        i + 1,
                        f,
                        s,
                    ) + if counted_default && i + 1 > 0 && f == DEFAULT_PREV_BYTE && s
                        == content[0] {
                        1nat
                    } else {
                        0nat
                    } by {
                    assert(pair_count(content, ws as int, i + 1, f, s) == pair_count(
                        content,
                        ws as int,
                        i,
                        f,
                        s,
                    ) + if 0 < i < content.len() && content[i - 1] == f && content[i] == s {
                        1nat
                    } else {
                        0nat
                    });
                }
            }
            prev_byte = byte;
            j = j + 1;
        }
        start = start + n as u64;
        if n == 0 {
            done = true;
        }
    }

    let read_window = Window::from_start_len(ws, start - ws);

    let mut first_byte: Option<u8> = None;
    if byte_before_window.is_none() {
        let first = source.window_at(ws, 1)?;
        if first.len() > 0 {
            let b = first[0];
            first_byte = Some(b);
            if start > ws {
                proof {
                    assert(ws == 0);
                    assert(b == content[0]);
                }
                this.decrease(DEFAULT_PREV_BYTE, b);
            }
        }
    }
    proof {
        assert forall|f: u8, s: u8| #[trigger]
            this.count(f, s) == old_this.count(f, s) + pair_count(
                content,
                read_window@.start,
                read_window@.end,
                f,
                s,
            ) by {}
    }
    Ok((read_window, first_byte))
}

} // verus!
