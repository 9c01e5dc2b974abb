//! Models "windows" as regions of the input.

use vstd::arithmetic::power2::{lemma_pow2_pos, pow2};
use vstd::bits::{lemma_u64_low_bits_mask_is_mod, low_bits_mask};
use vstd::prelude::*;

verus! {

/// `align` is `2^k` for some `k < 64`.
pub open spec fn is_power_of_two(align: u64) -> bool {
    exists|k: nat| k < 64 && #[trigger] pow2(k) == align
}

/// `num` rounded towards zero to a multiple of `align`.
pub open spec fn spec_align_down(num: int, align: int) -> int {
    num - num % align
}

/// `num` rounded towards the maximum value to a multiple of `align`.
pub open spec fn spec_align_up(num: int, align: int) -> int {
    spec_align_down(num + align - 1, align)
}

/// A power of two is positive.
pub proof fn lemma_power_of_two_pos(align: u64)
    requires
        is_power_of_two(align),
    ensures
        align > 0,
{
    let k = choose|k: nat| k < 64 && #[trigger] pow2(k) == align;
    lemma_pow2_pos(k);
}

/// Masking with the complement of `align - 1` rounds down to a multiple of `align`.
proof fn lemma_mask_is_align_down(num: u64, align: u64)
    requires
        is_power_of_two(align),
    ensures
        num & !((align - 1) as u64) == num - num % align,
        num % align < align,
        align > 0,
{
    let k = choose|k: nat| k < 64 && #[trigger] pow2(k) == align;
    lemma_pow2_pos(k);
    lemma_u64_low_bits_mask_is_mod(num, k);
    let m = (align - 1) as u64;
    assert(low_bits_mask(k) == m);
    assert((num & !m) + (num & m) == num) by (bit_vector);
}

/// Aligns the given number towards zero.
///
/// `align` must be a power of two.
pub fn align_down(num: u64, align: u64) -> (r: u64)
    requires
        is_power_of_two(align),
    ensures
        r == spec_align_down(num as int, align as int),
        r % align == 0,
        r <= num,
        num - r < align,
{
    proof {
        lemma_mask_is_align_down(num, align);
        vstd::arithmetic::div_mod::lemma_fundamental_div_mod(num as int, align as int);
        vstd::arithmetic::div_mod::lemma_mod_multiples_basic(num as int / align as int, align as int);
    }
    num & !(align - 1)
}

/// Aligns the given number towards the maximum value.
///
/// `align` must be a power of two.
pub fn align_up(num: u64, align: u64) -> (r: u64)
    requires
        is_power_of_two(align),
        num + align - 1 <= u64::MAX,
    ensures
        r == spec_align_up(num as int, align as int),
        r % align == 0,
        num <= r,
        r - num < align,
{
    proof {
        lemma_power_of_two_pos(align);
    }
    align_down(num + (align - 1), align)
}

/// The abstract contents of a window: the half-open byte range `start..end`.
pub struct WindowView {
    pub start: int,
    pub end: int,
}

/// Represents a region of the input.
#[derive(Debug, Clone, Copy, PartialEq, Eq, PartialOrd, Ord, Hash)]
pub struct Window {
    /// The index of the first byte in the region.
    start: u64,
    /// The index one past the last byte in the region.
    end: u64,
}

impl View for Window {
    type V = WindowView;

    closed spec fn view(&self) -> WindowView {
        WindowView { start: self.start as int, end: self.end as int }
    }
}

impl WindowView {
    /// The number of bytes in the window.
    pub open spec fn size(self) -> int {
        self.end - self.start
    }

    /// The window holds the given offset.
    pub open spec fn contains(self, offset: int) -> bool {
        self.start <= offset < self.end
    }

    /// Every offset of `other` lies in this window.
    pub open spec fn contains_window(self, other: WindowView) -> bool {
        self.start <= other.start && other.end <= self.end
    }

    /// Each window starts before the other ends; non-empty windows then share an offset.
    pub open spec fn overlaps(self, other: WindowView) -> bool {
        self.start < other.end && other.start < self.end
    }

    /// The window is a valid region of a 64-bit addressed input.
    pub open spec fn wf(self) -> bool {
        0 <= self.start <= self.end <= u64::MAX
    }
}

/// Two non-empty windows overlap exactly when some offset lies in both, and a window contains
/// another non-empty one exactly when it holds every offset of it.
pub proof fn lemma_overlap_and_containment(a: WindowView, b: WindowView)
    ensures
        a.size() > 0 && b.size() > 0 ==> (a.overlaps(b) <==> exists|x: int| a.contains(x) && b.contains(x)),
        b.size() > 0 ==> (a.contains_window(b) <==> forall|x: int| b.contains(x) ==> a.contains(x)),
        a.overlaps(b) == b.overlaps(a),
{
    if a.overlaps(b) && a.size() > 0 && b.size() > 0 {
        let x = if a.start < b.start { b.start } else { a.start };
        assert(a.contains(x) && b.contains(x));
    }
    if b.size() > 0 && (forall|x: int| b.contains(x) ==> a.contains(x)) {
        assert(b.contains(b.start));
        assert(b.contains(b.end - 1));
    }
}

/// The first and last offset of a non-empty window.
pub open spec fn inclusive_bounds(w: WindowView) -> Option<(int, int)> {
    if w.start < w.end {
        Some((w.start, w.end - 1))
    } else {
        None
    }
}

/// The window from `start` to `end`, both included; reversed bounds give the window between
/// them as `Window::new` orders them.
pub open spec fn window_from_inclusive(start: int, end: int) -> WindowView {
    if start <= end {
        WindowView { start, end: end + 1 }
    } else {
        WindowView { start: end + 1, end: start }
    }
}

/// A window has inclusive bounds exactly when it is not empty, and making a window of them
/// gives the same window back.
pub proof fn lemma_inclusive_round_trip(w: WindowView)
    requires
        w.wf(),
    ensures
        inclusive_bounds(w) is None <==> w.size() == 0,
        inclusive_bounds(w) matches Some((first, last)) ==> window_from_inclusive(first, last) == w,
{
}

impl Window {
    #[verifier::type_invariant]
    closed spec fn inv(self) -> bool {
        self.start <= self.end
    }

    /// Creates a new window.
    pub fn new(start: u64, end: u64) -> (w: Window)
        ensures
            start < end ==> w@ == (WindowView { start: start as int, end: end as int }),
            start >= end ==> w@ == (WindowView { start: end as int, end: start as int }),
            w@.wf(),
    {
        if start < end {
            Window { start, end }
        } else {
            Window { start: end, end: start }
        }
    }

    /// Creates a window from a start offset and a length.
    pub fn from_start_len(start: u64, len: u64) -> (w: Window)
        requires
            start + len <= u64::MAX,
        ensures
            w@ == (WindowView { start: start as int, end: (start + len) as int }),
            w@.wf(),
    {
        Window { start, end: start + len }
    }

    /// Creates an empty window at the given offset.
    pub fn empty_from_start(start: u64) -> (w: Window)
        ensures
            w@ == (WindowView { start: start as int, end: start as int }),
            w@.wf(),
    {
        Window { start, end: start }
    }

    /// Creates the joined window between `self` and `other` if they are adjacent.
    pub fn joined(self, other: Window) -> (r: Option<Window>)
        ensures
            self@.end == other@.start <==> r is Some,
            r matches Some(w) ==> w@ == (WindowView { start: self@.start, end: other@.end })
                && w@.wf(),
    {
        proof {
            use_type_invariant(self);
            use_type_invariant(other);
        }
        if self.end == other.start {
            Some(Window { start: self.start, end: other.end })
        } else {
            None
        }
    }

    /// The start of the window.
    pub fn start(self) -> (r: u64)
        ensures
            r == self@.start,
            self@.wf(),
    {
        proof {
            use_type_invariant(self);
        }
        self.start
    }

    /// The end of the window.
    pub fn end(self) -> (r: u64)
        ensures
            r == self@.end,
            self@.wf(),
    {
        proof {
            use_type_invariant(self);
        }
        self.end
    }

    /// The size of the window in bytes.
    pub fn size(self) -> (r: u64)
        ensures
            r == self@.size(),
            self@.wf(),
    {
        proof {
            use_type_invariant(self);
        }
        self.end - self.start
    }

    /// Determines if the window is empty.
    pub fn is_empty(self) -> (r: bool)
        ensures
            r == (self@.size() == 0),
            self@.wf(),
    {
        proof {
            use_type_invariant(self);
        }
        self.start == self.end
    }

    /// Determines if the window contains the given offset.
    pub fn contains(self, offset: u64) -> (r: bool)
        ensures
            r == self@.contains(offset as int),
    {
        self.start <= offset && offset < self.end
    }

    /// Determines if the window fully contains the other window.
    pub fn contains_window(self, other: Window) -> (r: bool)
        ensures
            r == self@.contains_window(other@),
    {
        self.start <= other.start && other.end <= self.end
    }

    /// Determines if the window overlaps with the other window.
    pub fn overlaps(self, other: Window) -> (r: bool)
        ensures
            r == self@.overlaps(other@),
    {
        self.start < other.end && other.start < self.end
    }

    /// Returns the window as a [`core::ops::RangeInclusive`] instead, if it is non-empty.
    pub fn range_inclusive(self) -> (r: Option<core::ops::RangeInclusive<u64>>)
        ensures
            r is Some <==> inclusive_bounds(self@) is Some,
            r matches Some(range) ==> (range@.start as int, range@.end as int) == inclusive_bounds(
                self@,
            )->0 && !range@.exhausted,
    {
        if self.start < self.end {
            Some(core::ops::RangeInclusive::new(self.start, self.end - 1))
        } else {
            None
        }
    }

    /// Creates the window `start..=end`, i.e. the window that ends one past `end`.
    pub fn from_range_inclusive(start: u64, end: u64) -> (w: Window)
        requires
            end < u64::MAX,
        ensures
            w@ == window_from_inclusive(start as int, end as int),
    {
        Window::new(start, end + 1)
    }

    /// Returns the smaller windows of the given size that make up this window, in order.
    ///
    /// `self.size()` must be a multiple of `size`.
    pub fn subwindows_of_size(self, size: u64) -> (r: Vec<Window>)
        requires
            size > 0,
            self@.size() % size as int == 0,
        ensures
            r@.len() == self@.size() / size as int,
            forall|i: int|
                0 <= i < r@.len() ==> #[trigger] r@[i]@ == (WindowView {
                    start: (self@.start + i * size) as int,
                    end: (self@.start + (i + 1) * size) as int,
                }),
    {
        proof {
            use_type_invariant(self);
        }
        let count = (self.end - self.start) / size;
        let mut out: Vec<Window> = Vec::new();
        let mut i: u64 = 0;
        while i < count
            invariant
                self@.wf(),
                size > 0,
                count == self@.size() / size as int,
                self@.size() % size as int == 0,
                i <= count,
                out@.len() == i,
                forall|j: int|
                    0 <= j < i ==> #[trigger] out@[j]@ == (WindowView {
                        start: (self@.start + j * size) as int,
                        end: (self@.start + (j + 1) * size) as int,
                    }),
            decreases count - i,
        {
            proof {
                vstd::arithmetic::div_mod::lemma_fundamental_div_mod(self@.size(), size as int);
                vstd::arithmetic::mul::lemma_mul_inequality(i as int + 1, count as int, size as int);
                vstd::arithmetic::mul::lemma_mul_is_distributive_add_other_way(
                    size as int,
                    i as int,
                    1,
                );
                vstd::arithmetic::mul::lemma_mul_is_commutative(count as int, size as int);
            }
            let w = Window::from_start_len(self.start + i * size, size);
            out.push(w);
            i = i + 1;
        }
        out
    }

    /// Expands this window such that both the start and end are aligned to `align`.
    ///
    /// `align` must be a power of two.
    pub fn expand_to_align(self, align: u64) -> (w: Window)
        requires
            is_power_of_two(align),
            self@.end + align - 1 <= u64::MAX,
        ensures
            w@.start == spec_align_down(self@.start as int, align as int),
            w@.end == spec_align_up(self@.end as int, align as int),
            w@.contains_window(self@),
    {
        proof {
            use_type_invariant(self);
        }
        let start = align_down(self.start, align);
        let end = align_up(self.end, align);
        Window { start, end }
    }

    /// Returns three subwindows `(before, aligned, after)`.
    ///
    /// The second returned window has alignment `align` for both its start and end and will be
    /// fully contained in the given window if it exists.
    /// It will also be the maximum size window that fulfills these conditions.
    /// Any of the windows may be empty.
    /// All windows joined together will span the whole given window.
    ///
    /// `None` is returned if no aligned subwindow exists within `self`.
    ///
    /// `align` must be a power of two.
    pub fn align(self, align: u64) -> (r: Option<(Window, Window, Window)>)
        requires
            is_power_of_two(align),
            self@.start + align - 1 <= u64::MAX,
        ensures
            r is Some <== spec_align_up(self@.start as int, align as int) <= spec_align_down(
                self@.end as int,
                align as int,
            ),
            r is Some ==> spec_align_up(self@.start as int, align as int) <= spec_align_down(
                self@.end as int,
                align as int,
            ),
            r matches Some((before, aligned, after)) ==> {
                &&& before@.wf()
                &&& aligned@.wf()
                &&& after@.wf()
                &&& before@ == (WindowView {
                    start: self@.start,
                    end: spec_align_up(self@.start as int, align as int) as int,
                })
                &&& aligned@ == (WindowView {
                    start: spec_align_up(self@.start as int, align as int) as int,
                    end: spec_align_down(self@.end as int, align as int) as int,
                })
                &&& after@ == (WindowView {
                    start: spec_align_down(self@.end as int, align as int) as int,
                    end: self@.end,
                })
            },
    {
        proof {
            use_type_invariant(self);
        }
        let start = align_up(self.start, align);
        let end = align_down(self.end, align);

        if start <= end {
            Some(
                (
                    Window { start: self.start, end: start },
                    Window { start, end },
                    Window { start: end, end: self.end },
                ),
            )
        } else {
            None
        }
    }
}

/// The windows that `Window::align` splits a window into join back to the given window,
/// the middle part is aligned on both ends and lies inside the given window.
pub proof fn lemma_align_partitions(w: Window, align: u64, before: Window, aligned: Window, after: Window)
    requires
        is_power_of_two(align),
        w@.wf(),
        before@ == (WindowView {
            start: w@.start,
            end: spec_align_up(w@.start as int, align as int) as int,
        }),
        aligned@ == (WindowView {
            start: spec_align_up(w@.start as int, align as int) as int,
            end: spec_align_down(w@.end as int, align as int) as int,
        }),
        after@ == (WindowView {
            start: spec_align_down(w@.end as int, align as int) as int,
            end: w@.end,
        }),
    ensures
        before@.end == aligned@.start,
        aligned@.end == after@.start,
        before@.start == w@.start,
        after@.end == w@.end,
        aligned@.start % align as int == 0,
        aligned@.end % align as int == 0,
        w@.contains_window(aligned@),
        before@.size() < align,
        after@.size() < align,
{
    lemma_power_of_two_pos(align);
    let s = w@.start as int;
    let e = w@.end as int;
    let a = align as int;
    vstd::arithmetic::mul::lemma_mul_is_commutative(a, (s + a - 1) / a);
    vstd::arithmetic::mul::lemma_mul_is_commutative(a, e / a);
    vstd::arithmetic::div_mod::lemma_fundamental_div_mod(s + a - 1, a);
    vstd::arithmetic::div_mod::lemma_fundamental_div_mod(e, a);
    vstd::arithmetic::div_mod::lemma_mod_bound(s + a - 1, a);
    vstd::arithmetic::div_mod::lemma_mod_bound(e, a);
    vstd::arithmetic::div_mod::lemma_mod_multiples_basic((s + a - 1) / a, a);
    vstd::arithmetic::div_mod::lemma_mod_multiples_basic(e / a, a);
}

/// The aligned window that `Window::align` returns is the largest aligned window inside the
/// given one: every window inside `w` whose ends are multiples of `align` lies inside it.
pub proof fn lemma_align_is_maximal(w: Window, align: u64, other: WindowView)
    requires
        is_power_of_two(align),
        w@.contains_window(other),
        other.start <= other.end,
        other.start % align as int == 0,
        other.end % align as int == 0,
    ensures
        spec_align_up(w@.start as int, align as int) <= other.start,
        other.end <= spec_align_down(w@.end as int, align as int),
{
    let s = w@.start as int;
    let e = w@.end as int;
    let a = align as int;
    lemma_power_of_two_pos(align);
    vstd::arithmetic::div_mod::lemma_fundamental_div_mod(s + a - 1, a);
    vstd::arithmetic::div_mod::lemma_fundamental_div_mod(e, a);
    vstd::arithmetic::div_mod::lemma_fundamental_div_mod(other.start as int, a);
    vstd::arithmetic::div_mod::lemma_fundamental_div_mod(other.end as int, a);
    vstd::arithmetic::div_mod::lemma_mod_bound(s + a - 1, a);
    vstd::arithmetic::div_mod::lemma_mod_bound(e, a);
    // up = a * ((s + a - 1) / a); other.start = a * k1 with k1 * a >= s.
    let q = (s + a - 1) / a;
    let k1 = other.start as int / a;
    if k1 < q {
        vstd::arithmetic::mul::lemma_mul_inequality(k1 + 1, q, a);
        vstd::arithmetic::mul::lemma_mul_is_distributive_add_other_way(a, k1, 1);
        vstd::arithmetic::mul::lemma_mul_is_commutative(a, k1);
        vstd::arithmetic::mul::lemma_mul_is_commutative(a, q);
    }
    if k1 >= q {
        vstd::arithmetic::mul::lemma_mul_inequality(q, k1, a);
        vstd::arithmetic::mul::lemma_mul_is_commutative(a, k1);
        vstd::arithmetic::mul::lemma_mul_is_commutative(a, q);
    }
    let qe = e / a;
    let k2 = other.end as int / a;
    if k2 > qe {
        vstd::arithmetic::mul::lemma_mul_inequality(qe + 1, k2, a);
        vstd::arithmetic::mul::lemma_mul_is_distributive_add_other_way(a, qe, 1);
        vstd::arithmetic::mul::lemma_mul_is_commutative(a, k2);
        vstd::arithmetic::mul::lemma_mul_is_commutative(a, qe);
    }
    if k2 <= qe {
        vstd::arithmetic::mul::lemma_mul_inequality(k2, qe, a);
        vstd::arithmetic::mul::lemma_mul_is_commutative(a, k2);
        vstd::arithmetic::mul::lemma_mul_is_commutative(a, qe);
    }
}

} // verus!
