//! The tiers of stored statistics and the zones that decide which statistics are coarsened first.

use vstd::arithmetic::power2::{lemma2_to64, lemma2_to64_rest, lemma_pow2_adds, pow2};
use vstd::prelude::*;

use crate::statistics::metrics::MIN_SAMPLE_SIZE;
use crate::window::{is_power_of_two, Window};

verus! {

/// The branching factor of the tree.
///
/// This number determines how many child nodes must be joined to create the parent node.
pub const BRANCHING_FACTOR: u64 = 2;

/// The size of a leaf node in the tree.
pub const LEAF_NODE_SIZE: u64 = MIN_SAMPLE_SIZE;

/// The highest tier whose nodes have a size that fits into a `u64`.
pub const MAX_TIER: u8 = 53;

/// The size in bytes of the nodes of the tier with the given level.
pub open spec fn tier_size(level: nat) -> int {
    LEAF_NODE_SIZE * pow2(level)
}

/// A node is never smaller than a leaf.
pub proof fn lemma_tier_size_pos(level: nat)
    ensures
        tier_size(level) >= LEAF_NODE_SIZE,
{
    vstd::arithmetic::power2::lemma_pow2_pos(level);
    assert(LEAF_NODE_SIZE * pow2(level) >= LEAF_NODE_SIZE) by (nonlinear_arith)
        requires
            pow2(level) > 0,
    ;
}

/// A node of a tier is as large as `BRANCHING_FACTOR` nodes of the tier below.
pub proof fn lemma_tier_size_next(level: nat)
    ensures
        tier_size(level + 1) == BRANCHING_FACTOR * tier_size(level),
{
    lemma_pow2_adds(level, 1);
    lemma2_to64();
    assert(LEAF_NODE_SIZE * (pow2(level) * 2) == 2 * (LEAF_NODE_SIZE * pow2(level))) by (nonlinear_arith);
}

/// The size of a tier up to the highest is a power of two that fits into a `u64`.
pub proof fn lemma_tier_size_power_of_two(level: nat)
    requires
        level <= MAX_TIER,
    ensures
        is_power_of_two(tier_size(level) as u64),
        tier_size(level) <= 0x8000_0000_0000_0000,
{
    lemma2_to64();
    lemma2_to64_rest();
    lemma_pow2_adds(10, level);
    if level + 10 < 63 {
        vstd::arithmetic::power2::lemma_pow2_strictly_increases(level + 10, 63);
    }
    assert(pow2(level + 10) == tier_size(level));
    assert(pow2((level + 10) as nat) == (tier_size(level) as u64));
}

/// The tier of a node in the statistics tree.
///
/// Larger means a larger area is covered.
#[derive(Debug, Clone, Copy, PartialEq, Eq, Structural, PartialOrd, Ord)]
pub struct Tier(u8);

impl Tier {
    /// The level of the tier: `0` for leaves, one more for each step to the parent.
    pub closed spec fn level(&self) -> nat {
        self.0 as nat
    }

    /// The tier of a leaf node.
    pub fn leaf_tier() -> (r: Tier)
        ensures
            r.level() == 0,
    {
        Tier(0)
    }

    /// The tier with the given level.
    pub fn from_level(level: u8) -> (r: Tier)
        ensures
            r.level() == level,
    {
        Tier(level)
    }

    /// The level of the tier.
    pub fn level_u8(self) -> (r: u8)
        ensures
            r == self.level(),
    {
        self.0
    }

    /// The next larger tier.
    pub fn next(self) -> (r: Tier)
        requires
            self.level() < 255,
        ensures
            r.level() == self.level() + 1,
    {
        Tier(self.0 + 1)
    }

    /// The size of a node of the tier in bytes.
    pub fn size(self) -> (r: u64)
        requires
            self.level() <= MAX_TIER,
        ensures
            r == tier_size(self.level()),
    {
        let mut size: u64 = LEAF_NODE_SIZE;
        let mut i: u8 = 0;
        proof {
            lemma2_to64();
        }
        while i < self.0
            invariant
                i <= self.0 <= MAX_TIER,
                size == tier_size(i as nat),
            decreases self.0 - i,
        {
            proof {
                lemma2_to64();
                lemma2_to64_rest();
                lemma_pow2_adds(i as nat, 1);
                if i + 1 < 53 {
                    vstd::arithmetic::power2::lemma_pow2_strictly_increases(i as nat + 1, 53);
                }
            }
            size = size * BRANCHING_FACTOR;
            i = i + 1;
        }
        size
    }

    /// Finds the largest tier whose nodes fit into the given length, or the leaf tier if none
    /// does.
    pub fn fitting_tier(len: u64) -> (r: Tier)
        requires
            len < 0x8000_0000_0000_0000,
        ensures
            r.level() < MAX_TIER,
            r.level() == 0 || tier_size(r.level()) <= len,
            tier_size(r.level() + 1) > len,
    {
        let mut tier = Tier::leaf_tier();
        proof {
            lemma2_to64();
            lemma2_to64_rest();
        }
        while tier.next().size() <= len
            invariant
                tier.level() < MAX_TIER,
                len < 0x8000_0000_0000_0000,
                tier.level() == 0 || tier_size(tier.level()) <= len,
            decreases MAX_TIER - tier.level(),
        {
            proof {
                lemma2_to64_rest();

            }
            tier = tier.next();
        }
        tier
    }

    /// The maximum tier that should be computed at once.
    ///
    /// The reason for this to exist is to ensure that the background thread remains responsive.
    pub fn max_direct_tier() -> (r: Tier)
        ensures
            r.level() == 0 || tier_size(r.level()) <= 8 * 1024 * 1024,
            tier_size(r.level() + 1) > 8 * 1024 * 1024,
    {
        Tier::fitting_tier(8 * 1024 * 1024)
    }
}

/// The alignment that a section starting at `start` is given: `2^(s - 1)` for the first `s` in
/// `1..63` such that `start` is no multiple of `2^s`, and `2^63` if there is none.
pub open spec fn section_align_shift(start: u64, k: nat) -> bool {
    ||| k < 62 && start as nat % pow2(k) == 0 && start as nat % pow2(k + 1) != 0
    ||| k == 63 && start as nat % pow2(62) == 0
}

/// Selects the tier of the statistics to compute for a section of the input that starts at
/// `start` and is `size` bytes long: the largest tier whose nodes fit into the section and into
/// the alignment of its start (see [`section_align_shift`]), and at most the largest tier that is
/// computed at once ([`Tier::max_direct_tier`]); the leaf tier where none fits.
pub fn section_tier(start: u64, size: u64) -> (r: Tier)
    ensures
        exists|k: nat|
            #[trigger] section_align_shift(start, k) && {
                let len = vstd::math::min(
                    vstd::math::min(size as int, pow2(k) as int),
                    8 * 1024 * 1024int,
                );
                &&& r.level() < MAX_TIER
                &&& r.level() == 0 || tier_size(r.level()) <= len
                &&& tier_size(r.level() + 1) > len
            },
{
    proof {
        lemma2_to64();
    }
    let mut shift: u64 = 1;
    let mut found = false;
    while shift < 63 && !found
        invariant
            1 <= shift <= 63,
            forall|s: nat| s < shift ==> start as nat % #[trigger] pow2(s) == 0,
            found ==> shift < 63 && start as nat % pow2(shift as nat) != 0,
        decreases 63 - shift, if found {
            0int
        } else {
            1int
        },
    {
        proof {
            vstd::bits::lemma_u64_pow2_no_overflow(shift as nat);
            vstd::bits::lemma_u64_shl_is_mul(1, shift);
        }
        let unit: u64 = 1u64 << shift;
        if start % unit != 0 {
            found = true;
        } else {
            proof {
                assert forall|s: nat| s < shift + 1 implies start as nat % #[trigger] pow2(s) == 0 by {
                    if s == shift {
                        assert(unit == pow2(shift as nat));
                    }
                }
            }
            shift = shift + 1;
        }
    }
    let k: u64 = if found {
        shift - 1
    } else {
        63
    };
    proof {
        vstd::bits::lemma_u64_pow2_no_overflow(k as nat);
        vstd::bits::lemma_u64_shl_is_mul(1, k);
        if found {
            assert(start as nat % pow2(k as nat) == 0);
            assert(section_align_shift(start, k as nat));
        } else {
            assert(start as nat % pow2(62) == 0);
            assert(section_align_shift(start, k as nat));
        }
    }
    let align: u64 = 1u64 << k;
    let section_size: u64 = if size < align {
        size
    } else {
        align
    };
    let len: u64 = if section_size < 8 * 1024 * 1024 {
        section_size
    } else {
        8 * 1024 * 1024
    };
    Tier::fitting_tier(len)
}

/// Returns the priority zone of a node at the given offset.
///
/// Zone 0 is outside all windows (least important), zone `windows.len()`
/// is inside all windows (most important).
pub fn node_zone(offset: u64, windows: &[Window]) -> (r: usize)
    ensures
        r <= windows@.len(),
        forall|i: int| 0 <= i < r ==> (#[trigger] windows@[i])@.contains(offset as int),
        r < windows@.len() ==> !windows@[r as int]@.contains(offset as int),
{
    let mut i: usize = 0;
    while i < windows.len()
        invariant
            i <= windows@.len(),
            forall|j: int| 0 <= j < i ==> (#[trigger] windows@[j])@.contains(offset as int),
        decreases windows@.len() - i,
    {
        let w = windows[i];
        if offset < w.start() || offset >= w.end() {
            return i;
        }
        i = i + 1;
    }
    i
}

/// Returns the distance from the offset to the nearest edge of the next
/// higher-priority zone's boundary.
///
/// For the innermost zone (inside all windows), returns 0 since there is
/// no higher zone to measure distance from.
pub fn distance_from_higher_zone(offset: u64, zone: usize, windows: &[Window]) -> (r: u64)
    requires
        zone < windows@.len() ==> !windows@[zone as int]@.contains(offset as int),
    ensures
        zone >= windows@.len() ==> r == 0,
        zone < windows@.len() ==> r == (if offset < windows@[zone as int]@.start {
            windows@[zone as int]@.start - offset
        } else {
            offset - windows@[zone as int]@.end
        }),
{
    if zone >= windows.len() {
        return 0;
    }
    let window = windows[zone];
    if offset < window.start() {
        window.start() - offset
    } else {
        offset - window.end()
    }
}

} // verus!
