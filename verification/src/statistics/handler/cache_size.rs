//! Handles all code for deciding cache sizes.

use vstd::arithmetic::div_mod::lemma_mod_multiples_basic;
use vstd::arithmetic::power2::{lemma2_to64, lemma2_to64_rest, pow2};
use vstd::prelude::*;

use crate::window::is_power_of_two;

verus! {

/// The size of a cached window.
#[derive(Debug, Clone, Copy, PartialEq, Eq, Structural, Hash)]
pub enum CacheSize {
    /// The cached window is 8KiB large.
    ///
    /// There are 256 entries of this size.
    Size0,
    /// The cached window is 512KiB large.
    ///
    /// There are 256 entries of this size.
    Size1,
    /// The cached window is 32MiB large.
    ///
    /// There are 256 entries of this size.
    Size2,
    /// The cached window is 2GiB large.
    ///
    /// There are 256 entries of this size.
    Size3,
    /// The cached window is 128GiB large.
    ///
    /// There are 256 entries of this size.
    Size4,
    /// The cached window is 8TiB large.
    ///
    /// There are 256 entries of this size.
    Size5,
    /// The cached window is 512TiB large.
    ///
    /// There are 256 entries of this size.
    Size6,
    /// The cached window is 2PiB large.
    ///
    /// There are 256 entries of this size.
    Size7,
    /// The cached window is 32PiB large.
    ///
    /// There are 256 entries of this size.
    Size8,
    /// The cached window is 128PiB large.
    ///
    /// There are 256 entries of this size.
    Size9,
    /// The cached window is 8EiB large.
    ///
    /// There is 1 entry of this size.
    Size10,
}

/// The number of cache sizes.
pub const NUM_SIZES: usize = 11;

impl CacheSize {
    /// The size of the cache entry in bytes.
    pub open spec fn spec_size(self) -> u64 {
        match self {
            CacheSize::Size0 => 0x2000,
            CacheSize::Size1 => 0x8_0000,
            CacheSize::Size2 => 0x200_0000,
            CacheSize::Size3 => 0x8000_0000,
            CacheSize::Size4 => 0x20_0000_0000,
            CacheSize::Size5 => 0x800_0000_0000,
            CacheSize::Size6 => 0x2_0000_0000_0000,
            CacheSize::Size7 => 0x8_0000_0000_0000,
            CacheSize::Size8 => 0x80_0000_0000_0000,
            CacheSize::Size9 => 0x200_0000_0000_0000,
            CacheSize::Size10 => 0x8000_0000_0000_0000,
        }
    }

    /// The position of the cache size in the list of cache sizes.
    pub open spec fn spec_index(self) -> nat {
        match self {
            CacheSize::Size0 => 0,
            CacheSize::Size1 => 1,
            CacheSize::Size2 => 2,
            CacheSize::Size3 => 3,
            CacheSize::Size4 => 4,
            CacheSize::Size5 => 5,
            CacheSize::Size6 => 6,
            CacheSize::Size7 => 7,
            CacheSize::Size8 => 8,
            CacheSize::Size9 => 9,
            CacheSize::Size10 => 10,
        }
    }

    /// The cache size at the given position, if there is one.
    pub open spec fn spec_from_index(index: int) -> Option<CacheSize> {
        if index == 0 {
            Some(CacheSize::Size0)
        } else if index == 1 {
            Some(CacheSize::Size1)
        } else if index == 2 {
            Some(CacheSize::Size2)
        } else if index == 3 {
            Some(CacheSize::Size3)
        } else if index == 4 {
            Some(CacheSize::Size4)
        } else if index == 5 {
            Some(CacheSize::Size5)
        } else if index == 6 {
            Some(CacheSize::Size6)
        } else if index == 7 {
            Some(CacheSize::Size7)
        } else if index == 8 {
            Some(CacheSize::Size8)
        } else if index == 9 {
            Some(CacheSize::Size9)
        } else if index == 10 {
            Some(CacheSize::Size10)
        } else {
            None
        }
    }

    /// The cache size with the given number of bytes, if there is one.
    pub open spec fn spec_from_size(value: u64) -> Option<CacheSize> {
        if value == CacheSize::Size0.spec_size() {
            Some(CacheSize::Size0)
        } else if value == CacheSize::Size1.spec_size() {
            Some(CacheSize::Size1)
        } else if value == CacheSize::Size2.spec_size() {
            Some(CacheSize::Size2)
        } else if value == CacheSize::Size3.spec_size() {
            Some(CacheSize::Size3)
        } else if value == CacheSize::Size4.spec_size() {
            Some(CacheSize::Size4)
        } else if value == CacheSize::Size5.spec_size() {
            Some(CacheSize::Size5)
        } else if value == CacheSize::Size6.spec_size() {
            Some(CacheSize::Size6)
        } else if value == CacheSize::Size7.spec_size() {
            Some(CacheSize::Size7)
        } else if value == CacheSize::Size8.spec_size() {
            Some(CacheSize::Size8)
        } else if value == CacheSize::Size9.spec_size() {
            Some(CacheSize::Size9)
        } else if value == CacheSize::Size10.spec_size() {
            Some(CacheSize::Size10)
        } else {
            None
        }
    }

    /// The number of cache entries of this size.
    pub open spec fn spec_num_entries(self) -> usize {
        match self {
            CacheSize::Size10 => 1,
            _ => 256,
        }
    }

    /// The size of the cache entry.
    pub fn size(self) -> (r: u64)
        ensures
            r == self.spec_size(),
    {
        match self {
            CacheSize::Size0 => 8 * 1024,
            CacheSize::Size1 => 512 * 1024,
            CacheSize::Size2 => 32 * 1024 * 1024,
            CacheSize::Size3 => 2 * 1024 * 1024 * 1024,
            CacheSize::Size4 => 128 * 1024 * 1024 * 1024,
            CacheSize::Size5 => 8 * 1024 * 1024 * 1024 * 1024,
            CacheSize::Size6 => 512 * 1024 * 1024 * 1024 * 1024,
            CacheSize::Size7 => 2 * 1024 * 1024 * 1024 * 1024 * 1024,
            CacheSize::Size8 => 32 * 1024 * 1024 * 1024 * 1024 * 1024,
            CacheSize::Size9 => 128 * 1024 * 1024 * 1024 * 1024 * 1024,
            CacheSize::Size10 => 8 * 1024 * 1024 * 1024 * 1024 * 1024 * 1024,
        }
    }

    /// Turns this cache size into an index.
    pub fn index(self) -> (r: usize)
        ensures
            r == self.spec_index(),
    {
        match self {
            CacheSize::Size0 => 0,
            CacheSize::Size1 => 1,
            CacheSize::Size2 => 2,
            CacheSize::Size3 => 3,
            CacheSize::Size4 => 4,
            CacheSize::Size5 => 5,
            CacheSize::Size6 => 6,
            CacheSize::Size7 => 7,
            CacheSize::Size8 => 8,
            CacheSize::Size9 => 9,
            CacheSize::Size10 => 10,
        }
    }

    /// Turns an index into a cache size.
    pub fn try_from_index(index: usize) -> (r: Option<CacheSize>)
        ensures
            r == CacheSize::spec_from_index(index as int),
    {
        match index {
            0 => Some(CacheSize::Size0),
            1 => Some(CacheSize::Size1),
            2 => Some(CacheSize::Size2),
            3 => Some(CacheSize::Size3),
            4 => Some(CacheSize::Size4),
            5 => Some(CacheSize::Size5),
            6 => Some(CacheSize::Size6),
            7 => Some(CacheSize::Size7),
            8 => Some(CacheSize::Size8),
            9 => Some(CacheSize::Size9),
            10 => Some(CacheSize::Size10),
            _ => None,
        }
    }

    /// Returns the number of entries to use for this cache size.
    pub fn num_entries(self) -> (r: usize)
        ensures
            r == self.spec_num_entries(),
    {
        match self {
            CacheSize::Size10 => 1,
            _ => 256,
        }
    }

    /// The smallest cache size.
    pub fn smallest() -> (r: CacheSize)
        ensures
            r == CacheSize::spec_from_index(0)->0,
    {
        CacheSize::Size0
    }

    /// The next cache size.
    pub fn next(self) -> (r: Option<CacheSize>)
        ensures
            r == CacheSize::spec_from_index(self.spec_index() as int + 1),
    {
        CacheSize::try_from_index(self.index() + 1)
    }

    /// Lists the different cache sizes from small to large.
    pub fn iter_through_sizes() -> (r: Vec<CacheSize>)
        ensures
            r@.len() == NUM_SIZES,
            forall|i: int| 0 <= i < r@.len() ==> Some(#[trigger] r@[i]) == CacheSize::spec_from_index(i),
            forall|i: int, j: int|
                0 <= i < j < r@.len() ==> (#[trigger] r@[i]).spec_size() < (#[trigger] r@[j]).spec_size(),
    {
        let mut out: Vec<CacheSize> = Vec::new();
        let mut i: usize = 0;
        while i < NUM_SIZES
            invariant
                i <= NUM_SIZES,
                out@.len() == i,
                forall|j: int| 0 <= j < i ==> Some(#[trigger] out@[j]) == CacheSize::spec_from_index(j),
            decreases NUM_SIZES - i,
        {
            match CacheSize::try_from_index(i) {
                Some(size) => out.push(size),
                None => {
                    // unreachable: every index below the number of sizes names a size
                },
            }
            i = i + 1;
        }
        out
    }

    /// Every index names a cache size exactly when it is below the number of sizes, and the
    /// index of the size it names is the index itself.
    pub proof fn lemma_index_roundtrip(index: int)
        ensures
            CacheSize::spec_from_index(index) is Some <==> 0 <= index < NUM_SIZES,
            CacheSize::spec_from_index(index) matches Some(size) ==> size.spec_index() == index,
    {
    }

    /// Every cache size is a power of two.
    pub proof fn lemma_size_is_power_of_two(self)
        ensures
            is_power_of_two(self.spec_size()),
    {
        lemma2_to64();
        lemma2_to64_rest();
        match self {
            CacheSize::Size0 => assert(pow2(13) == self.spec_size()),
            CacheSize::Size1 => assert(pow2(19) == self.spec_size()),
            CacheSize::Size2 => assert(pow2(25) == self.spec_size()),
            CacheSize::Size3 => assert(pow2(31) == self.spec_size()),
            CacheSize::Size4 => assert(pow2(37) == self.spec_size()),
            CacheSize::Size5 => assert(pow2(43) == self.spec_size()),
            CacheSize::Size6 => assert(pow2(49) == self.spec_size()),
            CacheSize::Size7 => assert(pow2(51) == self.spec_size()),
            CacheSize::Size8 => assert(pow2(55) == self.spec_size()),
            CacheSize::Size9 => assert(pow2(57) == self.spec_size()),
            CacheSize::Size10 => assert(pow2(63) == self.spec_size()),
        }
    }

    /// Each cache size is a multiple of the one before it.
    pub proof fn lemma_next_divides(self)
        ensures
            CacheSize::spec_from_index(self.spec_index() as int + 1) matches Some(next)
                ==> next.spec_size() % self.spec_size() == 0,
    {
        match self {
            CacheSize::Size0 => lemma_mod_multiples_basic(0x40, 0x2000),
            CacheSize::Size1 => lemma_mod_multiples_basic(0x40, 0x8_0000),
            CacheSize::Size2 => lemma_mod_multiples_basic(0x40, 0x200_0000),
            CacheSize::Size3 => lemma_mod_multiples_basic(0x40, 0x8000_0000),
            CacheSize::Size4 => lemma_mod_multiples_basic(0x40, 0x20_0000_0000),
            CacheSize::Size5 => lemma_mod_multiples_basic(0x40, 0x800_0000_0000),
            CacheSize::Size6 => lemma_mod_multiples_basic(0x4, 0x2_0000_0000_0000),
            CacheSize::Size7 => lemma_mod_multiples_basic(0x10, 0x8_0000_0000_0000),
            CacheSize::Size8 => lemma_mod_multiples_basic(0x4, 0x80_0000_0000_0000),
            CacheSize::Size9 => lemma_mod_multiples_basic(0x40, 0x200_0000_0000_0000),
            CacheSize::Size10 => {},
        }
    }
}

impl vstd::std_specs::convert::TryFromSpecImpl<u64> for CacheSize {
    open spec fn obeys_try_from_spec() -> bool {
        true
    }

    open spec fn try_from_spec(value: u64) -> Result<CacheSize, ()> {
        match CacheSize::spec_from_size(value) {
            Some(size) => Ok(size),
            None => Err(()),
        }
    }
}

impl TryFrom<u64> for CacheSize {
    type Error = ();

    /// Finds the cache size with the given number of bytes.
    fn try_from(value: u64) -> (r: Result<CacheSize, ()>)
        ensures
            r is Ok <==> exists|size: CacheSize| #[trigger] size.spec_size() == value,
            r matches Ok(size) ==> size.spec_size() == value,
    {
        let sizes = CacheSize::iter_through_sizes();
        let mut i: usize = 0;
        while i < sizes.len()
            invariant
                i <= sizes@.len() == NUM_SIZES,
                forall|j: int| 0 <= j < sizes@.len() ==> Some(#[trigger] sizes@[j]) == CacheSize::spec_from_index(j),
                forall|j: int| 0 <= j < i ==> (#[trigger] sizes@[j]).spec_size() != value,
            decreases sizes.len() - i,
        {
            let size = sizes[i];
            if size.size() == value {
                return Ok(size);
            }
            i = i + 1;
        }
        proof {
            assert forall|size: CacheSize| #[trigger] size.spec_size() != value by {
                assert(sizes@[size.spec_index() as int] == size);
            }
        }
        Err(())
    }
}

} // verus!
