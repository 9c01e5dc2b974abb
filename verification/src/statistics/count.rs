//! Unsigned integer widths used to store counts.

use vstd::prelude::*;

verus! {

/// An unsigned integer type that counts occurrences.
///
/// Statistics over small windows use narrow counts to save memory.
pub trait CountValue: Copy + Sized {
    /// The number that the count stands for.
    spec fn as_nat(self) -> nat;

    /// The largest number the count can hold.
    spec fn max_value() -> nat;

    /// Every count lies within its range, and every range fits into a `u64`.
    proof fn lemma_bounds(self)
        ensures
            self.as_nat() <= Self::max_value(),
            Self::max_value() <= u64::MAX,
    ;

    /// The count `0`.
    fn zero() -> (r: Self)
        ensures
            r.as_nat() == 0,
    ;

    /// The count `value`.
    fn from_u64(value: u64) -> (r: Self)
        requires
            value <= Self::max_value(),
        ensures
            r.as_nat() == value,
    ;

    /// The count as a `u64`.
    fn to_u64(self) -> (r: u64)
        ensures
            r == self.as_nat(),
    ;

    /// The sum of two counts.
    fn add(self, other: Self) -> (r: Self)
        requires
            self.as_nat() + other.as_nat() <= Self::max_value(),
        ensures
            r.as_nat() == self.as_nat() + other.as_nat(),
    ;

    /// The count one less.
    fn decrement(self) -> (r: Self)
        requires
            self.as_nat() > 0,
        ensures
            r.as_nat() == self.as_nat() - 1,
    ;
}

impl CountValue for u16 {
    open spec fn as_nat(self) -> nat {
        self as nat
    }

    open spec fn max_value() -> nat {
        u16::MAX as nat
    }

    proof fn lemma_bounds(self) {
    }

    fn zero() -> (r: u16) {
        0
    }

    fn from_u64(value: u64) -> (r: u16) {
        value as u16
    }

    fn to_u64(self) -> (r: u64) {
        self as u64
    }

    fn add(self, other: u16) -> (r: u16) {
        self + other
    }

    fn decrement(self) -> (r: u16) {
        self - 1
    }
}

impl CountValue for u32 {
    open spec fn as_nat(self) -> nat {
        self as nat
    }

    open spec fn max_value() -> nat {
        u32::MAX as nat
    }

    proof fn lemma_bounds(self) {
    }

    fn zero() -> (r: u32) {
        0
    }

    fn from_u64(value: u64) -> (r: u32) {
        value as u32
    }

    fn to_u64(self) -> (r: u64) {
        self as u64
    }

    fn add(self, other: u32) -> (r: u32) {
        self + other
    }

    fn decrement(self) -> (r: u32) {
        self - 1
    }
}

impl CountValue for u64 {
    open spec fn as_nat(self) -> nat {
        self as nat
    }

    open spec fn max_value() -> nat {
        u64::MAX as nat
    }

    proof fn lemma_bounds(self) {
    }

    fn zero() -> (r: u64) {
        0
    }

    fn from_u64(value: u64) -> (r: u64) {
        value
    }

    fn to_u64(self) -> (r: u64) {
        self
    }

    fn add(self, other: u64) -> (r: u64) {
        self + other
    }

    fn decrement(self) -> (r: u64) {
        self - 1
    }
}

} // verus!
