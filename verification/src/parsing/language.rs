//! Implements the language used to describe parsers of binary formats.

pub mod ast;

use malachite_nz::integer::Integer;
use malachite_nz::natural::Natural;
use vstd::prelude::*;

verus! {

/// The base of the limbs of an integer.
pub open spec fn limb_base() -> int {
    0x1_0000_0000_0000_0000
}

/// The number that little-endian base-`2^64` limbs stand for.
pub open spec fn limbs_value(limbs: Seq<u64>) -> nat
    decreases limbs.len(),
{
    if limbs.len() == 0 {
        0
    } else {
        (limbs[0] + limb_base() * limbs_value(limbs.drop_first())) as nat
    }
}

/// The limbs have no trailing zero limb.
pub open spec fn limbs_normalized(limbs: Seq<u64>) -> bool {
    limbs.len() > 0 ==> limbs.last() != 0
}

/// A single limb stands for itself.
proof fn lemma_single_limb(limbs: Seq<u64>)
    requires
        limbs.len() == 1,
    ensures
        limbs_value(limbs) == limbs[0],
{
    assert(limbs.drop_first() == Seq::<u64>::empty());
    assert(limbs_value(Seq::<u64>::empty()) == 0);
}

/// Normalized limbs stand for a positive number unless there are none, and for a number of at
/// least `2^64` if there are two or more.
proof fn lemma_limbs_value_bounds(limbs: Seq<u64>)
    requires
        limbs_normalized(limbs),
    ensures
        limbs.len() > 0 ==> limbs_value(limbs) > 0,
        limbs.len() > 1 ==> limbs_value(limbs) >= limb_base(),
    decreases limbs.len(),
{
    if limbs.len() > 1 {
        let rest = limbs.drop_first();
        assert(rest.last() == limbs.last());
        lemma_limbs_value_bounds(rest);
        assert(limb_base() * limbs_value(rest) >= limb_base()) by (nonlinear_arith)
            requires
                limbs_value(rest) > 0,
        ;
    }
}

/// Normalized limbs that stand for the same number are the same.
proof fn lemma_limbs_value_injective(a: Seq<u64>, b: Seq<u64>)
    requires
        limbs_normalized(a),
        limbs_normalized(b),
        limbs_value(a) == limbs_value(b),
    ensures
        a == b,
    decreases a.len(),
{
    lemma_limbs_value_bounds(a);
    lemma_limbs_value_bounds(b);
    if a.len() > 0 && b.len() > 0 {
        let ra = a.drop_first();
        let rb = b.drop_first();
        let va = limbs_value(ra);
        let vb = limbs_value(rb);
        assert(a[0] == b[0] && va == vb) by (nonlinear_arith)
            requires
                a[0] + limb_base() * va == b[0] + limb_base() * vb,
                0 <= a[0] < limb_base(),
                0 <= b[0] < limb_base(),
                va >= 0,
                vb >= 0,
                limb_base() == 0x1_0000_0000_0000_0000,
        ;
        if ra.len() > 0 {
            assert(ra.last() == a.last());
        }
        if rb.len() > 0 {
            assert(rb.last() == b.last());
        }
        lemma_limbs_value_injective(ra, rb);
        assert(a == seq![a[0]] + ra);
        assert(b == seq![b[0]] + rb);
    }
}

/// The type used for integers in the language: an integer of any size.
///
/// The magnitude is held as normalized little-endian base-`2^64` limbs.
pub struct Int {
    /// Whether the integer is below zero.
    negative: bool,
    /// The limbs of the magnitude, least significant first, with no trailing zero limb.
    limbs: Vec<u64>,
}

impl Int {
    #[verifier::type_invariant]
    spec fn inv(&self) -> bool {
        &&& limbs_normalized(self.limbs@)
        &&& self.negative ==> self.limbs@.len() > 0
    }

    /// The number that the integer stands for.
    pub closed spec fn value(&self) -> int {
        if self.negative {
            -limbs_value(self.limbs@)
        } else {
            limbs_value(self.limbs@) as int
        }
    }

    /// The integer `value`.
    pub fn from_u64(value: u64) -> (r: Int)
        ensures
            r@ == value,
    {
        let mut limbs: Vec<u64> = Vec::new();
        if value != 0 {
            limbs.push(value);
        }
        proof {
            if value != 0 {
                lemma_single_limb(limbs@);
            }
        }
        Int { negative: false, limbs }
    }

    /// The integer `value`.
    pub fn from_i64(value: i64) -> (r: Int)
        ensures
            r@ == value,
    {
        if value >= 0 {
            Int::from_u64(value as u64)
        } else {
            let magnitude: u64 = if value == i64::MIN {
                0x8000_0000_0000_0000
            } else {
                (-value) as u64
            };
            let mut limbs: Vec<u64> = Vec::new();
            limbs.push(magnitude);
            proof {
                lemma_single_limb(limbs@);
            }
            Int { negative: true, limbs }
        }
    }

    /// The integer `value`.
    pub fn from_i128(value: i128) -> (r: Int)
        ensures
            r@ == value,
    {
        let negative = value < 0;
        let magnitude: u128 = if value == i128::MIN {
            0x8000_0000_0000_0000_0000_0000_0000_0000
        } else if negative {
            (-value) as u128
        } else {
            value as u128
        };
        let low = (magnitude % 0x1_0000_0000_0000_0000) as u64;
        let high = (magnitude / 0x1_0000_0000_0000_0000) as u64;
        let mut limbs: Vec<u64> = Vec::new();
        if high != 0 {
            limbs.push(low);
            limbs.push(high);
            proof {
                assert(limbs@.drop_first() =~= seq![high]);
                lemma_single_limb(limbs@.drop_first());
            }
        } else if low != 0 {
            limbs.push(low);
            proof {
                lemma_single_limb(limbs@);
            }
        }
        proof {
            assert(limbs_value(Seq::<u64>::empty()) == 0);
        }
        Int { negative: negative, limbs }
    }

    /// Whether the integer is below zero.
    pub fn is_negative(&self) -> (r: bool)
        ensures
            r == (self.value() < 0),
    {
        proof {
            use_type_invariant(self);
            lemma_limbs_value_bounds(self.limbs@);
        }
        self.negative
    }

    /// The magnitude of the integer as normalized little-endian base-`2^64` limbs.
    pub fn magnitude_limbs(&self) -> (r: Vec<u64>)
        ensures
            limbs_normalized(r@),
            limbs_value(r@) == if self.value() < 0 {
                -self.value()
            } else {
                self.value()
            },
    {
        proof {
            use_type_invariant(self);
        }
        self.limbs.clone()
    }

    /// The integer as a `u64`, if it lies in the range of `u64`.
    pub fn to_u64(&self) -> (r: Option<u64>)
        ensures
            r is Some <==> 0 <= self@ <= u64::MAX,
            r matches Some(v) ==> v == self@,
    {
        proof {
            use_type_invariant(self);
            lemma_limbs_value_bounds(self.limbs@);
        }
        if self.negative || self.limbs.len() > 1 {
            None
        } else if self.limbs.len() == 0 {
            Some(0)
        } else {
            proof {
                lemma_single_limb(self.limbs@);
            }
            Some(self.limbs[0])
        }
    }

    /// Whether the two integers are equal.
    pub fn equals(&self, other: &Int) -> (r: bool)
        ensures
            r == (self@ == other@),
    {
        proof {
            use_type_invariant(self);
            use_type_invariant(other);
            lemma_limbs_value_bounds(self.limbs@);
            lemma_limbs_value_bounds(other.limbs@);
            if self@ == other@ {
                assert(self.negative == other.negative);
                assert(limbs_value(self.limbs@) == limbs_value(other.limbs@));
                lemma_limbs_value_injective(self.limbs@, other.limbs@);
                assert(self.limbs@ == other.limbs@);
            }
        }
        if self.negative != other.negative || self.limbs.len() != other.limbs.len() {
            return false;
        }
        let mut i: usize = 0;
        while i < self.limbs.len()
            invariant
                i <= self.limbs@.len() == other.limbs@.len(),
                forall|j: int| 0 <= j < i ==> self.limbs@[j] == other.limbs@[j],
                self@ == other@ ==> self.limbs@ == other.limbs@,
                self.negative == other.negative,
            decreases self.limbs@.len() - i,
        {
            if self.limbs[i] != other.limbs[i] {
                return false;
            }
            i = i + 1;
        }
        proof {
            assert(self.limbs@ == other.limbs@);
        }
        true
    }

    /// The sum of two integers.
    ///
    /// Calls `Add` of `malachite_nz::integer::Integer`, which adds exactly; its limbs, as
    /// `Natural::to_limbs_asc` returns them, have no trailing zero, and only a nonzero result
    /// is negative.
    #[verifier::external_body]
    pub fn add(&self, other: &Int) -> (r: Int)
        ensures
            r@ == self@ + other@,
    {
        let x = Integer::from_sign_and_abs(!self.negative, Natural::from_limbs_asc(&self.limbs));
        let y = Integer::from_sign_and_abs(!other.negative, Natural::from_limbs_asc(&other.limbs));
        let z = x + y;
        Int { negative: z < 0i32, limbs: z.unsigned_abs_ref().to_limbs_asc() }
    }

    /// The difference of two integers.
    ///
    /// Calls `Sub` of `malachite_nz::integer::Integer`, which subtracts exactly; its limbs, as
    /// `Natural::to_limbs_asc` returns them, have no trailing zero, and only a nonzero result
    /// is negative.
    #[verifier::external_body]
    pub fn sub(&self, other: &Int) -> (r: Int)
        ensures
            r@ == self@ - other@,
    {
        let x = Integer::from_sign_and_abs(!self.negative, Natural::from_limbs_asc(&self.limbs));
        let y = Integer::from_sign_and_abs(!other.negative, Natural::from_limbs_asc(&other.limbs));
        let z = x - y;
        Int { negative: z < 0i32, limbs: z.unsigned_abs_ref().to_limbs_asc() }
    }
}

impl View for Int {
    type V = int;

    closed spec fn view(&self) -> int {
        self.value()
    }
}

impl Clone for Int {
    fn clone(&self) -> (r: Int)
        ensures
            r@ == self@,
    {
        proof {
            use_type_invariant(self);
        }
        Int { negative: self.negative, limbs: self.limbs.clone() }
    }
}

} // verus!
