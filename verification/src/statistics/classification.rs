//! Implements the integer parts of the classification of byte statistics.
//!
//! Classification compares quantized square roots of smoothed bigram probabilities (the
//! Hellinger affinity): a value of `0` stands for `0.0` and `u16::MAX` for `1.0`. The score is the
//! sum of the products of corresponding values, which divided by `u16::MAX * u16::MAX` gives the
//! affinity. The score is compared to thresholds that depend on the size of the window that the
//! statistics cover.

use vstd::prelude::*;

verus! {

/// The size of a KiB in bytes.
pub const KIB: u64 = 1024;

/// The size of a MiB in bytes.
pub const MIB: u64 = 1048576;

/// The sum of the products `p[i] * q[i]` for `i` in `0..n`.
pub open spec fn dot(p: Seq<u16>, q: Seq<u16>, n: int) -> int
    decreases n,
{
    if n <= 0 {
        0
    } else {
        dot(p, q, n - 1) + p[n - 1] * q[n - 1]
    }
}

/// Each product is less than `2^32`.
proof fn lemma_dot_bound(p: Seq<u16>, q: Seq<u16>, n: int)
    requires
        0 <= n <= p.len(),
        n <= q.len(),
    ensures
        0 <= dot(p, q, n) <= n * 0x1_0000_0000,
    decreases n,
{
    if n > 0 {
        lemma_dot_bound(p, q, n - 1);
        let a = p[n - 1];
        let b = q[n - 1];
        assert(0 <= a * b < 0x1_0000_0000) by (nonlinear_arith)
            requires
                a < 0x1_0000,
                b < 0x1_0000,
        ;
    }
}

/// Computes the score of quantized statistics against the classification data: the sum of the
/// products of corresponding values.
///
/// Dividing the score by `u16::MAX * u16::MAX` gives the Hellinger affinity.
pub fn compute_score(quantized_statistics: &Vec<u16>, classification_data: &Vec<u16>) -> (r: u64)
    requires
        quantized_statistics@.len() == 65536,
        classification_data@.len() == 65536,
    ensures
        r == dot(quantized_statistics@, classification_data@, 65536),
{
    let mut score: u64 = 0;
    let mut i: usize = 0;
    while i < 65536
        invariant
            i <= 65536,
            quantized_statistics@.len() == 65536,
            classification_data@.len() == 65536,
            score == dot(quantized_statistics@, classification_data@, i as int),
        decreases 65536 - i,
    {
        proof {
            lemma_dot_bound(quantized_statistics@, classification_data@, i + 1);
        }
        let p = quantized_statistics[i] as u64;
        let q = classification_data[i] as u64;
        score = score + p * q;
        i = i + 1;
    }
    score
}

/// The sample sizes for which the classification data holds a minimum score.
#[derive(Debug, Clone, Copy, PartialEq, Eq, Structural)]
pub enum ScoreThreshold {
    /// No sample: the minimum score is `0.0`.
    Zero,
    /// The minimum score for a 32KiB sample.
    Kib32,
    /// The minimum score for a 128KiB sample.
    Kib128,
    /// The minimum score for a 1MiB sample.
    Mib1,
    /// The minimum score for a 8MiB sample.
    Mib8,
}

/// The sample sizes between which the number of covered bytes lies, and the thresholds at these
/// sizes, as `(lower_bound, upper_bound, lower_threshold, upper_threshold)`.
///
/// The minimum score of a class interpolates linearly between the two thresholds.
pub open spec fn spec_score_bounds(total_count: u64) -> (u64, u64, ScoreThreshold, ScoreThreshold) {
    if total_count < 32 * KIB {
        (0u64, 32768u64, ScoreThreshold::Zero, ScoreThreshold::Kib32)
    } else if total_count < 128 * KIB {
        (32768u64, 131072u64, ScoreThreshold::Kib32, ScoreThreshold::Kib128)
    } else if total_count < MIB {
        (131072u64, MIB, ScoreThreshold::Kib128, ScoreThreshold::Mib1)
    } else if total_count < 8 * MIB {
        (MIB, 8388608u64, ScoreThreshold::Mib1, ScoreThreshold::Mib8)
    } else {
        (8388608u64, u64::MAX, ScoreThreshold::Mib8, ScoreThreshold::Mib8)
    }
}

/// Selects the sample sizes and thresholds between which the minimum score of a class
/// interpolates for statistics that cover `total_count` bytes.
pub fn score_bounds(total_count: u64) -> (r: (u64, u64, ScoreThreshold, ScoreThreshold))
    ensures
        r == spec_score_bounds(total_count),
        r.0 <= total_count < r.1 || total_count == u64::MAX,
{
    if total_count < 32 * KIB {
        (0, 32 * KIB, ScoreThreshold::Zero, ScoreThreshold::Kib32)
    } else if total_count < 128 * KIB {
        (32 * KIB, 128 * KIB, ScoreThreshold::Kib32, ScoreThreshold::Kib128)
    } else if total_count < MIB {
        (128 * KIB, MIB, ScoreThreshold::Kib128, ScoreThreshold::Mib1)
    } else if total_count < 8 * MIB {
        (MIB, 8 * MIB, ScoreThreshold::Mib1, ScoreThreshold::Mib8)
    } else {
        (8 * MIB, u64::MAX, ScoreThreshold::Mib8, ScoreThreshold::Mib8)
    }
}

} // verus!
