//! Metrics of windows as the scrollbars show them, and the bins they are computed over.

use std::sync::atomic::AtomicU32;
use std::sync::atomic::Ordering;

use vstd::prelude::*;

use vstd::arithmetic::div_mod::{lemma_div_basics, lemma_div_denominator};
use vstd::arithmetic::power2::{
    lemma2_to64, lemma2_to64_rest, lemma_pow2_adds, lemma_pow2_strictly_increases, lemma_pow2_unfold,
    pow2,
};

use crate::window::{is_power_of_two, spec_align_down, spec_align_up, Window};

verus! {

/// The size of the minimum sample window for derived metrics.
pub const MIN_SAMPLE_SIZE: u64 = 1024;

/// The metrics of a window, each scaled to a byte.
#[derive(Debug, Clone, Copy, PartialEq, Eq, Structural)]
pub struct StatisticsMetrics {
    /// The entropy of the window.
    pub entropy: u8,
    /// The share of printable ASCII characters in the window.
    pub printable_ascii: u8,
    /// The average difference between adjacent bytes in the window.
    pub byte_delta: u8,
}

/// The quality of a returned metrics.
#[derive(Debug, Clone, Copy, PartialEq, Eq, Structural)]
pub enum MetricsQuality {
    /// The metrics are estimated.
    Estimated,
    /// The metrics are accurately computed.
    Accurate,
}

impl MetricsQuality {
    /// Whether or not the metrics where estimated or accurate.
    pub fn is_estimated(&self) -> (r: bool)
        ensures
            r == (*self == MetricsQuality::Estimated),
    {
        match self {
            MetricsQuality::Estimated => true,
            MetricsQuality::Accurate => false,
        }
    }
}

/// The different computation modes for metrics computations.
#[derive(Debug, Clone, Copy, PartialEq, Eq, Structural)]
pub enum ComputationMode {
    /// Estimate metrics quickly.
    Estimation,
    /// Perform full-quality metrics computations.
    FullQuality,
}

/// Represents that some work was finished.
pub struct FinishedWork;

/// The status byte that marks a slot: `0` for an empty slot, `1` for estimated and `2` for
/// accurate metrics.
pub open spec fn status_of(quality: MetricsQuality) -> u32 {
    match quality {
        MetricsQuality::Estimated => 1,
        MetricsQuality::Accurate => 2,
    }
}

/// The slot value that holds the given metrics: the status in the lowest byte, then entropy,
/// printable ASCII share and byte delta.
pub open spec fn spec_encode(metrics: StatisticsMetrics, quality: MetricsQuality) -> u32 {
    (metrics.byte_delta as u32 * 0x100_0000 + metrics.printable_ascii as u32 * 0x1_0000
        + metrics.entropy as u32 * 0x100 + status_of(quality)) as u32
}

/// What a slot value holds: nothing if its status byte is `0`, else the metrics in the upper
/// bytes, estimated if the status is `1` and accurate otherwise.
pub open spec fn spec_decode(raw: u32) -> (Option<StatisticsMetrics>, MetricsQuality) {
    let status = raw % 0x100;
    if status == 0 {
        (None, MetricsQuality::Estimated)
    } else {
        (
            Some(
                StatisticsMetrics {
                    entropy: ((raw / 0x100) % 0x100) as u8,
                    printable_ascii: ((raw / 0x1_0000) % 0x100) as u8,
                    byte_delta: (raw / 0x100_0000) as u8,
                },
            ),
            if status == 1 {
                MetricsQuality::Estimated
            } else {
                MetricsQuality::Accurate
            },
        )
    }
}

/// Packs metrics and their quality into a slot value.
pub fn encode_metrics(metrics: StatisticsMetrics, quality: MetricsQuality) -> (r: u32)
    ensures
        r == spec_encode(metrics, quality),
{
    let status: u32 = match quality {
        MetricsQuality::Estimated => 1,
        MetricsQuality::Accurate => 2,
    };
    let byte_delta = metrics.byte_delta as u32;
    let printable_ascii = metrics.printable_ascii as u32;
    let entropy = metrics.entropy as u32;
    let val = (byte_delta << 24) | (printable_ascii << 16) | (entropy << 8) | status;
    proof {
        assert(val == byte_delta * 0x100_0000 + printable_ascii * 0x1_0000 + entropy * 0x100
            + status) by (bit_vector)
            requires
                byte_delta < 256,
                printable_ascii < 256,
                entropy < 256,
                status < 256,
                val == (byte_delta << 24) | (printable_ascii << 16) | (entropy << 8) | status,
        ;
    }
    val
}

/// Unpacks metrics and their quality from a slot value.
pub fn decode_metrics(raw: u32) -> (r: (Option<StatisticsMetrics>, MetricsQuality))
    ensures
        r == spec_decode(raw),
{
    let status = raw & 0xff;
    proof {
        assert(status == raw % 0x100) by (bit_vector)
            requires
                status == raw & 0xff,
        ;
    }
    if status == 0 {
        return (None, MetricsQuality::Estimated);
    }
    let quality = if status == 1 {
        MetricsQuality::Estimated
    } else {
        MetricsQuality::Accurate
    };
    let entropy = ((raw >> 8) & 0xff) as u8;
    let printable_ascii = ((raw >> 16) & 0xff) as u8;
    let byte_delta = ((raw >> 24) & 0xff) as u8;
    proof {
        assert((raw >> 8) & 0xff == (raw / 0x100) % 0x100) by (bit_vector);
        assert((raw >> 16) & 0xff == (raw / 0x1_0000) % 0x100) by (bit_vector);
        assert((raw >> 24) & 0xff == raw / 0x100_0000) by (bit_vector);
    }
    (Some(StatisticsMetrics { entropy, printable_ascii, byte_delta }), quality)
}

/// Unpacking packed metrics gives back the metrics and their quality.
pub proof fn lemma_decode_encode(metrics: StatisticsMetrics, quality: MetricsQuality)
    ensures
        spec_decode(spec_encode(metrics, quality)) == (Some(metrics), quality),
{
    let d = metrics.byte_delta as u32;
    let p = metrics.printable_ascii as u32;
    let e = metrics.entropy as u32;
    let s = status_of(quality);
    let raw = spec_encode(metrics, quality);
    assert(raw % 0x100 == s && (raw / 0x100) % 0x100 == e && (raw / 0x1_0000) % 0x100 == p && raw
        / 0x100_0000 == d) by (nonlinear_arith)
        requires
            d < 256,
            p < 256,
            e < 256,
            1 <= s <= 2,
            raw == d * 0x100_0000 + p * 0x1_0000 + e * 0x100 + s,
    ;
}

/// The result for a single scrollbar: one slot of packed metrics per bin, shared between the
/// thread that computes and the one that draws.
pub struct BarResultBuffer {
    /// The window covered by the scrollbar.
    ///
    /// This is used to check for staleness.
    window: Window,
    /// The bin size used by the buffer.
    ///
    /// This is used to check for staleness.
    bin_size: u64,
    /// The slots, one per bin.
    buf: Vec<AtomicU32>,
}

impl BarResultBuffer {
    /// The number of slots.
    pub closed spec fn spec_len(&self) -> nat {
        self.buf@.len()
    }

    /// The window covered by the scrollbar.
    pub closed spec fn spec_window(&self) -> Window {
        self.window
    }

    /// The bin size used by the buffer.
    pub closed spec fn spec_bin_size(&self) -> u64 {
        self.bin_size
    }

    /// The window covered by the scrollbar.
    pub fn window(&self) -> (r: Window)
        ensures
            r == self.spec_window(),
    {
        self.window
    }

    /// The bin size used by the buffer.
    pub fn bin_size(&self) -> (r: u64)
        ensures
            r == self.spec_bin_size(),
    {
        self.bin_size
    }

    /// Creates a buffer of `len` empty slots.
    pub fn new(window: Window, bin_size: u64, len: usize) -> (r: BarResultBuffer)
        ensures
            r.spec_window() == window,
            r.spec_bin_size() == bin_size,
            r.spec_len() == len,
    {
        let mut buf: Vec<AtomicU32> = Vec::new();
        let mut i: usize = 0;
        while i < len
            invariant
                i <= len,
                buf@.len() == i,
            decreases len - i,
        {
            buf.push(AtomicU32::new(0));
            i = i + 1;
        }
        BarResultBuffer { window, bin_size, buf }
    }

    /// The number of slots.
    pub fn len(&self) -> (r: usize)
        ensures
            r == self.spec_len(),
    {
        self.buf.len()
    }

    /// Returns the metrics in the given slot.
    ///
    /// Another thread may write the slot at any time, so the result is what some slot value
    /// holds.
    pub fn get(&self, index: usize) -> (r: (Option<StatisticsMetrics>, MetricsQuality))
        requires
            index < self.spec_len(),
        ensures
            exists|raw: u32| r == spec_decode(raw),
    {
        let raw = self.buf[index].load(Ordering::Relaxed);
        decode_metrics(raw)
    }

    /// Sets the given slot to the given metrics and quality.
    pub fn set(&self, index: usize, metrics: StatisticsMetrics, quality: MetricsQuality)
        requires
            index < self.spec_len(),
    {
        let val = encode_metrics(metrics, quality);
        self.buf[index].store(val, Ordering::Relaxed);
    }
}

/// The largest power of two not above `n`, or `0` for `0`.
pub open spec fn floor_power_of_two(n: nat) -> nat
    decreases n,
{
    if n <= 1 {
        n
    } else {
        2 * floor_power_of_two(n / 2)
    }
}

/// The bin size for a raw bin size: the largest power of two not above it, but at least the
/// minimum sample size.
pub open spec fn spec_bin_size(raw_bin_size: u64) -> u64 {
    let rounded = floor_power_of_two(raw_bin_size as nat);
    if rounded > MIN_SAMPLE_SIZE {
        rounded as u64
    } else {
        MIN_SAMPLE_SIZE
    }
}

/// Determines the bin size for the given raw bin size.
pub fn raw_bin_size_to_bin_size(raw_bin_size: u64) -> (r: u64)
    requires
        raw_bin_size <= 0x8000_0000_0000_0000,
    ensures
        r == spec_bin_size(raw_bin_size),
        is_power_of_two(r),
        r >= MIN_SAMPLE_SIZE,
{
    let mut rounded: u64 = 0;
    let ghost mut k: nat = 0;
    proof {
        lemma2_to64();
    }
    if raw_bin_size > 0 {
        rounded = 1;
        while rounded <= raw_bin_size / 2
            invariant
                1 <= rounded <= raw_bin_size,
                k < 64,
                rounded == pow2(k),
                floor_power_of_two(raw_bin_size as nat) == rounded * floor_power_of_two(
                    (raw_bin_size / rounded) as nat,
                ),
            decreases raw_bin_size - rounded,
        {
            let ghost q = raw_bin_size / rounded;
            proof {
                lemma_div_denominator(raw_bin_size as int, rounded as int, 2);
                assert(raw_bin_size as int / (rounded as int * 2) == q as int / 2);
                assert(q >= 2) by (nonlinear_arith)
                    requires
                        rounded <= raw_bin_size / 2,
                        q == raw_bin_size / rounded,
                        rounded >= 1,
                ;
                assert(floor_power_of_two(q as nat) == 2 * floor_power_of_two((q / 2) as nat));
                assert(rounded * (2 * floor_power_of_two((q / 2) as nat)) == (rounded * 2)
                    * floor_power_of_two((q / 2) as nat)) by (nonlinear_arith);
                lemma_pow2_adds(k, 1);
                lemma2_to64();
                lemma2_to64_rest();
                if k > 63 {
                    lemma_pow2_strictly_increases(63, k);
                }
                assert(k < 63);
            }
            let ghost f = floor_power_of_two((q / 2) as nat);
            rounded = rounded * 2;
            proof {
                k = k + 1;
                assert((raw_bin_size / rounded) as nat == (q / 2) as nat);
                assert(floor_power_of_two(raw_bin_size as nat) == rounded * f);
            }
        }
        proof {
            lemma_div_basics(raw_bin_size as int);
            assert(raw_bin_size / rounded == 1) by (nonlinear_arith)
                requires
                    rounded > raw_bin_size / 2,
                    rounded <= raw_bin_size,
                    rounded >= 1,
            ;
            assert(floor_power_of_two(1) == 1);
            assert(floor_power_of_two((raw_bin_size / rounded) as nat) == 1);
            let ghost f = floor_power_of_two((raw_bin_size / rounded) as nat);
            assert(rounded * f == rounded) by (nonlinear_arith)
                requires
                    f == 1,
            ;
        }
    }
    if rounded > MIN_SAMPLE_SIZE {
        proof {
            assert(pow2(k) == rounded);
        }
        rounded
    } else {
        proof {
            assert(pow2(10) == MIN_SAMPLE_SIZE);
        }
        MIN_SAMPLE_SIZE
    }
}

/// Determines the bin size for the given window, such that the window is split into about
/// `bins_per_window` bins.
pub fn determine_bin_size(window: Window, bins_per_window: u64) -> (r: u64)
    requires
        bins_per_window > 0,
        window@.size() / bins_per_window as int <= 0x8000_0000_0000_0000,
    ensures
        r == spec_bin_size((window@.size() / bins_per_window as int) as u64),
        is_power_of_two(r),
        r >= MIN_SAMPLE_SIZE,
{
    let raw_bin_size = window.size() / bins_per_window;
    raw_bin_size_to_bin_size(raw_bin_size)
}

/// Computes the bin size for the window and returns the window expanded to align to it.
pub fn compute_bin_size_and_align_window(window: Window, bins_per_window: u64) -> (r: (u64, Window))
    requires
        bins_per_window > 0,
        window@.size() / bins_per_window as int <= 0x8000_0000_0000_0000,
        window@.end + spec_bin_size((window@.size() / bins_per_window as int) as u64) - 1
            <= u64::MAX,
    ensures
        r.0 == spec_bin_size((window@.size() / bins_per_window as int) as u64),
        r.1@.start == spec_align_down(window@.start, r.0 as int),
        r.1@.end == spec_align_up(window@.end, r.0 as int),
{
    let bin_size = determine_bin_size(window, bins_per_window);
    let aligned_window = window.expand_to_align(bin_size);
    (bin_size, aligned_window)
}

/// Computes the quality from the given bin size: only bins of the minimum sample size give
/// accurate metrics.
pub fn estimation_quality_from_bin_size(bin_size: u64) -> (r: MetricsQuality)
    ensures
        r == (if bin_size == MIN_SAMPLE_SIZE {
            MetricsQuality::Accurate
        } else {
            MetricsQuality::Estimated
        }),
{
    if bin_size == MIN_SAMPLE_SIZE {
        MetricsQuality::Accurate
    } else {
        MetricsQuality::Estimated
    }
}

} // verus!
