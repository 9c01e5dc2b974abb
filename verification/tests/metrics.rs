use hexbait::statistics::handler::cache_size::CacheSize;
use hexbait::statistics::metrics::{
    compute_bin_size_and_align_window, decode_metrics, determine_bin_size, encode_metrics,
    estimation_quality_from_bin_size, raw_bin_size_to_bin_size, BarResultBuffer, ComputationMode,
    MetricsQuality, StatisticsMetrics, MIN_SAMPLE_SIZE,
};
use hexbait::statistics::tree::{distance_from_higher_zone, node_zone, Tier};
use hexbait::window::Window;

#[test]
fn metrics_roundtrip_through_slots() {
    let metrics = StatisticsMetrics { entropy: 12, printable_ascii: 200, byte_delta: 255 };
    let raw = encode_metrics(metrics, MetricsQuality::Accurate);
    assert_eq!(raw, (255 << 24) | (200 << 16) | (12 << 8) | 2);
    assert_eq!(decode_metrics(raw), (Some(metrics), MetricsQuality::Accurate));
    let raw = encode_metrics(metrics, MetricsQuality::Estimated);
    assert_eq!(raw & 0xff, 1);
    assert_eq!(decode_metrics(raw), (Some(metrics), MetricsQuality::Estimated));
}

#[test]
fn empty_slots_hold_no_metrics() {
    assert_eq!(decode_metrics(0), (None, MetricsQuality::Estimated));
    assert_eq!(decode_metrics(0xffff_ff00), (None, MetricsQuality::Estimated));
}

#[test]
fn bar_buffer_stores_metrics() {
    let buffer = BarResultBuffer::new(Window::new(0, 4096), 1024, 4);
    assert_eq!(buffer.len(), 4);
    assert_eq!(buffer.window(), Window::new(0, 4096));
    assert_eq!(buffer.bin_size(), 1024);
    assert_eq!(buffer.get(2), (None, MetricsQuality::Estimated));
    let metrics = StatisticsMetrics { entropy: 1, printable_ascii: 2, byte_delta: 3 };
    buffer.set(2, metrics, MetricsQuality::Accurate);
    assert_eq!(buffer.get(2), (Some(metrics), MetricsQuality::Accurate));
    assert_eq!(buffer.get(1), (None, MetricsQuality::Estimated));
}

#[test]
fn quality_tells_estimates() {
    assert!(MetricsQuality::Estimated.is_estimated());
    assert!(!MetricsQuality::Accurate.is_estimated());
    assert_eq!(estimation_quality_from_bin_size(MIN_SAMPLE_SIZE), MetricsQuality::Accurate);
    assert_eq!(estimation_quality_from_bin_size(2048), MetricsQuality::Estimated);
    assert_ne!(ComputationMode::Estimation, ComputationMode::FullQuality);
}

#[test]
fn bin_sizes_are_powers_of_two_above_the_minimum() {
    assert_eq!(raw_bin_size_to_bin_size(0), 1024);
    assert_eq!(raw_bin_size_to_bin_size(1), 1024);
    assert_eq!(raw_bin_size_to_bin_size(4096), 4096);
    assert_eq!(raw_bin_size_to_bin_size(5000), 4096);
    assert_eq!(raw_bin_size_to_bin_size(3_000_000), 2_097_152);
    assert_eq!(raw_bin_size_to_bin_size(1 << 63), 1 << 63);
}

#[test]
fn bin_size_of_windows() {
    assert_eq!(determine_bin_size(Window::new(0, 1 << 20), 64), 16384);
    let (bin_size, aligned) = compute_bin_size_and_align_window(Window::new(100, 100 + (1 << 20)), 64);
    assert_eq!(bin_size, 16384);
    assert_eq!(aligned, Window::new(0, 16384 * 65));
}

#[test]
fn tiers_double_in_size() {
    let leaf = Tier::leaf_tier();
    assert_eq!(leaf.size(), 1024);
    assert_eq!(leaf.next().size(), 2048);
    assert_eq!(Tier::from_level(10).size(), 1 << 20);
    assert!(leaf < leaf.next());
}

#[test]
fn fitting_tier_is_the_largest_that_fits() {
    assert_eq!(Tier::fitting_tier(0), Tier::leaf_tier());
    assert_eq!(Tier::fitting_tier(2047), Tier::leaf_tier());
    assert_eq!(Tier::fitting_tier(2048).level_u8(), 1);
    assert_eq!(Tier::max_direct_tier().level_u8(), 13);
}

#[test]
fn zones_count_the_windows_that_contain_an_offset() {
    let windows = [Window::new(0, 100), Window::new(10, 50), Window::new(20, 30)];
    assert_eq!(node_zone(5, &windows), 1);
    assert_eq!(node_zone(25, &windows), 3);
    assert_eq!(node_zone(200, &windows), 0);
    assert_eq!(distance_from_higher_zone(5, 1, &windows), 5);
    assert_eq!(distance_from_higher_zone(60, 1, &windows), 10);
    assert_eq!(distance_from_higher_zone(25, 3, &windows), 0);
}

#[test]
fn cache_sizes_are_listed_in_order() {
    let sizes = CacheSize::iter_through_sizes();
    assert_eq!(sizes.len(), 11);
    assert_eq!(sizes[0], CacheSize::smallest());
    assert_eq!(CacheSize::Size0.size(), 8 * 1024);
    assert_eq!(CacheSize::Size1.size(), 512 * 1024);
    assert_eq!(CacheSize::Size7.size(), 2 * 1024u64.pow(5));
    assert_eq!(CacheSize::Size8.size(), 32 * 1024u64.pow(5));
    for pair in sizes.windows(2) {
        assert!(pair[0].size() < pair[1].size());
    }
    assert_eq!(CacheSize::Size10.size(), 8 * 1024u64.pow(6));
    assert_eq!(CacheSize::Size0.next(), Some(CacheSize::Size1));
    assert_eq!(CacheSize::Size10.next(), None);
    assert_eq!(CacheSize::Size3.index(), 3);
    assert_eq!(CacheSize::try_from_index(4), Some(CacheSize::Size4));
    assert_eq!(CacheSize::try_from_index(11), None);
    assert_eq!(CacheSize::Size10.num_entries(), 1);
    assert_eq!(CacheSize::Size2.num_entries(), 256);
}

#[test]
fn cache_sizes_are_found_by_bytes() {
    assert_eq!(CacheSize::try_from(8192), Ok(CacheSize::Size0));
    assert_eq!(CacheSize::try_from(32 * 1024 * 1024), Ok(CacheSize::Size2));
    assert_eq!(CacheSize::try_from(1000), Err(()));
}
