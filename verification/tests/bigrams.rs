use hexbait::statistics::bigrams::BigramStatistics;
use hexbait::statistics::downsampled_bigrams::DownsampledBigramStatistics;
use hexbait::statistics::statistics_tree::StatisticsTree;
use hexbait::statistics::tree::{section_tier, Tier};
use hexbait::window::Window;

/// Deterministic bytes with some structure.
fn pseudo_random(len: usize) -> Vec<u8> {
    let mut state: u32 = 12345;
    let mut out = Vec::new();
    for _ in 0..len {
        state = state.wrapping_mul(1103515245).wrapping_add(12345);
        out.push((state >> 16) as u8);
    }
    out
}

fn bigrams(data: &mut Vec<u8>, start: u64, end: u64) -> BigramStatistics {
    BigramStatistics::compute(data, Window::new(start, end)).unwrap()
}

#[test]
fn bigram_compute_counts_first_byte_after_zero() {
    let mut data = b"abab".to_vec();
    let stats = bigrams(&mut data, 0, 4);
    assert_eq!(stats.follow(0, b'a'), 1);
    assert_eq!(stats.follow(b'a', b'b'), 2);
    assert_eq!(stats.follow(b'b', b'a'), 1);
    assert_eq!(stats.follow(b'b', b'b'), 0);
    assert_eq!(stats.num_covered_bytes(), 4);
    assert!(stats.fully_contains(Window::new(1, 3)));
    assert!(stats.fully_contains(Window::new(2, 2)));
    assert!(!stats.fully_contains(Window::new(2, 5)));
}

#[test]
fn bigram_compute_counts_the_pair_into_the_window() {
    let mut data = b"abab".to_vec();
    let stats = bigrams(&mut data, 1, 4);
    assert_eq!(stats.follow(b'a', b'b'), 2);
    assert_eq!(stats.follow(b'b', b'a'), 1);
    assert_eq!(stats.follow(0, b'a'), 0);
    assert_eq!(stats.num_covered_bytes(), 3);
}

#[test]
fn bigram_compute_past_the_data_covers_nothing() {
    let mut data = b"abab".to_vec();
    let stats = bigrams(&mut data, 10, 20);
    assert_eq!(stats.num_covered_bytes(), 0);
    assert!(stats.iter().iter().all(|&(_, _, count)| count == 0));
    let stats = bigrams(&mut data, 2, 20);
    assert_eq!(stats.num_covered_bytes(), 2);
}

#[test]
fn bigram_iter_lists_every_pair_by_second_byte() {
    let mut data = b"ab".to_vec();
    let stats = bigrams(&mut data, 0, 2);
    let all = stats.iter();
    assert_eq!(all.len(), 65536);
    assert_eq!(all[0], (0, 0, 0));
    assert_eq!(all[1], (1, 0, 0));
    assert_eq!(all[256 * b'b' as usize + b'a' as usize], (b'a', b'b', 1));
    assert_eq!(all[256 * b'a' as usize], (0, b'a', 1));
}

#[test]
fn bigram_add_assign_joins_adjacent_windows() {
    let mut data = pseudo_random(300);
    let mut joined = bigrams(&mut data, 0, 120);
    let right = bigrams(&mut data, 120, 300);
    joined.add_assign(&right);
    let whole = bigrams(&mut data, 0, 300);
    assert_eq!(joined.iter(), whole.iter());
    assert_eq!(joined.num_covered_bytes(), 300);
}

#[test]
fn bigram_contained_regions_lists_disjoint_ranges() {
    let mut data = pseudo_random(100);
    let mut stats = bigrams(&mut data, 0, 10);
    let other = bigrams(&mut data, 20, 30);
    stats.add_assign(&other);
    assert_eq!(stats.contained_regions(), vec![(0, 9), (20, 29)]);
    assert_eq!(stats.num_covered_bytes(), 20);
    assert!(stats.fully_contains(Window::new(20, 25)));
    assert!(!stats.fully_contains(Window::new(5, 25)));
}

#[test]
fn bigram_approximate_memory_usage_is_the_table() {
    let stats = BigramStatistics::empty();
    assert_eq!(stats.approximate_memory_usage(), 512 * 1024);
    assert_eq!(stats.num_covered_bytes(), 0);
}

#[test]
fn downsampled_compute_counts_high_nibbles() {
    let mut data = vec![0x12, 0x34, 0x35, 0x12];
    let stats = DownsampledBigramStatistics::compute(&mut data, Window::new(0, 4)).unwrap();
    assert_eq!(stats.follow(0, 1), 1);
    assert_eq!(stats.follow(1, 3), 1);
    assert_eq!(stats.follow(3, 3), 1);
    assert_eq!(stats.follow(3, 1), 1);
    assert_eq!(stats.follow(1, 1), 0);
    assert_eq!(stats.num_covered_bytes(), 4);
    let tail = DownsampledBigramStatistics::compute(&mut data, Window::new(2, 4)).unwrap();
    assert_eq!(tail.follow(3, 3), 1);
    assert_eq!(tail.follow(3, 1), 1);
    assert_eq!(tail.follow(0, 1), 0);
}

#[test]
fn downsampled_bigrams_match_direct_computation() {
    let mut data = pseudo_random(500);
    for (start, end) in [(0, 500), (37, 150), (499, 600)] {
        let full = bigrams(&mut data, start, end);
        let via_full = full.downsampled();
        let direct =
            DownsampledBigramStatistics::compute(&mut data, Window::new(start, end)).unwrap();
        for first in 0..16 {
            for second in 0..16 {
                assert_eq!(via_full.follow(first, second), direct.follow(first, second));
            }
        }
        assert_eq!(via_full.num_covered_bytes(), direct.num_covered_bytes());
        assert_eq!(via_full.contained_regions(), direct.contained_regions());
    }
}

#[test]
fn downsampled_add_assign_joins_adjacent_windows() {
    let mut data = pseudo_random(256);
    let mut joined = DownsampledBigramStatistics::compute(&mut data, Window::new(0, 100)).unwrap();
    let right = DownsampledBigramStatistics::compute(&mut data, Window::new(100, 256)).unwrap();
    joined.add_assign(&right);
    let whole = DownsampledBigramStatistics::compute(&mut data, Window::new(0, 256)).unwrap();
    for first in 0..16 {
        for second in 0..16 {
            assert_eq!(joined.follow(first, second), whole.follow(first, second));
        }
    }
    assert_eq!(joined.num_covered_bytes(), 256);
    assert_eq!(joined.approximate_memory_usage(), 512 * 1024);
}

fn leaf(data: &mut Vec<u8>, index: u64) -> BigramStatistics {
    bigrams(data, index * 1024, (index + 1) * 1024)
}

#[test]
fn tree_covers_windows_of_adjacent_nodes() {
    let mut data = pseudo_random(8192);
    let mut tree = StatisticsTree::new();
    tree.insert(0, Tier::leaf_tier(), leaf(&mut data, 0));
    tree.insert(1024, Tier::leaf_tier(), leaf(&mut data, 1));
    assert!(tree.covers_window_exactly(Window::new(0, 2048)));
    assert!(tree.covers_window_exactly(Window::new(0, 1024)));
    assert!(tree.covers_window_exactly(Window::new(1024, 2048)));
    assert!(!tree.covers_window_exactly(Window::new(0, 3072)));
    assert!(!tree.covers_window_exactly(Window::new(512, 2048)));
    assert!(!tree.covers_window_exactly(Window::new(0, 1536)));
    assert!(!tree.covers_window_exactly(Window::new(0, 0)));
}

#[test]
fn tree_insert_replaces_overlapping_nodes() {
    let mut data = pseudo_random(8192);
    let mut tree = StatisticsTree::new();
    tree.insert(0, Tier::leaf_tier(), leaf(&mut data, 0));
    tree.insert(1024, Tier::leaf_tier(), leaf(&mut data, 1));
    tree.insert(0, Tier::from_level(1), bigrams(&mut data, 0, 2048));
    assert!(tree.covers_window_exactly(Window::new(0, 2048)));
    assert!(!tree.covers_window_exactly(Window::new(0, 1024)));
    // a leaf inside the larger node removes it
    tree.insert(1024, Tier::leaf_tier(), leaf(&mut data, 1));
    assert!(!tree.covers_window_exactly(Window::new(0, 2048)));
    assert!(tree.covers_window_exactly(Window::new(1024, 2048)));
}

#[test]
fn tree_aggregates_nodes_within_the_window() {
    let mut data = pseudo_random(8192);
    let mut tree = StatisticsTree::new();
    for index in 0..3 {
        tree.insert(index * 1024, Tier::leaf_tier(), leaf(&mut data, index));
    }
    let whole = bigrams(&mut data, 0, 3072);

    let mut stats = BigramStatistics::empty();
    let end = tree.aggregate_for_window(&mut stats, Window::new(0, 4096), 0, Tier::leaf_tier());
    assert_eq!(end, 4096);
    assert_eq!(stats.num_covered_bytes(), 3072);
    assert_eq!(stats.iter(), whole.iter());

    let mut stats = BigramStatistics::empty();
    let end = tree.aggregate_for_window(&mut stats, Window::new(0, 4096), 2, Tier::leaf_tier());
    assert_eq!(end, 2048);
    assert_eq!(stats.num_covered_bytes(), 2048);

    let mut stats = BigramStatistics::empty();
    let end = tree.aggregate_for_window(&mut stats, Window::new(0, 4096), 0, Tier::from_level(1));
    assert_eq!(end, 4096);
    assert_eq!(stats.num_covered_bytes(), 0);

    let mut stats = BigramStatistics::empty();
    let end = tree.aggregate_for_window(&mut stats, Window::new(0, 1536), 0, Tier::leaf_tier());
    assert_eq!(end, 1536);
    assert_eq!(stats.num_covered_bytes(), 1024);
}

#[test]
fn tree_garbage_collection_promotes_siblings() {
    let mut data = pseudo_random(8192);
    let mut tree = StatisticsTree::new();
    for index in 0..3 {
        tree.insert(index * 1024, Tier::leaf_tier(), leaf(&mut data, index));
    }
    // enough memory: nothing changes
    tree.garbage_collect(3 * 512 * 1024, &[]);
    assert!(tree.covers_window_exactly(Window::new(0, 1024)));

    tree.garbage_collect(512 * 1024, &[]);
    assert!(tree.covers_window_exactly(Window::new(0, 2048)));
    assert!(!tree.covers_window_exactly(Window::new(0, 1024)));
    // the third leaf has no sibling and stays
    assert!(tree.covers_window_exactly(Window::new(2048, 3072)));

    let mut stats = BigramStatistics::empty();
    let end = tree.aggregate_for_window(&mut stats, Window::new(0, 3072), 0, Tier::leaf_tier());
    assert_eq!(end, 3072);
    assert_eq!(stats.iter(), bigrams(&mut data, 0, 3072).iter());
}

#[test]
fn tree_garbage_collection_keeps_detail_in_focus() {
    let mut data = pseudo_random(8192);
    let mut tree = StatisticsTree::new();
    for index in 0..4 {
        tree.insert(index * 1024, Tier::leaf_tier(), leaf(&mut data, index));
    }
    // focus on the last two leaves: the first two are joined first
    tree.garbage_collect(3 * 512 * 1024, &[Window::new(2048, 4096)]);
    assert!(tree.covers_window_exactly(Window::new(0, 2048)));
    assert!(tree.covers_window_exactly(Window::new(2048, 3072)));
    assert!(tree.covers_window_exactly(Window::new(3072, 4096)));
}

#[test]
fn section_tier_fits_size_alignment_and_direct_limit() {
    assert_eq!(section_tier(0, 1024).level_u8(), 0);
    assert_eq!(section_tier(0, 100).level_u8(), 0);
    assert_eq!(section_tier(0, 1 << 40).level_u8(), 13);
    assert_eq!(section_tier(3072, 1 << 20).level_u8(), 0);
    assert_eq!(section_tier(4096, 1 << 20).level_u8(), 2);
    assert_eq!(section_tier(4096, 3000).level_u8(), 1);
    assert_eq!(section_tier(1 << 62, 1 << 62).level_u8(), 13);
}

#[test]
fn tree_gc_candidates_put_nodes_outside_the_focus_first() {
    let mut data = pseudo_random(8192);
    let mut tree = StatisticsTree::new();
    for index in 0..4 {
        tree.insert(index * 1024, Tier::leaf_tier(), leaf(&mut data, index));
    }
    let candidates = tree.gc_candidates(&[Window::new(2048, 4096)]);
    assert_eq!(
        candidates,
        vec![(0, 2048, 0), (0, 1024, 1024), (2, 0, 2048), (2, 0, 3072)]
    );
    let unfocused = tree.gc_candidates(&[]);
    assert_eq!(unfocused, vec![(0, 0, 0), (0, 0, 1024), (0, 0, 2048), (0, 0, 3072)]);
}
