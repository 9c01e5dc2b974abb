use hexbait::data::DataSource;
use hexbait::statistics::flat::FlatStatistics;
use hexbait::statistics::handler::StatisticsHandler;
use hexbait::statistics::{Signature, Statistics};
use hexbait::window::Window;

fn sample() -> Vec<u8> {
    b"abcabc".to_vec()
}

#[test]
fn compute_counts_bigrams() {
    let mut data = sample();
    let stats = Statistics::compute(&mut data, Window::new(0, 6)).unwrap();
    assert_eq!(stats.follow(b'a', b'b'), 2);
    assert_eq!(stats.follow(b'b', b'c'), 2);
    assert_eq!(stats.follow(b'c', b'a'), 1);
    assert_eq!(stats.follow(b'a', b'a'), 0);
    assert_eq!(stats.follow(0, b'a'), 0);
    assert_eq!(stats.first_byte(), Some(b'a'));
    assert_eq!(stats.window(), Window::new(0, 6));
}

#[test]
fn compute_counts_the_pair_into_the_window() {
    let mut data = sample();
    let stats = Statistics::compute(&mut data, Window::new(2, 6)).unwrap();
    assert_eq!(stats.follow(b'b', b'c'), 2);
    assert_eq!(stats.follow(b'c', b'a'), 1);
    assert_eq!(stats.follow(b'a', b'b'), 1);
    assert_eq!(stats.first_byte(), None);
}

#[test]
fn compute_stops_at_the_end_of_the_data() {
    let mut data = sample();
    let stats = Statistics::compute(&mut data, Window::new(4, 100)).unwrap();
    assert_eq!(stats.window(), Window::new(4, 6));
    assert_eq!(stats.follow(b'c', b'a'), 0);
    assert_eq!(stats.follow(b'a', b'b'), 1);
    assert_eq!(stats.follow(b'b', b'c'), 1);
}

#[test]
fn adjacent_statistics_add_up() {
    let mut data = sample();
    let mut left = Statistics::compute(&mut data, Window::new(0, 2)).unwrap();
    let right = Statistics::compute(&mut data, Window::new(2, 6)).unwrap();
    let whole = Statistics::compute(&mut data, Window::new(0, 6)).unwrap();
    left.add_assign(&right);
    assert_eq!(left.window(), whole.window());
    assert_eq!(left.first_byte(), whole.first_byte());
    for first in 0..=255u8 {
        for second in 0..=255u8 {
            assert_eq!(left.follow(first, second), whole.follow(first, second));
        }
    }
}

#[test]
fn empty_window_extends_the_window_only() {
    let mut stats = Statistics::empty_for_window(Window::new(10, 20));
    assert_eq!(stats.window(), Window::new(10, 10));
    stats.add_empty_window(Window::new(10, 20));
    assert_eq!(stats.window(), Window::new(10, 20));
    assert_eq!(stats.follow(1, 2), 0);
}

#[test]
fn large_windows_use_wider_counts() {
    let mut data = vec![7u8; 70_000];
    let stats = Statistics::compute(&mut data, Window::new(0, 70_000)).unwrap();
    assert_eq!(stats.follow(7, 7), 69_999);
    assert_eq!(stats.first_byte(), Some(7));
}

#[test]
fn signature_summary_counts_sums_and_maximum() {
    let mut data = sample();
    let stats = Statistics::compute(&mut data, Window::new(0, 6)).unwrap();
    let (nonzero, sum, max) = stats.signature_summary();
    assert_eq!(nonzero, 3);
    assert_eq!(sum, 5);
    assert_eq!(max, 2);
}

#[test]
fn signature_values_are_looked_up_by_bigram() {
    let mut values = vec![0u8; 65536];
    values[3 * 256 + 9] = 200;
    let signature = Signature::from_values(values).unwrap();
    assert_eq!(signature.tuple(3, 9), 200);
    assert_eq!(signature.tuple(9, 3), 0);
    assert!(Signature::from_values(vec![0u8; 3]).is_none());
}

#[test]
fn flat_statistics_count_bytes() {
    let mut data = sample();
    let flat = FlatStatistics::compute(&mut data, Window::new(1, 6)).unwrap();
    let counts = flat.counts();
    assert_eq!(counts[b'a' as usize], 1);
    assert_eq!(counts[b'b' as usize], 2);
    assert_eq!(counts[b'c' as usize], 2);
    assert_eq!(counts.iter().sum::<u64>(), 5);
}

#[test]
fn flat_statistics_from_bigrams_match_computed_ones() {
    let mut data = sample();
    let bigrams = Statistics::compute(&mut data, Window::new(0, 6)).unwrap();
    let from_bigrams = FlatStatistics::from_bigrams(&bigrams);
    let computed = FlatStatistics::compute(&mut data, Window::new(0, 6)).unwrap();
    assert_eq!(from_bigrams.counts(), computed.counts());
    assert_eq!(from_bigrams.window(), computed.window());
}

#[test]
fn flat_statistics_add_up() {
    let mut data = sample();
    let mut left = FlatStatistics::compute(&mut data, Window::new(0, 3)).unwrap();
    let right = FlatStatistics::compute(&mut data, Window::new(3, 6)).unwrap();
    left.add_assign(&right);
    assert_eq!(left.window(), Window::new(0, 6));
    assert_eq!(left.counts()[b'a' as usize], 2);
}

#[test]
fn vec_data_source_reads_windows() {
    let mut data = sample();
    assert_eq!(data.window_at(1, 3), Ok(b"bca".to_vec()));
    assert_eq!(data.window_at(4, 10), Ok(b"bc".to_vec()));
    assert_eq!(data.window_at(10, 10), Ok(Vec::new()));
    assert_eq!(DataSource::len(&mut data), Ok(6));
    assert_eq!(DataSource::is_empty(&mut data), Ok(false));
}

#[test]
fn handler_combines_cached_windows() {
    let mut data: Vec<u8> = (0..40_000u32).map(|i| (i * 7 % 251) as u8).collect();
    let mut handler = StatisticsHandler::new();
    let window = Window::new(100, 30_000);
    let expected = Statistics::compute(&mut data, window).unwrap();
    for _ in 0..2 {
        let stats = handler.get(&mut data, window).unwrap();
        assert_eq!(stats.window(), window);
        for first in [0u8, 7, 14, 100, 250] {
            for second in 0..=255u8 {
                assert_eq!(stats.follow(first, second), expected.follow(first, second));
            }
        }
    }
}

#[test]
fn handler_handles_small_windows() {
    let mut data = sample();
    let mut handler = StatisticsHandler::default();
    let stats = handler.get(&mut data, Window::new(1, 5)).unwrap();
    assert_eq!(stats.window(), Window::new(1, 5));
    assert_eq!(stats.follow(b'a', b'b'), 2);
    assert_eq!(stats.follow(b'c', b'a'), 1);
}

#[test]
fn handler_statistics_from_the_start_keep_the_first_byte() {
    let mut data: Vec<u8> = (0..10_000u32).map(|i| (i * 13 % 256) as u8).collect();
    let mut handler = StatisticsHandler::new();
    let window = Window::new(0, 9_000);
    let expected = Statistics::compute(&mut data, window).unwrap();
    let stats = handler.get(&mut data, window).unwrap();
    assert_eq!(stats.first_byte(), Some(0));
    assert_eq!(stats.first_byte(), expected.first_byte());
    assert_eq!(stats.follow(0, 13), expected.follow(0, 13));
    let again = handler.get(&mut data, window).unwrap();
    assert_eq!(again.follow(13, 26), expected.follow(13, 26));
}

#[test]
fn handler_statistics_of_empty_windows_are_empty() {
    let mut data = sample();
    let mut handler = StatisticsHandler::new();
    for start in [0u64, 3, 6] {
        let stats = handler.get(&mut data, Window::new(start, start)).unwrap();
        assert_eq!(stats.window(), Window::new(start, start));
        assert_eq!(stats.first_byte(), None);
        assert_eq!(stats.follow(b'a', b'b'), 0);
    }
}
