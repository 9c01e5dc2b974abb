use std::cmp::Ordering;

use hexbait::statistics::classification::{compute_score, score_bounds, ScoreThreshold, MIB};
use hexbait::statistics::handler::background_thread::{
    process_messages, sort_requests, Message, Request, RequestKind,
};
use hexbait::window::Window;

fn request(kind: RequestKind, start: u64, end: u64) -> Request {
    Request {
        kind,
        window: Window::new(start, end),
    }
}

#[test]
fn requests_order_by_kind_then_later_and_smaller_windows() {
    let bigrams = request(RequestKind::Bigrams, 0, 10);
    let entropy = request(RequestKind::EntropyEstimate, 0, 10);
    assert_eq!(bigrams.cmp(&entropy), Ordering::Less);
    assert_eq!(entropy.cmp(&bigrams), Ordering::Greater);

    let later = request(RequestKind::Bigrams, 100, 110);
    assert_eq!(later.cmp(&bigrams), Ordering::Less);

    let larger = request(RequestKind::Bigrams, 0, 20);
    assert_eq!(bigrams.cmp(&larger), Ordering::Less);
    assert_eq!(bigrams.cmp(&bigrams), Ordering::Equal);
    assert_eq!(bigrams.partial_cmp(&larger), Some(Ordering::Less));
}

#[test]
fn sorted_requests_serve_the_last_first() {
    let requests = vec![
        request(RequestKind::Bigrams, 0, 10),
        request(RequestKind::EntropyEstimate, 50, 60),
        request(RequestKind::Bigrams, 100, 110),
        request(RequestKind::Flat, 0, 10),
    ];
    let sorted = sort_requests(&requests);
    assert_eq!(sorted.len(), 4);
    let windows: Vec<(u64, u64)> = sorted
        .iter()
        .map(|r| (r.window.start(), r.window.end()))
        .collect();
    assert_eq!(windows, vec![(100, 110), (0, 10), (0, 10), (50, 60)]);
    assert!(matches!(sorted[1].kind, RequestKind::Bigrams));
    assert!(matches!(sorted[2].kind, RequestKind::Flat));
    assert!(matches!(sorted[3].kind, RequestKind::EntropyEstimate));
}

#[test]
fn clearing_drops_earlier_requests() {
    let mut buffer = vec![request(RequestKind::Bigrams, 0, 10)];
    process_messages(
        &mut buffer,
        vec![
            Message::Compute(request(RequestKind::Bigrams, 10, 20)),
            Message::ClearRequests,
            Message::Compute(request(RequestKind::Bigrams, 30, 40)),
            Message::Compute(request(RequestKind::EntropyEstimate, 0, 5)),
        ],
    );
    assert_eq!(buffer.len(), 2);
    let last = buffer.pop().unwrap();
    assert!(matches!(last.kind, RequestKind::EntropyEstimate));
    assert_eq!(buffer[0].window.start(), 30);
}

#[test]
fn score_sums_products_of_quantized_values() {
    let ones = vec![1u16; 65536];
    let twos = vec![2u16; 65536];
    assert_eq!(compute_score(&ones, &twos), 2 * 65536);
    let max = vec![u16::MAX; 65536];
    assert_eq!(compute_score(&max, &max), 65536 * 65535 * 65535);
}

#[test]
fn score_bounds_follow_the_sample_sizes() {
    assert_eq!(score_bounds(1000), (0, 32 * 1024, ScoreThreshold::Zero, ScoreThreshold::Kib32));
    assert_eq!(
        score_bounds(32 * 1024),
        (32 * 1024, 128 * 1024, ScoreThreshold::Kib32, ScoreThreshold::Kib128)
    );
    assert_eq!(
        score_bounds(200 * 1024),
        (128 * 1024, MIB, ScoreThreshold::Kib128, ScoreThreshold::Mib1)
    );
    assert_eq!(
        score_bounds(2 * MIB),
        (MIB, 8 * MIB, ScoreThreshold::Mib1, ScoreThreshold::Mib8)
    );
    assert_eq!(
        score_bounds(u64::MAX),
        (8 * MIB, u64::MAX, ScoreThreshold::Mib8, ScoreThreshold::Mib8)
    );
}
