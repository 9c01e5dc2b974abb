use hexbait::window::{align_down, align_up, Window};

#[test]
fn align_down_rounds_towards_zero() {
    assert_eq!(align_down(0, 8), 0);
    assert_eq!(align_down(7, 8), 0);
    assert_eq!(align_down(8, 8), 8);
    assert_eq!(align_down(17, 8), 16);
    assert_eq!(align_down(u64::MAX, 1 << 63), 1 << 63);
}

#[test]
fn align_up_rounds_towards_maximum() {
    assert_eq!(align_up(0, 8), 0);
    assert_eq!(align_up(1, 8), 8);
    assert_eq!(align_up(8, 8), 8);
    assert_eq!(align_up(17, 8), 24);
}

#[test]
fn align_splits_into_three_windows() {
    assert_eq!(
        Window::new(3, 25).align(8),
        Some((Window::new(3, 8), Window::new(8, 24), Window::new(24, 25)))
    );
    assert_eq!(
        Window::new(3, 8).align(8),
        Some((Window::new(3, 8), Window::new(8, 8), Window::new(8, 8)))
    );
    assert_eq!(
        Window::new(7, 11).align(8),
        Some((Window::new(7, 8), Window::new(8, 8), Window::new(8, 11)))
    );
    assert_eq!(Window::new(3, 25).align(32), None);
}

#[test]
fn align_parts_join_back_to_the_window() {
    let window = Window::new(100, 9000);
    let (before, aligned, after) = window.align(1024).unwrap();
    let joined = before.joined(aligned).unwrap().joined(after).unwrap();
    assert_eq!(joined, window);
    assert_eq!(aligned.start() % 1024, 0);
    assert_eq!(aligned.end() % 1024, 0);
}

#[test]
fn new_orders_the_bounds() {
    let window = Window::new(25, 3);
    assert_eq!(window.start(), 3);
    assert_eq!(window.end(), 25);
    assert_eq!(window.size(), 22);
}

#[test]
fn from_start_len_and_empty_windows() {
    let window = Window::from_start_len(10, 5);
    assert_eq!(window.end(), 15);
    assert!(!window.is_empty());
    let empty = Window::empty_from_start(10);
    assert!(empty.is_empty());
    assert_eq!(empty.start(), 10);
}

#[test]
fn joined_needs_adjacent_windows() {
    let a = Window::new(0, 10);
    let b = Window::new(10, 20);
    let c = Window::new(11, 20);
    assert_eq!(a.joined(b), Some(Window::new(0, 20)));
    assert_eq!(a.joined(c), None);
    assert_eq!(b.joined(a), None);
}

#[test]
fn contains_and_overlaps() {
    let window = Window::new(10, 20);
    assert!(window.contains(10));
    assert!(window.contains(19));
    assert!(!window.contains(20));
    assert!(window.contains_window(Window::new(12, 20)));
    assert!(!window.contains_window(Window::new(12, 21)));
    assert!(window.overlaps(Window::new(19, 30)));
    assert!(!window.overlaps(Window::new(20, 30)));
}

#[test]
fn range_inclusive_of_windows() {
    assert_eq!(Window::new(3, 7).range_inclusive(), Some(3..=6));
    assert_eq!(Window::new(3, 3).range_inclusive(), None);
    assert_eq!(Window::from_range_inclusive(3, 6), Window::new(3, 7));
}

#[test]
fn subwindows_of_size_cover_the_window() {
    let parts = Window::new(8, 32).subwindows_of_size(8);
    assert_eq!(parts, vec![Window::new(8, 16), Window::new(16, 24), Window::new(24, 32)]);
}

#[test]
fn expand_to_align_rounds_outwards() {
    assert_eq!(Window::new(3, 25).expand_to_align(8), Window::new(0, 32));
    assert_eq!(Window::new(8, 16).expand_to_align(8), Window::new(8, 16));
}

#[test]
fn windows_survive_the_inclusive_round_trip() {
    for (start, end) in [(0u64, 1u64), (3, 7), (100, 4096), (5, u64::MAX - 1)] {
        let window = Window::new(start, end);
        let range = window.range_inclusive().unwrap();
        assert_eq!(Window::from_range_inclusive(*range.start(), *range.end()), window);
    }
    assert_eq!(Window::new(9, 9).range_inclusive(), None);
}
