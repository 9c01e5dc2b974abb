use hexbait::gui::hex::selection::SelectionContext;
use hexbait::gui::hex::{max_scroll, HexdumpView};
use hexbait::gui::marking::{MarkedLocation, MarkedLocations, MarkingKind};
use hexbait::gui::signature_display::SignatureDisplay;
use hexbait::statistics::Signature;
use hexbait::window::Window;

#[test]
fn scrolling_stays_within_bounds() {
    let mut view = HexdumpView::new();
    assert_eq!(view.scroll_offset(), 0);
    view.scroll_by(5, 10);
    assert_eq!(view.scroll_offset(), 5);
    view.scroll_by(-10, 10);
    assert_eq!(view.scroll_offset(), 0);
    view.scroll_by(100, 10);
    assert_eq!(view.scroll_offset(), 10);
    view.scroll_by(i64::MIN, 10);
    assert_eq!(view.scroll_offset(), 0);
    view.scroll_to_row(50, 20, 100);
    assert_eq!(view.scroll_offset(), 40);
    view.scroll_to_row(5, 20, 100);
    assert_eq!(view.scroll_offset(), 0);
    view.scroll_to_row(500, 20, 100);
    assert_eq!(view.scroll_offset(), 100);
}

#[test]
fn max_scroll_counts_partial_rows() {
    assert_eq!(max_scroll(0, 10), 0);
    assert_eq!(max_scroll(16 * 20, 10), 10);
    assert_eq!(max_scroll(16 * 20 + 1, 10), 11);
    assert_eq!(max_scroll(16, 10), 0);
}

#[test]
fn selections_run_from_press_to_hover() {
    let mut view = HexdumpView::new();
    assert_eq!(view.selection(), None);
    view.handle_selection(false, true, 20);
    assert_eq!(view.selection(), Some((20, 20)));
    view.handle_selection(true, false, 10);
    assert_eq!(view.selection(), Some((10, 20)));
    view.check_for_selection_process_end(true);
    view.handle_selection(true, false, 12);
    assert_eq!(view.selection(), Some((12, 20)));
    view.check_for_selection_process_end(false);
    view.handle_selection(true, false, 30);
    assert_eq!(view.selection(), Some((12, 20)));
}

#[test]
fn clicking_a_single_selected_byte_deselects_it() {
    let mut context = SelectionContext::new();
    context.handle_selection(false, true, 10);
    context.check_for_selection_process_end(false);
    assert_eq!(context.selection(), Some((10, 10)));
    context.handle_selection(false, true, 10);
    context.check_for_selection_process_end(false);
    assert_eq!(context.selection(), None);
}

#[test]
fn marked_locations_are_found_by_id() {
    let mut locations = MarkedLocations::new();
    let first = locations.add(MarkedLocation::new(Window::new(10, 20), MarkingKind::Selection));
    let second = locations.add(MarkedLocation::new(Window::new(10, 30), MarkingKind::Selection));
    assert_ne!(first, second);
    assert_eq!(first.offset(), 10);
    let found = locations.get(second).unwrap();
    assert_eq!(found.window(), Window::new(10, 30));
    assert_eq!(found.kind(), MarkingKind::Selection);
    assert_eq!(found.id(), Some(second));
    assert!(locations.hovered().is_none());
    locations.set_hovered_location_id(Some(first));
    assert_eq!(locations.hovered_location_id(), Some(first));
    assert_eq!(locations.hovered().unwrap().window(), Window::new(10, 20));
}

#[test]
fn signature_display_maps_pixels_to_bigrams() {
    let mut display = SignatureDisplay::new();
    assert_eq!(display.bigram_at(0, 0), None);
    assert_eq!(display.layout(512, 1024), 2);
    assert_eq!(display.bigram_at(3, 5), Some((1, 2)));
    assert_eq!(display.bigram_at(600, 5), None);
    let mut values = vec![0u8; 65536];
    values[256 + 2] = 99;
    let signature = Signature::from_values(values).unwrap();
    assert_eq!(display.intensity_at(&signature, 3, 5), 99);
    assert_eq!(display.intensity_at(&signature, 600, 5), 0);
}

#[test]
fn marked_locations_in_a_window_are_listed_by_offset() {
    let mut locations = MarkedLocations::new();
    locations.add(MarkedLocation::new(Window::new(50, 60), MarkingKind::Selection));
    locations.add(MarkedLocation::new(Window::new(10, 20), MarkingKind::Selection));
    locations.add(MarkedLocation::new(Window::new(10, 15), MarkingKind::Selection));
    locations.add(MarkedLocation::new(Window::new(100, 200), MarkingKind::Selection));
    let found: Vec<Window> = locations
        .iter_window(Window::new(12, 55))
        .iter()
        .map(|location| location.window())
        .collect();
    assert_eq!(found, vec![Window::new(10, 20), Window::new(10, 15), Window::new(50, 60)]);
    assert!(locations.iter_window(Window::new(20, 50)).is_empty());
}

#[test]
fn removing_marked_locations_keeps_the_others() {
    let mut locations = MarkedLocations::new();
    let kept = locations.add(MarkedLocation::new(Window::new(10, 20), MarkingKind::Selection));
    let dropped = locations.add(MarkedLocation::new(Window::new(10, 15), MarkingKind::Selection));
    let far = locations.add(MarkedLocation::new(Window::new(100, 200), MarkingKind::Selection));
    locations.remove_where(|location| location.window().end() == 15);
    assert!(locations.get(kept).is_some());
    assert!(locations.get(dropped).is_none());
    assert!(locations.get(far).is_some());
    locations.remove_where(|_| true);
    assert!(locations.get(kept).is_none());
    assert!(locations.iter_window(Window::new(0, 1000)).is_empty());
}
