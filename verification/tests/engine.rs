use stroke_select::compose::SvgError;
use stroke_select::geometry::{Aabb, Vector2};
use stroke_select::selection::Selector;
use stroke_select::state::StrokesState;
use stroke_select::strokestyle::{BrushStroke, MarkerStroke, ShapeStroke, StrokeStyle};

fn shape(min_x: i64, min_y: i64, max_x: i64, max_y: i64) -> StrokeStyle {
    StrokeStyle::ShapeStroke(ShapeStroke { bounds: Aabb::new(min_x, min_y, max_x, max_y) })
}

fn marker(bounds: Aabb, hitbox: Vec<Aabb>) -> StrokeStyle {
    StrokeStyle::MarkerStroke(MarkerStroke { bounds, hitbox })
}

#[test]
fn unsupported_selection_is_reported_and_ignored() {
    let mut state = StrokesState::new();
    let key = state.insert_stroke_without_selection(shape(0, 0, 10, 10));
    assert!(!state.can_select(key));
    assert_eq!(state.selected(key), None);
    state.set_selected(key, true);
    assert_eq!(state.selected(key), None);
    assert_eq!(state.selection_len(), 0);
    assert_eq!(state.selection_bounds(), None);
}

#[test]
fn selecting_extends_aggregate_bounds_by_entity_bounds() {
    let mut state = StrokesState::new();
    let a = state.insert_stroke(shape(0, 0, 10, 10));
    let b = state.insert_stroke(shape(20, 20, 30, 40));
    state.set_selected(a, true);
    assert_eq!(state.selection_bounds(), Some(Aabb::new(0, 0, 10, 10)));
    state.set_selected(b, true);
    assert_eq!(state.selection_bounds(), Some(Aabb::new(0, 0, 30, 40)));
}

#[test]
fn deselect_clears_keys_and_bounds() {
    let mut state = StrokesState::new();
    let a = state.insert_stroke(shape(0, 0, 10, 10));
    let b = state.insert_stroke(shape(5, 5, 15, 15));
    state.set_selected(a, true);
    state.set_selected(b, true);
    assert_eq!(state.selection_len(), 2);
    state.deselect();
    assert!(state.selection_keys().is_empty());
    assert_eq!(state.selection_bounds(), None);
}

#[test]
fn selector_update_is_idempotent() {
    let mut state = StrokesState::new();
    state.insert_stroke(shape(10, 10, 20, 20));
    state.insert_stroke(shape(200, 200, 300, 300));
    let selector = Selector::new(Some(Aabb::new(0, 0, 100, 100)));
    let first = state.update_selection_for_selector(&selector, None);
    assert!(first);
    let second = state.update_selection_for_selector(&selector, None);
    assert!(!second);
}

#[test]
fn contained_stroke_is_selected_despite_hitbox_shape() {
    let mut state = StrokesState::new();
    // The hitbox reaches far outside the selector; containment of the
    // bounds alone decides.
    let key = state.insert_stroke(marker(
        Aabb::new(10, 10, 20, 20),
        vec![Aabb::new(500, 500, 600, 600)],
    ));
    let selector = Selector::new(Some(Aabb::new(0, 0, 100, 100)));
    state.update_selection_for_selector(&selector, None);
    assert_eq!(state.selected(key), Some(true));
}

#[test]
fn intersecting_stroke_with_escaping_hitbox_is_never_selected() {
    let mut state = StrokesState::new();
    // Bounds intersect the selector but are not contained; one hitbox
    // sub-box is not fully contained either.
    let key = state.insert_stroke(marker(
        Aabb::new(50, 50, 150, 150),
        vec![Aabb::new(60, 60, 70, 70), Aabb::new(90, 90, 150, 150)],
    ));
    let selector = Selector::new(Some(Aabb::new(0, 0, 100, 100)));
    state.update_selection_for_selector(&selector, None);
    assert_eq!(state.selected(key), Some(false));
}

#[test]
fn intersecting_brush_with_contained_hitbox_is_selected() {
    let mut state = StrokesState::new();
    let key = state.insert_stroke(StrokeStyle::BrushStroke(BrushStroke {
        bounds: Aabb::new(50, 50, 150, 150),
        hitbox: vec![Aabb::new(60, 60, 70, 70), Aabb::new(80, 80, 90, 90)],
    }));
    let selector = Selector::new(Some(Aabb::new(0, 0, 100, 100)));
    state.update_selection_for_selector(&selector, None);
    assert_eq!(state.selected(key), Some(true));
}

#[test]
fn intersecting_shape_without_hitbox_is_not_selected() {
    let mut state = StrokesState::new();
    let key = state.insert_stroke(shape(90, 90, 150, 150));
    let selector = Selector::new(Some(Aabb::new(0, 0, 100, 100)));
    state.update_selection_for_selector(&selector, None);
    assert_eq!(state.selected(key), Some(false));
}

#[test]
fn selector_without_bounds_changes_nothing() {
    let mut state = StrokesState::new();
    let key = state.insert_stroke(shape(10, 10, 20, 20));
    state.set_selected(key, true);
    let selector = Selector::new(None);
    let changed = state.update_selection_for_selector(&selector, None);
    assert!(!changed);
    assert_eq!(state.selected(key), Some(true));
}

#[test]
fn viewport_filters_strokes_out_of_sight() {
    let mut state = StrokesState::new();
    let seen = state.insert_stroke(shape(10, 10, 20, 20));
    let unseen = state.insert_stroke(shape(30, 30, 40, 40));
    let selector = Selector::new(Some(Aabb::new(0, 0, 100, 100)));
    let viewport = Some(Aabb::new(0, 0, 25, 25));
    state.update_selection_for_selector(&selector, viewport);
    assert_eq!(state.selected(seen), Some(true));
    assert_eq!(state.selected(unseen), Some(false));
}

#[test]
fn hidden_and_trashed_strokes_are_skipped_by_the_scan() {
    let mut state = StrokesState::new();
    let trashed = state.insert_stroke(shape(10, 10, 20, 20));
    let live = state.insert_stroke(shape(30, 30, 40, 40));
    state.set_trashed(trashed, true);
    let selector = Selector::new(Some(Aabb::new(0, 0, 100, 100)));
    state.update_selection_for_selector(&selector, None);
    assert_eq!(state.selected(trashed), Some(false));
    assert_eq!(state.selected(live), Some(true));
}

#[test]
fn example_two_strokes_one_contained() {
    let mut state = StrokesState::new();
    let contained = state.insert_stroke(shape(10, 10, 20, 20));
    let intersecting = state.insert_stroke(shape(90, 90, 150, 150));
    let selector = Selector::new(Some(Aabb::new(0, 0, 100, 100)));
    let changed = state.update_selection_for_selector(&selector, None);
    assert!(changed);
    assert_eq!(state.selected(contained), Some(true));
    assert_eq!(state.selected(intersecting), Some(false));
    assert_eq!(state.selection_bounds(), Some(Aabb::new(10, 10, 20, 20)));
}

#[test]
fn resize_roundtrip_restores_bounds() {
    let mut state = StrokesState::new();
    let a = state.insert_stroke(shape(10, 10, 20, 20));
    let b = state.insert_stroke(shape(50, 50, 100, 100));
    state.set_selected(a, true);
    state.set_selected(b, true);
    let original = state.selection_bounds().unwrap();
    assert_eq!(original, Aabb::new(10, 10, 100, 100));
    state.resize_selection(Aabb::new(10, 10, 190, 190));
    assert_eq!(state.selection_bounds(), Some(Aabb::new(10, 10, 190, 190)));
    assert_eq!(state.stroke_bounds(a), Some(Aabb::new(10, 10, 30, 30)));
    state.resize_selection(original);
    assert_eq!(state.selection_bounds(), Some(original));
    assert_eq!(state.stroke_bounds(a), Some(Aabb::new(10, 10, 20, 20)));
    assert_eq!(state.stroke_bounds(b), Some(Aabb::new(50, 50, 100, 100)));
}

#[test]
fn resize_with_degenerate_source_bounds_is_rejected() {
    let mut state = StrokesState::new();
    let a = state.insert_stroke(shape(10, 10, 10, 30));
    state.set_selected(a, true);
    assert_eq!(state.selection_bounds(), Some(Aabb::new(10, 10, 10, 30)));
    state.resize_selection(Aabb::new(0, 0, 100, 100));
    assert_eq!(state.stroke_bounds(a), Some(Aabb::new(10, 10, 10, 30)));
    assert_eq!(state.selection_bounds(), Some(Aabb::new(10, 10, 10, 30)));
}

#[test]
fn resize_without_selection_bounds_is_rejected() {
    let mut state = StrokesState::new();
    let a = state.insert_stroke(shape(10, 10, 20, 20));
    state.resize_selection(Aabb::new(0, 0, 100, 100));
    assert_eq!(state.stroke_bounds(a), Some(Aabb::new(10, 10, 20, 20)));
    assert_eq!(state.selection_bounds(), None);
}

#[test]
fn translate_moves_only_selection_and_shifts_bounds() {
    let mut state = StrokesState::new();
    let moved = state.insert_stroke(shape(10, 10, 20, 20));
    let still = state.insert_stroke(shape(100, 100, 110, 110));
    state.set_selected(moved, true);
    state.translate_selection(Vector2::new(5, -3));
    assert_eq!(state.stroke_bounds(moved), Some(Aabb::new(15, 7, 25, 17)));
    assert_eq!(state.stroke_bounds(still), Some(Aabb::new(100, 100, 110, 110)));
    assert_eq!(state.selection_bounds(), Some(Aabb::new(15, 7, 25, 17)));
}

#[test]
fn translate_composes_like_a_single_combined_offset() {
    let mut first = StrokesState::new();
    let a1 = first.insert_stroke(shape(10, 10, 20, 20));
    first.set_selected(a1, true);
    first.translate_selection(Vector2::new(3, 4));
    first.translate_selection(Vector2::new(-1, 7));
    let mut second = StrokesState::new();
    let a2 = second.insert_stroke(shape(10, 10, 20, 20));
    second.set_selected(a2, true);
    second.translate_selection(Vector2::new(2, 11));
    assert_eq!(first.stroke_bounds(a1), second.stroke_bounds(a2));
    assert_eq!(first.selection_bounds(), second.selection_bounds());
}

#[test]
fn translate_with_empty_selection_keeps_bounds_empty() {
    let mut state = StrokesState::new();
    state.insert_stroke(shape(10, 10, 20, 20));
    state.translate_selection(Vector2::new(5, 5));
    assert_eq!(state.selection_bounds(), None);
    assert_eq!(state.stroke_bounds(0), Some(Aabb::new(10, 10, 20, 20)));
}

#[test]
fn duplication_clones_selection_with_fixed_offset() {
    let mut state = StrokesState::new();
    let a = state.insert_stroke(shape(0, 0, 10, 10));
    let b = state.insert_stroke(shape(40, 40, 60, 60));
    let c = state.insert_stroke(shape(500, 500, 510, 510));
    state.set_selected(a, true);
    state.set_selected(b, true);
    state.duplicate_selection();
    assert_eq!(state.strokes_len(), 5);
    assert_eq!(state.selected(a), Some(false));
    assert_eq!(state.selected(b), Some(false));
    assert_eq!(state.selected(c), Some(false));
    assert_eq!(state.selected(3), Some(true));
    assert_eq!(state.selected(4), Some(true));
    assert_eq!(state.stroke_bounds(3), Some(Aabb::new(20, 20, 30, 30)));
    assert_eq!(state.stroke_bounds(4), Some(Aabb::new(60, 60, 80, 80)));
    assert_eq!(state.selection_bounds(), Some(Aabb::new(20, 20, 80, 80)));
    assert_eq!(state.selection_len(), 2);
}

#[test]
fn last_selection_key_prefers_latest_creation() {
    let mut state = StrokesState::new();
    let early = state.insert_stroke(shape(0, 0, 10, 10));
    let late = state.insert_stroke(shape(20, 20, 30, 30));
    state.set_selected(early, true);
    state.set_selected(late, true);
    assert_eq!(state.last_selection_key(), Some(late));
    state.set_trashed(late, true);
    assert_eq!(state.last_selection_key(), Some(early));
    state.deselect();
    assert_eq!(state.last_selection_key(), None);
}

#[test]
fn selection_keys_lists_selected_in_key_order() {
    let mut state = StrokesState::new();
    let a = state.insert_stroke(shape(0, 0, 1, 1));
    let b = state.insert_stroke(shape(2, 2, 3, 3));
    let c = state.insert_stroke(shape(4, 4, 5, 5));
    state.set_selected(c, true);
    state.set_selected(a, true);
    let keys = state.selection_keys();
    assert_eq!(keys, vec![a, c]);
    assert_eq!(state.selection_len(), 2);
    assert_eq!(state.selected(b), Some(false));
}

#[test]
fn whole_registry_markup_lists_visible_untrashed_strokes() {
    let mut state = StrokesState::new();
    state.insert_stroke(shape(1, 2, 4, 6));
    let hidden = state.insert_stroke(shape(7, 7, 8, 8));
    state.set_trashed(hidden, true);
    let markup = state.gen_svg_from_strokes().unwrap();
    assert_eq!(markup, "<rect x=\"1\" y=\"2\" width=\"3\" height=\"4\"/>\n");
}

#[test]
fn markup_renders_negative_coordinates() {
    let mut state = StrokesState::new();
    state.insert_stroke(shape(-15, -2, 5, 0));
    let markup = state.gen_svg_from_strokes().unwrap();
    assert_eq!(markup, "<rect x=\"-15\" y=\"-2\" width=\"20\" height=\"2\"/>\n");
}

#[test]
fn export_selection_without_bounds_writes_nothing() {
    let mut state = StrokesState::new();
    state.insert_stroke(shape(10, 10, 20, 20));
    assert_eq!(state.selection_bounds(), None);
    assert_eq!(state.export_selection_as_svg(), None);
}

#[test]
fn export_selection_normalizes_to_origin_and_wraps() {
    let mut state = StrokesState::new();
    let key = state.insert_stroke(shape(10, 10, 20, 30));
    state.set_selected(key, true);
    let markup = state.export_selection_as_svg().unwrap();
    let expected = "<svg xmlns=\"http://www.w3.org/2000/svg\" width=\"10\" height=\"20\">\n<rect x=\"0\" y=\"0\" width=\"10\" height=\"20\"/>\n\n</svg>\n";
    assert_eq!(markup, expected);
}

#[test]
fn malformed_geometry_fails_serialization() {
    let stroke = shape(10, 10, 0, 0);
    let r = stroke.gen_svg_data(Vector2::new(0, 0));
    assert_eq!(r, Err(SvgError::MalformedGeometry));
    assert_eq!(SvgError::MalformedGeometry.message(), "malformed stroke geometry");
}

#[test]
fn can_select_reflects_component_presence() {
    let mut state = StrokesState::new();
    let with = state.insert_stroke(shape(0, 0, 1, 1));
    let without = state.insert_stroke_without_selection(shape(2, 2, 3, 3));
    assert!(state.can_select(with));
    assert!(!state.can_select(without));
}
