use annotator_core::collection::SelectMode;
use annotator_core::editor::{DrawTool, Editor};
use annotator_core::geometry::{resize_transform, Rect, ResizeHandle};
use annotator_core::model::{Lifecycle, ShapeKind};

fn editor_with_two_boxes() -> Editor {
    let mut ed = Editor::new(1, 50);
    ed.start_drawing(10_000, 10_000);
    assert!(ed.finish_drawing(60_000, 60_000, DrawTool::BoxTool, 1));
    ed.start_drawing(30_000, 30_000);
    assert!(ed.finish_drawing(90_000, 90_000, DrawTool::BoxTool, 2));
    ed
}

#[test]
fn created_ids_are_sequential_and_unique() {
    let ed = editor_with_two_boxes();
    let a = ed.annotations.get(0).unwrap();
    let b = ed.annotations.get(1).unwrap();
    assert_eq!(a.id, 1);
    assert_eq!(b.id, 2);
    assert_ne!(a.id, b.id);
}

#[test]
fn tiny_drag_creates_nothing() {
    let mut ed = Editor::new(1, 50);
    ed.start_drawing(10_000, 10_000);
    // 4 x 4 units is below the 5-unit minimum footprint.
    assert!(!ed.finish_drawing(14_000, 14_000, DrawTool::BoxTool, 1));
    assert_eq!(ed.annotations.len(), 0);
}

#[test]
fn point_hit_examples() {
    // A point at (5, 5): a click at (12, 5) is 7 away and hits; a click at
    // (20, 5) is 15 away and misses.
    let mut ed = Editor::new(1, 50);
    ed.start_drawing(0, 0);
    ed.finish_drawing(5_000, 5_000, DrawTool::PointTool, 1);
    assert!(ed.delete_annotation_at(12_000, 5_000));
    let again = ed.delete_annotation_at(12_000, 5_000);
    assert!(!again, "a Rejected point must not be hit again");

    let mut ed2 = Editor::new(1, 50);
    ed2.start_drawing(0, 0);
    ed2.finish_drawing(5_000, 5_000, DrawTool::PointTool, 1);
    assert!(!ed2.delete_annotation_at(20_000, 5_000));
}

#[test]
fn soft_delete_keeps_length() {
    let mut ed = editor_with_two_boxes();
    let before = ed.annotations.len();
    assert!(ed.delete_annotation_at(40_000, 40_000));
    assert_eq!(ed.annotations.len(), before);
    let top = ed.annotations.get(1).unwrap();
    assert_eq!(top.state, Lifecycle::Rejected);
    assert!(!top.selected);
}

#[test]
fn topmost_wins_on_overlap() {
    let mut ed = editor_with_two_boxes();
    // (40, 40) lies inside both boxes; the later one must take the hit.
    assert!(ed.classify_at(40_000, 40_000, 7));
    assert_eq!(ed.annotations.get(1).unwrap().class_id, 7);
    assert_eq!(ed.annotations.get(0).unwrap().class_id, 1);
}

#[test]
fn undo_redo_round_trip() {
    let mut ed = editor_with_two_boxes();
    ed.delete_annotation(0);
    assert_eq!(ed.annotations.get(0).unwrap().state, Lifecycle::Rejected);
    assert!(ed.undo_action());
    assert_eq!(ed.annotations.get(0).unwrap().state, Lifecycle::Manual);
    assert!(ed.redo_action());
    assert_eq!(ed.annotations.get(0).unwrap().state, Lifecycle::Rejected);
    assert!(ed.undo_action());
    assert_eq!(ed.annotations.get(0).unwrap().state, Lifecycle::Manual);
}

#[test]
fn push_after_undo_discards_redo() {
    let mut ed = editor_with_two_boxes();
    ed.delete_annotation(0);
    assert!(ed.undo_action());
    // A new edit invalidates the redo lineage.
    ed.classify_at(40_000, 40_000, 9);
    assert!(!ed.redo_action());
}

#[test]
fn undo_exhausts_exactly_at_capacity() {
    let mut ed = Editor::new(1, 50);
    // 51 edits: the oldest snapshot is evicted, so exactly 50 undos work.
    for i in 0..51 {
        ed.start_drawing(0, 0);
        ed.finish_drawing((10_000 + i) as i64, 10_000, DrawTool::PointTool, 1);
    }
    let mut undone = 0;
    while ed.undo_action() {
        undone += 1;
    }
    assert_eq!(undone, 50);
}

#[test]
fn paste_assigns_fresh_ids_and_offsets() {
    let mut ed = Editor::new(7, 50);
    ed.start_drawing(10_000, 10_000);
    ed.finish_drawing(60_000, 60_000, DrawTool::BoxTool, 1);
    // Force the scenario: collection max id is 7.
    assert_eq!(ed.annotations.get(0).unwrap().id, 7);
    ed.select_all();
    assert_eq!(ed.copy_annotation(), 1);
    ed.select_all();
    assert_eq!(ed.copy_annotation(), 1);
    // Two copies in the clipboard would need two shapes; copy again after
    // pasting to check two pasted shapes instead.
    assert_eq!(ed.paste_annotation(), 1);
    assert_eq!(ed.annotations.get(1).unwrap().id, 8);
    ed.select_all();
    assert_eq!(ed.copy_annotation(), 2);
    let pasted = ed.paste_annotation();
    assert_eq!(pasted, 2);
    let a = ed.annotations.get(2).unwrap();
    let b = ed.annotations.get(3).unwrap();
    assert_eq!(a.id, 9);
    assert_eq!(b.id, 10);
    // Offset by 0.05 units (50 fixed-point thousandths) in both axes.
    assert_eq!(a.x, ed.annotations.get(0).unwrap().x + 50);
    assert_eq!(a.y, ed.annotations.get(0).unwrap().y + 50);
    assert!(!a.selected && !b.selected);
    assert_eq!(a.state, Lifecycle::Manual);
}

#[test]
fn paste_empty_clipboard_is_noop() {
    let mut ed = Editor::new(1, 50);
    assert_eq!(ed.paste_annotation(), 0);
    assert_eq!(ed.annotations.len(), 0);
}

#[test]
fn resize_transform_is_idempotent() {
    let orig = Rect { x: 10_000, y: 10_000, width: 20_000, height: 20_000 };
    let once = resize_transform(ResizeHandle::CornerBottomRight, &orig, 45_000, 52_000);
    let twice = resize_transform(ResizeHandle::CornerBottomRight, &orig, 45_000, 52_000);
    assert_eq!(once, twice);
    assert_eq!(once.width, 35_000);
    assert_eq!(once.height, 42_000);
}

#[test]
fn edge_resize_floors_dimension() {
    let orig = Rect { x: 10_000, y: 10_000, width: 20_000, height: 20_000 };
    let shrunk = resize_transform(ResizeHandle::EdgeRight, &orig, 10_100, 15_000);
    assert_eq!(shrunk.width, 1_000, "edge handles floor the dimension at one unit");
    assert_eq!(shrunk.x, 10_000);
}

#[test]
fn every_edge_handle_floors_its_dimension() {
    let orig = Rect { x: 10_000, y: 10_000, width: 20_000, height: 20_000 };
    // Dragging the top edge past the fixed bottom edge still leaves one unit
    // of height, with the bottom edge pinned.
    let top = resize_transform(ResizeHandle::EdgeTop, &orig, 15_000, 40_000);
    assert_eq!(top.height, 1_000);
    assert_eq!(top.y + top.height, 30_000, "the bottom edge stays fixed");
    // Likewise for the left edge against the fixed right edge.
    let left = resize_transform(ResizeHandle::EdgeLeft, &orig, 40_000, 15_000);
    assert_eq!(left.width, 1_000);
    assert_eq!(left.x + left.width, 30_000, "the right edge stays fixed");
    let bottom = resize_transform(ResizeHandle::EdgeBottom, &orig, 15_000, 9_000);
    assert_eq!(bottom.height, 1_000);
    assert_eq!(bottom.y, 10_000);
}

#[test]
fn polygon_commit_is_undoable() {
    let mut ed = Editor::new(1, 50);
    ed.add_polygon_vertex(0, 0);
    ed.add_polygon_vertex(10_000, 0);
    ed.add_polygon_vertex(10_000, 8_000);
    assert!(ed.finish_polygon(1));
    assert_eq!(ed.annotations.len(), 1);
    assert!(ed.undo_action());
    assert_eq!(ed.annotations.len(), 0);
}

#[test]
fn resize_and_auto_resize_are_undoable() {
    let mut ed = editor_with_two_boxes();
    let before = ed.annotations.get(0).unwrap().width;
    assert!(ed.start_resize(0, ResizeHandle::EdgeRight));
    ed.update_resize(95_000, 15_000);
    assert_ne!(ed.annotations.get(0).unwrap().width, before);
    assert!(ed.undo_action());
    assert_eq!(ed.annotations.get(0).unwrap().width, before);
    // The automatic refinement is one undoable step too.
    ed.apply_auto_resize(0, Rect { x: 11_000, y: 11_000, width: 40_000, height: 40_000 });
    assert_eq!(ed.annotations.get(0).unwrap().width, 40_000);
    assert!(ed.undo_action());
    assert_eq!(ed.annotations.get(0).unwrap().width, before);
}

#[test]
fn resize_session_uses_grab_bounds() {
    let mut ed = editor_with_two_boxes();
    assert!(ed.start_resize(0, ResizeHandle::CornerBottomRight));
    ed.update_resize(70_000, 70_000);
    ed.update_resize(65_000, 64_000);
    let a = ed.annotations.get(0).unwrap();
    assert_eq!(a.width, 55_000);
    assert_eq!(a.height, 54_000);
    assert_eq!(a.state, Lifecycle::Manual);
}

#[test]
fn resize_skips_rejected_target() {
    let mut ed = editor_with_two_boxes();
    ed.delete_annotation(0);
    assert!(!ed.start_resize(0, ResizeHandle::EdgeTop));
}

#[test]
fn selection_modes() {
    let mut ed = editor_with_two_boxes();
    ed.select_annotation(0, SelectMode::Replace);
    assert!(ed.annotations.get(0).unwrap().selected);
    assert!(!ed.annotations.get(1).unwrap().selected);
    ed.select_annotation(1, SelectMode::Toggle);
    assert!(ed.annotations.get(0).unwrap().selected);
    assert!(ed.annotations.get(1).unwrap().selected);
    ed.select_annotation(1, SelectMode::Toggle);
    assert!(!ed.annotations.get(1).unwrap().selected);
    ed.deselect_all();
    ed.select_annotation(0, SelectMode::Replace);
    ed.select_annotation(1, SelectMode::Range);
    assert!(ed.annotations.get(0).unwrap().selected);
    assert!(ed.annotations.get(1).unwrap().selected);
}

#[test]
fn classify_selected_accepts_pending() {
    let mut ed = editor_with_two_boxes();
    ed.select_all();
    assert!(ed.classify_selected(4));
    assert_eq!(ed.annotations.get(0).unwrap().class_id, 4);
    assert_eq!(ed.annotations.get(1).unwrap().class_id, 4);
    ed.deselect_all();
    assert!(!ed.classify_selected(5));
}

#[test]
fn polygon_needs_three_vertices() {
    let mut ed = Editor::new(1, 50);
    ed.add_polygon_vertex(0, 0);
    ed.add_polygon_vertex(10_000, 0);
    assert!(!ed.finish_polygon(1));
    assert_eq!(ed.annotations.len(), 0);
    ed.add_polygon_vertex(0, 0);
    ed.add_polygon_vertex(10_000, 0);
    ed.add_polygon_vertex(10_000, 8_000);
    assert!(ed.finish_polygon(2));
    let p = ed.annotations.get(0).unwrap();
    assert_eq!(p.kind, ShapeKind::Polygon);
    assert_eq!(p.x, 0);
    assert_eq!(p.width, 10_000);
    assert_eq!(p.height, 8_000);
    assert_eq!(p.vertices.len(), 3);
}

#[test]
fn cancel_polygon_discards_vertices() {
    let mut ed = Editor::new(1, 50);
    ed.add_polygon_vertex(0, 0);
    ed.cancel_polygon();
    ed.add_polygon_vertex(0, 0);
    ed.add_polygon_vertex(1_000, 0);
    assert!(!ed.finish_polygon(1));
}
