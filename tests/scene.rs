use rust_canvas::canvas::Canvas;
use rust_canvas::element::Shape;

fn canvas() -> Canvas {
    Canvas::new(800_000, 500_000)
}

fn ids(c: &Canvas) -> Vec<u64> {
    c.elements.iter().map(|e| e.id).collect()
}

fn stroke(c: &mut Canvas, pts: &[(i64, i64)]) {
    c.start_drawing(pts[0].0, pts[0].1);
    for p in &pts[1..] {
        c.draw(p.0, p.1);
    }
    c.stop_drawing();
}

fn rect(c: &mut Canvas, x0: i64, y0: i64, x1: i64, y1: i64) {
    c.set_tool_mode("rect");
    c.start_shape(x0, y0);
    c.update_shape(x1, y1);
    c.finish_shape();
}

fn rect_origin(c: &Canvas, i: usize) -> (i64, i64) {
    match &c.elements[i].shape {
        Shape::Rect { x, y, .. } => (*x, *y),
        _ => panic!("not a rectangle"),
    }
}

#[test]
fn delete_selected_then_undo_restores_order() {
    let mut c = canvas();
    stroke(&mut c, &[(0, 0), (10, 0), (20, 5)]);
    rect(&mut c, 50, 50, 80, 90);
    assert_eq!(ids(&c), vec![1, 2]);
    assert!(c.try_select_at(10, 0, false));
    c.delete_selected();
    assert_eq!(ids(&c), vec![2]);
    c.undo();
    assert_eq!(ids(&c), vec![1, 2]);
}

#[test]
fn delete_from_the_middle_keeps_z_order_on_undo() {
    let mut c = canvas();
    rect(&mut c, 0, 0, 10, 10);
    rect(&mut c, 100, 0, 110, 10);
    rect(&mut c, 200, 0, 210, 10);
    assert!(c.try_select_at(100, 5, false));
    c.delete_selected();
    assert_eq!(ids(&c), vec![1, 3]);
    c.undo();
    assert_eq!(ids(&c), vec![1, 2, 3]);
    c.redo();
    assert_eq!(ids(&c), vec![1, 3]);
}

#[test]
fn paste_cascades_offset() {
    let mut c = canvas();
    rect(&mut c, 0, 0, 10, 10);
    c.select_all();
    c.copy_selected();
    c.paste();
    assert_eq!(c.elements.len(), 2);
    assert_eq!(rect_origin(&c, 1), (20, 20));
    c.paste();
    assert_eq!(c.elements.len(), 3);
    assert_eq!(rect_origin(&c, 2), (40, 40));
    assert_eq!(ids(&c), vec![1, 2, 3]);
    assert_eq!(c.selected_ids, vec![3]);
}

#[test]
fn paste_with_empty_clipboard_does_nothing() {
    let mut c = canvas();
    rect(&mut c, 0, 0, 10, 10);
    c.paste();
    assert_eq!(c.elements.len(), 1);
    assert!(c.can_undo());
    c.undo();
    assert!(!c.can_undo());
}

#[test]
fn ids_increase_and_are_never_reused() {
    let mut c = canvas();
    stroke(&mut c, &[(0, 0), (5, 5)]);
    stroke(&mut c, &[(50, 0), (55, 5)]);
    c.select_all();
    c.delete_selected();
    c.undo();
    c.redo();
    c.undo();
    stroke(&mut c, &[(100, 0), (105, 5)]);
    assert_eq!(ids(&c), vec![1, 2, 3]);
    assert_eq!(c.next_id, 4);
    // a single-point stroke is discarded but still used up its id
    c.start_drawing(0, 0);
    c.stop_drawing();
    assert_eq!(c.elements.len(), 3);
    assert_eq!(c.next_id, 5);
    rect(&mut c, 0, 0, 3, 3);
    assert_eq!(c.elements[3].id, 5);
}

#[test]
fn undo_and_redo_of_add() {
    let mut c = canvas();
    stroke(&mut c, &[(0, 0), (5, 5), (9, 1)]);
    assert_eq!(c.get_stroke_count(), 1);
    c.undo();
    assert_eq!(c.get_stroke_count(), 0);
    c.redo();
    assert_eq!(ids(&c), vec![1]);
}

#[test]
fn undo_and_redo_of_move() {
    let mut c = canvas();
    rect(&mut c, 0, 0, 10, 10);
    c.select_all();
    c.start_move(0, 0);
    c.move_selected(5, 7);
    c.move_selected(8, 9);
    c.stop_move();
    assert_eq!(rect_origin(&c, 0), (8, 9));
    assert_eq!(c.undo_stack.len(), 2);
    c.undo();
    assert_eq!(rect_origin(&c, 0), (0, 0));
    c.redo();
    assert_eq!(rect_origin(&c, 0), (8, 9));
}

#[test]
fn move_without_net_distance_records_nothing() {
    let mut c = canvas();
    rect(&mut c, 0, 0, 10, 10);
    c.select_all();
    c.start_move(0, 0);
    c.move_selected(5, 5);
    c.move_selected(0, 0);
    c.stop_move();
    assert_eq!(c.undo_stack.len(), 1);
    assert!(!c.get_is_moving());
}

#[test]
fn undo_and_redo_of_paste() {
    let mut c = canvas();
    rect(&mut c, 0, 0, 10, 10);
    c.select_all();
    c.copy_selected();
    c.paste();
    assert_eq!(ids(&c), vec![1, 2]);
    c.undo();
    assert_eq!(ids(&c), vec![1]);
    assert!(!c.has_selection());
    c.redo();
    assert_eq!(ids(&c), vec![1, 2]);
}

#[test]
fn undo_and_redo_of_clear() {
    let mut c = canvas();
    rect(&mut c, 0, 0, 10, 10);
    stroke(&mut c, &[(0, 0), (5, 5)]);
    c.clear();
    assert_eq!(c.get_stroke_count(), 0);
    c.undo();
    assert_eq!(ids(&c), vec![1, 2]);
    c.redo();
    assert_eq!(c.get_stroke_count(), 0);
}

#[test]
fn clear_of_empty_scene_records_nothing() {
    let mut c = canvas();
    c.clear();
    assert!(!c.can_undo());
}

#[test]
fn new_action_after_undo_drops_redo() {
    let mut c = canvas();
    rect(&mut c, 0, 0, 10, 10);
    c.undo();
    assert!(c.can_redo());
    rect(&mut c, 20, 20, 30, 30);
    assert!(!c.can_redo());
    c.redo();
    assert_eq!(ids(&c), vec![2]);
}

#[test]
fn undo_and_redo_on_empty_logs_do_nothing() {
    let mut c = canvas();
    c.undo();
    c.redo();
    assert_eq!(c.get_stroke_count(), 0);
    assert!(!c.needs_render);
}

#[test]
fn undo_clears_selection() {
    let mut c = canvas();
    rect(&mut c, 0, 0, 10, 10);
    rect(&mut c, 50, 50, 60, 60);
    c.select_all();
    c.undo();
    assert!(!c.has_selection());
}

#[test]
fn shift_click_toggles_and_miss_keeps_selection() {
    let mut c = canvas();
    rect(&mut c, 0, 0, 10, 10);
    rect(&mut c, 100, 100, 110, 110);
    assert!(c.try_select_at(0, 5, false));
    assert!(c.try_select_at(100, 105, true));
    assert_eq!(c.selected_ids.len(), 2);
    assert!(c.try_select_at(100, 105, true));
    assert_eq!(c.selected_ids, vec![1]);
    assert!(!c.try_select_at(500, 500, true));
    assert_eq!(c.selected_ids, vec![1]);
    assert!(!c.try_select_at(500, 500, false));
    assert!(!c.has_selection());
}

#[test]
fn click_picks_topmost() {
    let mut c = canvas();
    rect(&mut c, 0, 0, 10, 10);
    rect(&mut c, 0, 0, 10, 10);
    assert!(c.try_select_at(0, 0, false));
    assert_eq!(c.selected_ids, vec![2]);
    assert!(c.is_over_selected(10, 5));
}

#[test]
fn rubber_band_disjoint_selects_nothing() {
    let mut c = canvas();
    rect(&mut c, 0, 0, 10, 10);
    rect(&mut c, 50, 50, 60, 60);
    c.start_rubber_band(200_000, 200_000);
    c.update_rubber_band(300_000, 300_000);
    c.finish_rubber_band(false);
    assert!(!c.has_selection());
}

#[test]
fn rubber_band_covering_selects_all() {
    let mut c = canvas();
    rect(&mut c, 0, 0, 10, 10);
    stroke(&mut c, &[(50, 50), (60, 70)]);
    c.start_rubber_band(-10_000, -10_000);
    c.update_rubber_band(100_000, 100_000);
    c.finish_rubber_band(false);
    let mut sel = c.selected_ids.clone();
    sel.sort();
    assert_eq!(sel, vec![1, 2]);
    assert!(!c.get_is_rubber_band());
}

#[test]
fn rubber_band_touching_edge_selects() {
    let mut c = canvas();
    rect(&mut c, 0, 0, 10, 10);
    // box of the rectangle with width 5 reaches 13
    c.start_rubber_band(13_000, 13_000);
    c.update_rubber_band(20_000, 20_000);
    c.finish_rubber_band(false);
    assert_eq!(c.selected_ids, vec![1]);
}

#[test]
fn degenerate_shapes_are_discarded() {
    let mut c = canvas();
    rect(&mut c, 5, 5, 5, 5);
    c.set_tool_mode("circle");
    c.start_shape(5, 5);
    c.finish_shape();
    assert_eq!(c.get_stroke_count(), 0);
    assert!(!c.get_is_drawing_shape());
    c.set_tool_mode("line");
    c.start_shape(5, 5);
    c.finish_shape();
    assert_eq!(c.get_stroke_count(), 1);
}

#[test]
fn circle_radius_from_drag() {
    let mut c = canvas();
    c.set_tool_mode("circle");
    c.start_shape(10, 10);
    c.update_shape(13, 14);
    c.finish_shape();
    match &c.elements[0].shape {
        Shape::Circle { cx, cy, r } => assert_eq!((*cx, *cy, *r), (10, 10, 5)),
        _ => panic!("not a circle"),
    }
}

#[test]
fn rectangle_from_reversed_drag() {
    let mut c = canvas();
    rect(&mut c, 30, 40, 10, 15);
    match &c.elements[0].shape {
        Shape::Rect { x, y, w, h } => assert_eq!((*x, *y, *w, *h), (10, 15, 20, 25)),
        _ => panic!("not a rectangle"),
    }
}

#[test]
fn eraser_strokes_are_white() {
    let mut c = canvas();
    c.set_tool_mode("eraser");
    assert!(c.get_is_eraser());
    stroke(&mut c, &[(0, 0), (5, 5)]);
    assert_eq!(c.elements[0].style.color, "#ffffff");
}

#[test]
fn tool_names() {
    let mut c = canvas();
    c.set_tool_mode("select");
    assert!(c.get_is_select_mode());
    c.set_tool_mode("line");
    assert!(c.is_shape_tool());
    c.set_tool_mode("bogus");
    assert!(!c.is_shape_tool());
    assert!(!c.get_is_select_mode());
    c.set_select_mode(true);
    assert!(c.get_is_select_mode());
    c.set_select_mode(false);
    assert!(!c.get_is_select_mode());
}

#[test]
fn style_settings() {
    let mut c = canvas();
    c.set_color("#ff0000");
    c.set_line_width(0);
    assert_eq!(c.line_width, 5);
    c.set_line_width(12);
    stroke(&mut c, &[(0, 0), (5, 5)]);
    assert_eq!(c.elements[0].style.color, "#ff0000");
    assert_eq!(c.elements[0].style.width, 12);
}

#[test]
fn draw_without_start_is_ignored() {
    let mut c = canvas();
    c.draw(5, 5);
    c.stop_drawing();
    assert_eq!(c.get_stroke_count(), 0);
    assert!(!c.get_is_drawing());
}

#[test]
fn out_of_range_points_are_ignored() {
    let mut c = canvas();
    c.start_drawing(100_000_000, 0);
    assert!(!c.get_is_drawing());
    assert_eq!(c.next_id, 1);
}
