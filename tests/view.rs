use rust_canvas::canvas::Canvas;

fn canvas() -> Canvas {
    Canvas::new(800_000, 500_000)
}

#[test]
fn zoom_in_keeps_anchor() {
    let mut c = canvas();
    let wx = c.screen_to_world_x(100);
    let wy = c.screen_to_world_y(100);
    c.zoom_at(100, 100, -1);
    assert_eq!(c.get_zoom(), 1100);
    assert_eq!(c.screen_to_world_x(100), wx);
    assert_eq!(c.screen_to_world_y(100), wy);
}

#[test]
fn zoom_anchor_after_pan_and_repeated_steps() {
    let mut c = canvas();
    c.start_pan(0, 0);
    c.update_pan(123_456, -7_890);
    c.stop_pan();
    let wx = c.screen_to_world_x(100_000);
    let wy = c.screen_to_world_y(100_000);
    for _ in 0..5 {
        c.zoom_at(100_000, 100_000, -1);
    }
    for _ in 0..9 {
        c.zoom_at(100_000, 100_000, 1);
    }
    assert_eq!(c.screen_to_world_x(100_000), wx);
    assert_eq!(c.screen_to_world_y(100_000), wy);
}

#[test]
fn zoom_is_clamped() {
    let mut c = canvas();
    for _ in 0..60 {
        c.zoom_at(0, 0, 1);
    }
    assert_eq!(c.get_zoom(), 100);
    for _ in 0..80 {
        c.zoom_at(0, 0, -1);
    }
    assert_eq!(c.get_zoom(), 10000);
    c.set_zoom(50_000);
    assert_eq!(c.get_zoom(), 10000);
    c.set_zoom(1);
    assert_eq!(c.get_zoom(), 100);
}

#[test]
fn world_screen_round_trip() {
    let mut c = canvas();
    c.start_pan(0, 0);
    c.update_pan(-31_337, 4_242);
    c.zoom_at(12_345, 678, 1);
    c.zoom_at(12_345, 678, 1);
    for w in [-1000i64, -1, 0, 7, 99_999] {
        let sx = c.camera.world_to_screen_x(w);
        let sy = c.camera.world_to_screen_y(w);
        assert_eq!(c.screen_to_world_x(sx), w);
        assert_eq!(c.screen_to_world_y(sy), w);
    }
}

#[test]
fn screen_to_world_rounds_down() {
    let mut c = canvas();
    c.set_zoom(2000);
    // centre (400_000, 250_000) stays over world (400, 250)
    assert_eq!(c.camera.pan_x, -400_000);
    assert_eq!(c.screen_to_world_x(0), 200);
    assert_eq!(c.screen_to_world_x(-1), 199);
}

#[test]
fn pan_follows_drag_from_start() {
    let mut c = canvas();
    c.start_pan(1000, 1000);
    assert!(c.get_is_panning());
    c.update_pan(3000, 500);
    c.update_pan(6000, 2000);
    assert_eq!((c.camera.pan_x, c.camera.pan_y), (5000, 1000));
    c.stop_pan();
    c.update_pan(0, 0);
    assert_eq!((c.camera.pan_x, c.camera.pan_y), (5000, 1000));
}

#[test]
fn fit_to_view_frames_content() {
    let mut c = canvas();
    c.set_tool_mode("rect");
    c.start_shape(0, 0);
    c.update_shape(100, 100);
    c.finish_shape();
    c.fit_to_view();
    assert_eq!(c.get_zoom(), 3962);
    assert_eq!((c.camera.pan_x, c.camera.pan_y), (201_900, 51_900));
    c.reset_view();
    assert_eq!((c.get_zoom(), c.camera.pan_x, c.camera.pan_y), (1000, 0, 0));
}

#[test]
fn fit_to_view_of_empty_scene_resets() {
    let mut c = canvas();
    c.set_zoom(3000);
    c.fit_to_view();
    assert_eq!((c.get_zoom(), c.camera.pan_x, c.camera.pan_y), (1000, 0, 0));
}
