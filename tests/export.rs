use rust_canvas::canvas::Canvas;

#[test]
fn empty_scene_exports_blank_canvas() {
    let c = Canvas::new(800_000, 500_000);
    assert_eq!(
        c.export_svg(),
        "<svg xmlns=\"http://www.w3.org/2000/svg\" viewBox=\"0 0 800 500\"><rect width=\"800\" height=\"500\" fill=\"white\"/></svg>"
    );
}

#[test]
fn line_exports_with_padded_view_box() {
    let mut c = Canvas::new(800_000, 500_000);
    c.set_tool_mode("line");
    c.start_shape(0, 0);
    c.update_shape(10, 20);
    c.finish_shape();
    assert_eq!(
        c.export_svg(),
        "<svg xmlns=\"http://www.w3.org/2000/svg\" viewBox=\"-13 -13 36 46\">\n  <rect x=\"-13\" y=\"-13\" width=\"36\" height=\"46\" fill=\"white\"/>\n  <line x1=\"0\" y1=\"0\" x2=\"10\" y2=\"20\" stroke=\"#000000\" stroke-width=\"5\" stroke-linecap=\"round\"/>\n</svg>"
    );
}

#[test]
fn elements_export_in_paint_order() {
    let mut c = Canvas::new(800_000, 500_000);
    c.set_color("red");
    c.set_line_width(2);
    c.start_drawing(-5, 0);
    c.draw(5, 10);
    c.draw(15, -20);
    c.stop_drawing();
    c.set_tool_mode("circle");
    c.start_shape(0, 0);
    c.update_shape(0, 3);
    c.finish_shape();
    c.set_tool_mode("rect");
    c.start_shape(1, 2);
    c.update_shape(4, 6);
    c.finish_shape();
    let svg = c.export_svg();
    let lines: Vec<&str> = svg.lines().collect();
    assert_eq!(lines.len(), 6);
    assert_eq!(lines[0], "<svg xmlns=\"http://www.w3.org/2000/svg\" viewBox=\"-16 -31 42 52\">");
    assert_eq!(
        lines[2],
        "  <path d=\"M -5 0 L 5 10 L 15 -20\" stroke=\"red\" stroke-width=\"2\" fill=\"none\" stroke-linecap=\"round\" stroke-linejoin=\"round\"/>"
    );
    assert_eq!(lines[3], "  <circle cx=\"0\" cy=\"0\" r=\"3\" stroke=\"red\" stroke-width=\"2\" fill=\"none\"/>");
    assert_eq!(
        lines[4],
        "  <rect x=\"1\" y=\"2\" width=\"3\" height=\"4\" stroke=\"red\" stroke-width=\"2\" fill=\"none\" stroke-linejoin=\"round\"/>"
    );
    assert_eq!(lines[5], "</svg>");
}
