use rust_canvas::element::{Element, Shape, Style};
use rust_canvas::geometry::{isqrt, segment_near, BoundingBox, Point};

fn freehand(points: &[(i64, i64)], width: u32) -> Element {
    Element {
        id: 1,
        shape: Shape::Freehand { points: points.iter().map(|p| Point { x: p.0, y: p.1 }).collect() },
        style: Style { color: "#000000".to_string(), width },
    }
}

#[test]
fn freehand_hit_on_segment() {
    let e = freehand(&[(0, 0), (100, 0), (100, 100)], 10);
    assert!(e.hit_test(50, 0));
    assert!(e.hit_test(100, 30));
}

#[test]
fn freehand_hit_threshold_is_nine_for_width_ten() {
    let e = freehand(&[(0, 0), (100, 0)], 10);
    assert!(e.hit_test(50, 9));
    assert!(!e.hit_test(50, 10));
    assert!(!e.hit_test(-10, 0));
    assert!(e.hit_test(-9, 0));
}

#[test]
fn thin_strokes_use_minimum_threshold() {
    let e = freehand(&[(0, 0), (100, 0)], 1);
    assert!(e.hit_test(50, 8));
    assert!(!e.hit_test(50, 9));
}

#[test]
fn circle_is_hit_on_rim_only() {
    let e = Element {
        id: 1,
        shape: Shape::Circle { cx: 0, cy: 0, r: 50 },
        style: Style { color: "#000000".to_string(), width: 4 },
    };
    assert!(e.hit_test(50, 0));
    assert!(e.hit_test(0, -42));
    assert!(!e.hit_test(0, 0));
    assert!(!e.hit_test(59, 0));
}

#[test]
fn rectangle_is_hit_on_edges_only() {
    let e = Element {
        id: 1,
        shape: Shape::Rect { x: 0, y: 0, w: 100, h: 50 },
        style: Style { color: "#000000".to_string(), width: 2 },
    };
    assert!(e.hit_test(100, 25));
    assert!(e.hit_test(50, 55));
    assert!(!e.hit_test(50, 25));
}

#[test]
fn bounding_boxes() {
    let line = Element {
        id: 1,
        shape: Shape::Line { x1: 10, y1: 20, x2: 0, y2: 5 },
        style: Style { color: "#000000".to_string(), width: 5 },
    };
    assert_eq!(line.bounding_box(), Some(BoundingBox { min_x: -3, min_y: 2, max_x: 13, max_y: 23 }));
    let circle = Element {
        id: 2,
        shape: Shape::Circle { cx: 0, cy: 0, r: 10 },
        style: Style { color: "#000000".to_string(), width: 4 },
    };
    assert_eq!(circle.bounding_box(), Some(BoundingBox { min_x: -12, min_y: -12, max_x: 12, max_y: 12 }));
    let path = freehand(&[(3, 9), (-4, 2), (7, 1)], 2);
    assert_eq!(path.bounding_box(), Some(BoundingBox { min_x: -5, min_y: 0, max_x: 8, max_y: 10 }));
    let empty = freehand(&[], 2);
    assert_eq!(empty.bounding_box(), None);
}

#[test]
fn boxes_touching_intersect() {
    let a = BoundingBox { min_x: 0, min_y: 0, max_x: 10, max_y: 10 };
    let b = BoundingBox { min_x: 10, min_y: 10, max_x: 20, max_y: 20 };
    let c = BoundingBox { min_x: 11, min_y: 0, max_x: 20, max_y: 10 };
    assert!(a.intersects(&b));
    assert!(!a.intersects(&c));
}

#[test]
fn translate_moves_placing_coordinates() {
    let mut e = Element {
        id: 1,
        shape: Shape::Rect { x: 1, y: 2, w: 3, h: 4 },
        style: Style { color: "#000000".to_string(), width: 1 },
    };
    assert!(e.can_translate(10, -2));
    e.translate(10, -2);
    match e.shape {
        Shape::Rect { x, y, w, h } => assert_eq!((x, y, w, h), (11, 0, 3, 4)),
        _ => panic!("not a rectangle"),
    }
    let mut p = freehand(&[(0, 0), (1, 1)], 1);
    p.translate(5, 5);
    match &p.shape {
        Shape::Freehand { points } => assert_eq!(points[1], Point { x: 6, y: 6 }),
        _ => panic!("not a path"),
    }
}

#[test]
fn segment_distance_cases() {
    let a = Point { x: 0, y: 0 };
    let b = Point { x: 10, y: 0 };
    // beyond the end: distance to b is 5
    assert!(segment_near(Point { x: 13, y: 4 }, a, b, 10));
    assert!(!segment_near(Point { x: 13, y: 4 }, a, b, 9));
    // degenerate segment
    assert!(segment_near(Point { x: 3, y: 4 }, a, a, 10));
    assert!(!segment_near(Point { x: 3, y: 4 }, a, a, 9));
}

#[test]
fn integer_square_roots() {
    assert_eq!(isqrt(0), 0);
    assert_eq!(isqrt(24), 4);
    assert_eq!(isqrt(25), 5);
    assert_eq!(isqrt(1 << 60), 1 << 30);
}
