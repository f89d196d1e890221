//! Drawable elements: a shape, a stroke style and an identity.
use vstd::prelude::*;
use crate::geometry::{
    dist2, in_range, near_segment, segment_near, sq, BoundingBox, Point, COORD_LIMIT,
};

verus! {

/// Widest stroke an element may have, in world units.
pub const WIDTH_LIMIT: u32 = 65536;

/// Largest circle radius, in world units.
pub const RADIUS_LIMIT: i64 = 67108864;

/// Stroke colour and width.
#[derive(Debug)]
pub struct Style {
    pub color: String,
    pub width: u32,
}

/// The geometry of an element.
#[derive(Debug)]
pub enum Shape {
    Freehand { points: Vec<Point> },
    Line { x1: i64, y1: i64, x2: i64, y2: i64 },
    Rect { x: i64, y: i64, w: i64, h: i64 },
    Circle { cx: i64, cy: i64, r: i64 },
}

/// One drawable object of the scene.
#[derive(Debug)]
pub struct Element {
    pub id: u64,
    pub shape: Shape,
    pub style: Style,
}

/// What a shape is, as mathematical values.
pub enum ShapeModel {
    Freehand(Seq<Point>),
    Line(int, int, int, int),
    Rect(int, int, int, int),
    Circle(int, int, int),
}

/// What an element is, as mathematical values.
pub struct ElementModel {
    pub id: u64,
    pub shape: ShapeModel,
    pub color: Seq<char>,
    pub width: int,
}

pub open spec fn pt(x: int, y: int) -> Point {
    Point { x: x as i64, y: y as i64 }
}

pub open spec fn pt_in_range(x: int, y: int) -> bool {
    in_range(x) && in_range(y)
}

impl ShapeModel {
    /// Coordinates in range, extents non-negative, rectangles wholly in
    /// range, at least one point on a freehand shape.
    pub open spec fn wf(&self) -> bool {
        match *self {
            ShapeModel::Freehand(ps) => ps.len() >= 1 && all_wf(ps),
            ShapeModel::Line(x1, y1, x2, y2) => pt_in_range(x1, y1) && pt_in_range(x2, y2),
            ShapeModel::Rect(x, y, w, h) => pt_in_range(x, y) && w >= 0 && h >= 0
                && pt_in_range(x + w, y + h),
            ShapeModel::Circle(cx, cy, r) => pt_in_range(cx, cy) && 0 <= r <= RADIUS_LIMIT,
        }
    }

    /// The shape shifted by `(dx, dy)`; extents are kept.
    pub open spec fn moved(&self, dx: int, dy: int) -> ShapeModel {
        match *self {
            ShapeModel::Freehand(ps) => ShapeModel::Freehand(shifted(ps, dx, dy)),
            ShapeModel::Line(x1, y1, x2, y2) => ShapeModel::Line(x1 + dx, y1 + dy, x2 + dx, y2 + dy),
            ShapeModel::Rect(x, y, w, h) => ShapeModel::Rect(x + dx, y + dy, w, h),
            ShapeModel::Circle(cx, cy, r) => ShapeModel::Circle(cx + dx, cy + dy, r),
        }
    }

    /// Shifting by `(dx, dy)` keeps every coordinate in range.
    pub open spec fn can_move(&self, dx: int, dy: int) -> bool {
        match *self {
            ShapeModel::Freehand(ps) => all_fit(ps, dx, dy),
            ShapeModel::Line(x1, y1, x2, y2) => pt_in_range(x1 + dx, y1 + dy) && pt_in_range(
                x2 + dx,
                y2 + dy,
            ),
            ShapeModel::Rect(x, y, w, h) => pt_in_range(x + dx, y + dy) && pt_in_range(
                x + w + dx,
                y + h + dy,
            ),
            ShapeModel::Circle(cx, cy, r) => pt_in_range(cx + dx, cy + dy),
        }
    }
}

impl Shape {
    pub open spec fn view(&self) -> ShapeModel {
        match self {
            Shape::Freehand { points } => ShapeModel::Freehand(points@),
            Shape::Line { x1, y1, x2, y2 } => ShapeModel::Line(
                *x1 as int,
                *y1 as int,
                *x2 as int,
                *y2 as int,
            ),
            Shape::Rect { x, y, w, h } => ShapeModel::Rect(*x as int, *y as int, *w as int, *h as int),
            Shape::Circle { cx, cy, r } => ShapeModel::Circle(*cx as int, *cy as int, *r as int),
        }
    }
}

impl ElementModel {
    pub open spec fn wf(&self) -> bool {
        1 <= self.width <= WIDTH_LIMIT && self.shape.wf()
    }

    /// Twice the hit distance: `max(width / 2 + 4, 8)`, doubled.
    pub open spec fn reach(&self) -> int {
        if self.width + 8 > 16 {
            self.width + 8
        } else {
            16
        }
    }

    /// Half the stroke width, rounded up so that the box covers the stroke.
    pub open spec fn half_width(&self) -> int {
        (self.width + 1) / 2
    }

    pub open spec fn moved(&self, dx: int, dy: int) -> ElementModel {
        ElementModel { shape: self.shape.moved(dx, dy), ..*self }
    }

    /// The box around the shape, grown by half the stroke width on every
    /// side; none for a freehand shape without points.
    pub open spec fn bounds(&self) -> Option<BoundingBox> {
        let hw = self.half_width();
        match self.shape {
            ShapeModel::Freehand(ps) => if ps.len() == 0 {
                None
            } else {
                Some(
                    BoundingBox {
                        min_x: (seq_min(xs_of(ps)) - hw) as i64,
                        min_y: (seq_min(ys_of(ps)) - hw) as i64,
                        max_x: (seq_max(xs_of(ps)) + hw) as i64,
                        max_y: (seq_max(ys_of(ps)) + hw) as i64,
                    },
                )
            },
            ShapeModel::Line(x1, y1, x2, y2) => Some(
                BoundingBox {
                    min_x: (min(x1, x2) - hw) as i64,
                    min_y: (min(y1, y2) - hw) as i64,
                    max_x: (max(x1, x2) + hw) as i64,
                    max_y: (max(y1, y2) + hw) as i64,
                },
            ),
            ShapeModel::Rect(x, y, w, h) => Some(
                BoundingBox {
                    min_x: (x - hw) as i64,
                    min_y: (y - hw) as i64,
                    max_x: (x + w + hw) as i64,
                    max_y: (y + h + hw) as i64,
                },
            ),
            ShapeModel::Circle(cx, cy, r) => Some(
                BoundingBox {
                    min_x: (cx - r - hw) as i64,
                    min_y: (cy - r - hw) as i64,
                    max_x: (cx + r + hw) as i64,
                    max_y: (cy + r + hw) as i64,
                },
            ),
        }
    }

    /// Whether the point lies on the drawn outline, within the hit distance.
    pub open spec fn hits(&self, p: Point) -> bool {
        let k = self.reach();
        match self.shape {
            ShapeModel::Freehand(ps) => exists|i: int|
                0 <= i && i + 1 < ps.len() && near_segment(p, #[trigger] ps[i], ps[i + 1], k),
            ShapeModel::Line(x1, y1, x2, y2) => near_segment(p, pt(x1, y1), pt(x2, y2), k),
            ShapeModel::Rect(x, y, w, h) => near_segment(p, pt(x, y), pt(x + w, y), k)
                || near_segment(p, pt(x + w, y), pt(x + w, y + h), k) || near_segment(
                p,
                pt(x + w, y + h),
                pt(x, y + h),
                k,
            ) || near_segment(p, pt(x, y + h), pt(x, y), k),
            ShapeModel::Circle(cx, cy, r) => {
                let d = 4 * dist2(p, pt(cx, cy));
                d <= sq(2 * r + k) && (2 * r - k <= 0 || sq(2 * r - k) <= d)
            },
        }
    }
}

/// Largest magnitude of a coordinate of an element's box.
pub const BOX_LIMIT: i64 = 134217728;

/// Every side of the box lies within the box limit.
pub open spec fn box_ok(b: BoundingBox) -> bool {
    -BOX_LIMIT <= b.min_x && b.max_x <= BOX_LIMIT && -BOX_LIMIT <= b.min_y && b.max_y <= BOX_LIMIT
}

pub open spec fn min(a: int, b: int) -> int {
    if a <= b {
        a
    } else {
        b
    }
}

pub open spec fn max(a: int, b: int) -> int {
    if a >= b {
        a
    } else {
        b
    }
}

pub open spec fn xs_of(ps: Seq<Point>) -> Seq<int> {
    ps.map_values(|p: Point| p.x as int)
}

pub open spec fn ys_of(ps: Seq<Point>) -> Seq<int> {
    ps.map_values(|p: Point| p.y as int)
}

/// Least value of a non-empty sequence.
pub open spec fn seq_min(s: Seq<int>) -> int
    decreases s.len(),
{
    if s.len() <= 1 {
        s[0]
    } else {
        min(seq_min(s.drop_last()), s.last())
    }
}

/// Greatest value of a non-empty sequence.
pub open spec fn seq_max(s: Seq<int>) -> int
    decreases s.len(),
{
    if s.len() <= 1 {
        s[0]
    } else {
        max(seq_max(s.drop_last()), s.last())
    }
}

impl Element {
    pub open spec fn view(&self) -> ElementModel {
        ElementModel {
            id: self.id,
            shape: self.shape@,
            color: self.style.color@,
            width: self.style.width as int,
        }
    }

    pub open spec fn wf(&self) -> bool {
        self@.wf()
    }

    /// The box around the shape, grown by half the stroke width (rounded up)
    /// on every side; `None` only for a freehand shape without points.
    pub fn bounding_box(&self) -> (r: Option<BoundingBox>)
        requires
            self.wf(),
        ensures
            r == self@.bounds(),
            r matches Some(b) ==> b.wf() && box_ok(b),
    {
        let hw: i64 = ((self.style.width as i64) + 1) / 2;
        match &self.shape {
            Shape::Freehand { points } => {
                if points.len() == 0 {
                    return None;
                }
                let (min_x, min_y, max_x, max_y) = extent_of(points);
                Some(BoundingBox { min_x: min_x - hw, min_y: min_y - hw, max_x: max_x + hw, max_y: max_y + hw })
            },
            Shape::Line { x1, y1, x2, y2 } => {
                let (lx, hx) = if *x1 <= *x2 { (*x1, *x2) } else { (*x2, *x1) };
                let (ly, hy) = if *y1 <= *y2 { (*y1, *y2) } else { (*y2, *y1) };
                Some(BoundingBox { min_x: lx - hw, min_y: ly - hw, max_x: hx + hw, max_y: hy + hw })
            },
            Shape::Rect { x, y, w, h } => {
                Some(BoundingBox { min_x: *x - hw, min_y: *y - hw, max_x: *x + *w + hw, max_y: *y + *h + hw })
            },
            Shape::Circle { cx, cy, r } => {
                Some(
                    BoundingBox {
                        min_x: *cx - *r - hw,
                        min_y: *cy - *r - hw,
                        max_x: *cx + *r + hw,
                        max_y: *cy + *r + hw,
                    },
                )
            },
        }
    }

    /// Whether shifting by `(dx, dy)` keeps every coordinate in range.
    pub fn can_translate(&self, dx: i64, dy: i64) -> (r: bool)
        requires
            self.wf(),
        ensures
            r == self@.shape.can_move(dx as int, dy as int),
    {
        match &self.shape {
            Shape::Freehand { points } => points_fit(points, dx, dy),
            Shape::Line { x1, y1, x2, y2 } => coords_fit(*x1, *y1, dx, dy) && coords_fit(*x2, *y2, dx, dy),
            Shape::Rect { x, y, w, h } => coords_fit(*x, *y, dx, dy) && coords_fit(*x + *w, *y + *h, dx, dy),
            Shape::Circle { cx, cy, r } => coords_fit(*cx, *cy, dx, dy),
        }
    }

    /// Shifts every coordinate that places the shape: all points of a
    /// freehand shape, both ends of a line, the corner of a rectangle and
    /// the centre of a circle. Extents are kept.
    pub fn translate(&mut self, dx: i64, dy: i64)
        requires
            old(self).wf(),
            old(self)@.shape.can_move(dx as int, dy as int),
        ensures
            final(self)@ == old(self)@.moved(dx as int, dy as int),
            final(self).wf(),
    {
        let shape = match &self.shape {
            Shape::Freehand { points } => Shape::Freehand { points: points_moved(points, dx, dy) },
            Shape::Line { x1, y1, x2, y2 } => Shape::Line { x1: *x1 + dx, y1: *y1 + dy, x2: *x2 + dx, y2: *y2 + dy },
            Shape::Rect { x, y, w, h } => Shape::Rect { x: *x + dx, y: *y + dy, w: *w, h: *h },
            Shape::Circle { cx, cy, r } => Shape::Circle { cx: *cx + dx, cy: *cy + dy, r: *r },
        };
        self.shape = shape;
    }

    /// Whether `(px, py)` lies on the drawn outline: within
    /// `max(width / 2 + 4, 8)` of a segment of a freehand shape, a line or an
    /// edge of a rectangle, or of the rim of a circle (never its inside).
    pub fn hit_test(&self, px: i64, py: i64) -> (r: bool)
        requires
            self.wf(),
            pt_in_range(px as int, py as int),
        ensures
            r == self@.hits(pt(px as int, py as int)),
    {
        let w = self.style.width as i64;
        let k: i64 = if w + 8 > 16 { w + 8 } else { 16 };
        let p = Point { x: px, y: py };
        match &self.shape {
            Shape::Freehand { points } => path_near(p, points, k),
            Shape::Line { x1, y1, x2, y2 } => {
                segment_near(p, Point { x: *x1, y: *y1 }, Point { x: *x2, y: *y2 }, k)
            },
            Shape::Rect { x, y, w, h } => {
                let a = Point { x: *x, y: *y };
                let b = Point { x: *x + *w, y: *y };
                let c = Point { x: *x + *w, y: *y + *h };
                let d = Point { x: *x, y: *y + *h };
                segment_near(p, a, b, k) || segment_near(p, b, c, k) || segment_near(p, c, d, k)
                    || segment_near(p, d, a, k)
            },
            Shape::Circle { cx, cy, r } => {
                let d = 4 * distance_sq(p, Point { x: *cx, y: *cy });
                let outer = 2 * (*r as i128) + k as i128;
                let inner = 2 * (*r as i128) - k as i128;
                assert(0 <= outer * outer <= 0x100_0000_0000_0000 && 0 <= inner * inner <= 0x100_0000_0000_0000)
                    by (nonlinear_arith)
                    requires
                        -0x1000_0000 <= outer <= 0x1000_0000,
                        -0x1000_0000 <= inner <= 0x1000_0000,
                ;
                d <= outer * outer && (inner <= 0 || inner * inner <= d)
            },
        }
    }
}

impl Clone for Shape {
    /// A deep copy: the new shape owns its own point list.
    fn clone(&self) -> (r: Self)
        ensures
            r@ == self@,
    {
        match self {
            Shape::Freehand { points } => Shape::Freehand { points: copy_points(points) },
            Shape::Line { x1, y1, x2, y2 } => Shape::Line { x1: *x1, y1: *y1, x2: *x2, y2: *y2 },
            Shape::Rect { x, y, w, h } => Shape::Rect { x: *x, y: *y, w: *w, h: *h },
            Shape::Circle { cx, cy, r } => Shape::Circle { cx: *cx, cy: *cy, r: *r },
        }
    }
}

impl Clone for Element {
    /// A deep copy, equal in every field.
    fn clone(&self) -> (r: Self)
        ensures
            r@ == self@,
    {
        Element {
            id: self.id,
            shape: self.shape.clone(),
            style: Style { color: self.style.color.clone(), width: self.style.width },
        }
    }
}

fn copy_points(points: &Vec<Point>) -> (r: Vec<Point>)
    ensures
        r@ == points@,
{
    let mut out: Vec<Point> = Vec::new();
    let mut i: usize = 0;
    while i < points.len()
        invariant
            i <= points.len(),
            out@ == points@.take(i as int),
        decreases points.len() - i,
    {
        out.push(points[i]);
        i = i + 1;
        assert(out@ =~= points@.take(i as int));
    }
    assert(points@.take(points.len() as int) =~= points@);
    out
}

pub open spec fn all_wf(ps: Seq<Point>) -> bool {
    forall|i: int| 0 <= i < ps.len() ==> (#[trigger] ps[i]).wf()
}

/// Every point stays in range when shifted by `(dx, dy)`.
pub open spec fn all_fit(ps: Seq<Point>, dx: int, dy: int) -> bool {
    forall|i: int| 0 <= i < ps.len() ==> pt_in_range((#[trigger] ps[i]).x + dx, ps[i].y + dy)
}

/// Every point shifted by `(dx, dy)`.
pub open spec fn shifted(ps: Seq<Point>, dx: int, dy: int) -> Seq<Point> {
    ps.map_values(|p: Point| pt(p.x + dx, p.y + dy))
}

/// Least and greatest coordinates of a non-empty point list.
fn extent_of(points: &Vec<Point>) -> (r: (i64, i64, i64, i64))
    requires
        points.len() >= 1,
        all_wf(points@),
    ensures
        r.0 == seq_min(xs_of(points@)),
        r.1 == seq_min(ys_of(points@)),
        r.2 == seq_max(xs_of(points@)),
        r.3 == seq_max(ys_of(points@)),
        in_range(r.0 as int) && in_range(r.1 as int) && in_range(r.2 as int) && in_range(r.3 as int),
        r.0 <= r.2 && r.1 <= r.3,
{
    let ghost xs = xs_of(points@);
    let ghost ys = ys_of(points@);
    let mut min_x = points[0].x;
    let mut min_y = points[0].y;
    let mut max_x = points[0].x;
    let mut max_y = points[0].y;
    let mut i: usize = 1;
    proof {
        assert(points@[0].wf());
        assert(xs.take(1).len() == 1);
        assert(ys.take(1).len() == 1);
    }
    while i < points.len()
        invariant
            1 <= i <= points.len(),
            all_wf(points@),
            xs == xs_of(points@),
            ys == ys_of(points@),
            min_x == seq_min(xs.take(i as int)),
            max_x == seq_max(xs.take(i as int)),
            min_y == seq_min(ys.take(i as int)),
            max_y == seq_max(ys.take(i as int)),
            in_range(min_x as int) && in_range(max_x as int),
            in_range(min_y as int) && in_range(max_y as int),
            min_x <= max_x && min_y <= max_y,
        decreases points.len() - i,
    {
        let p = points[i];
        proof {
            assert(points@[i as int].wf());
            assert(xs.take(i + 1).drop_last() =~= xs.take(i as int));
            assert(ys.take(i + 1).drop_last() =~= ys.take(i as int));
        }
        if p.x < min_x {
            min_x = p.x;
        }
        if p.x > max_x {
            max_x = p.x;
        }
        if p.y < min_y {
            min_y = p.y;
        }
        if p.y > max_y {
            max_y = p.y;
        }
        i = i + 1;
    }
    proof {
        assert(xs.take(points.len() as int) =~= xs);
        assert(ys.take(points.len() as int) =~= ys);
    }
    (min_x, min_y, max_x, max_y)
}

/// Whether every point stays in range when shifted by `(dx, dy)`.
fn points_fit(points: &Vec<Point>, dx: i64, dy: i64) -> (r: bool)
    requires
        all_wf(points@),
    ensures
        r == all_fit(points@, dx as int, dy as int),
{
    let mut i: usize = 0;
    while i < points.len()
        invariant
            i <= points.len(),
            all_wf(points@),
            forall|j: int|
                0 <= j < i ==> pt_in_range((#[trigger] points@[j]).x + dx, points@[j].y + dy),
        decreases points.len() - i,
    {
        assert(points@[i as int].wf());
        if !coords_fit(points[i].x, points[i].y, dx, dy) {
            assert(!pt_in_range(points@[i as int].x + dx, points@[i as int].y + dy));
            return false;
        }
        i = i + 1;
    }
    true
}

/// The points shifted by `(dx, dy)`.
fn points_moved(points: &Vec<Point>, dx: i64, dy: i64) -> (r: Vec<Point>)
    requires
        all_fit(points@, dx as int, dy as int),
    ensures
        r@ == shifted(points@, dx as int, dy as int),
        all_wf(r@),
{
    let mut out: Vec<Point> = Vec::new();
    let mut i: usize = 0;
    while i < points.len()
        invariant
            i <= points.len(),
            all_fit(points@, dx as int, dy as int),
            out@.len() == i,
            forall|j: int|
                0 <= j < i ==> #[trigger] out@[j] == pt(points@[j].x + dx, points@[j].y + dy),
        decreases points.len() - i,
    {
        let p = points[i];
        assert(pt_in_range(points@[i as int].x + dx, points@[i as int].y + dy));
        out.push(Point { x: p.x + dx, y: p.y + dy });
        i = i + 1;
    }
    proof {
        assert(out@ =~= shifted(points@, dx as int, dy as int));
    }
    out
}

/// Whether `p` is within `k / 2` of a segment between consecutive points.
fn path_near(p: Point, points: &Vec<Point>, k: i64) -> (r: bool)
    requires
        p.wf(),
        all_wf(points@),
        0 <= k <= crate::geometry::SPAN_LIMIT,
    ensures
        r == exists|i: int|
            0 <= i && i + 1 < points@.len() && near_segment(p, #[trigger] points@[i], points@[i + 1], k as int),
{
    let n = points.len();
    if n < 2 {
        return false;
    }
    let mut i: usize = 0;
    while i < n - 1
        invariant
            n == points.len(),
            n >= 2,
            i <= n - 1,
            all_wf(points@),
            p.wf(),
            0 <= k <= crate::geometry::SPAN_LIMIT,
            forall|j: int|
                0 <= j < i ==> !near_segment(p, #[trigger] points@[j], points@[j + 1], k as int),
        decreases n - i,
    {
        assert(points@[i as int].wf() && points@[i + 1].wf());
        if segment_near(p, points[i], points[i + 1], k) {
            return true;
        }
        i = i + 1;
    }
    false
}

/// Whether `(x + dx, y + dy)` is an in-range point.
fn coords_fit(x: i64, y: i64, dx: i64, dy: i64) -> (r: bool)
    requires
        in_range(x as int),
        in_range(y as int),
    ensures
        r == pt_in_range(x + dx, y + dy),
{
    let nx = x as i128 + dx as i128;
    let ny = y as i128 + dy as i128;
    -(COORD_LIMIT as i128) <= nx && nx <= COORD_LIMIT as i128 && -(COORD_LIMIT as i128) <= ny
        && ny <= COORD_LIMIT as i128
}

/// Squared distance of two points with coordinates up to four times the range.
fn distance_sq(p: Point, q: Point) -> (r: i128)
    requires
        p.wf(),
        q.wf(),
    ensures
        r == dist2(p, q),
        0 <= r <= 0x8_0000_0000_0000,
{
    let ex = p.x as i128 - q.x as i128;
    let ey = p.y as i128 - q.y as i128;
    assert(0 <= ex * ex <= 0x4_0000_0000_0000) by (nonlinear_arith)
        requires
            -0x200_0000 <= ex <= 0x200_0000,
    ;
    assert(0 <= ey * ey <= 0x4_0000_0000_0000) by (nonlinear_arith)
        requires
            -0x200_0000 <= ey <= 0x200_0000,
    ;
    ex * ex + ey * ey
}

} // verus!
