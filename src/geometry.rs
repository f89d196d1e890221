//! Points, boxes and exact distance tests on integer coordinates.
use vstd::prelude::*;

verus! {

/// Largest magnitude of a world coordinate that an element may hold.
pub const COORD_LIMIT: i64 = 16777216;

pub open spec fn in_range(v: int) -> bool {
    -COORD_LIMIT <= v <= COORD_LIMIT
}

pub open spec fn sq(v: int) -> int {
    v * v
}

/// A point in world units.
#[derive(Clone, Copy, Debug, PartialEq, Eq, Structural)]
pub struct Point {
    pub x: i64,
    pub y: i64,
}

impl Point {
    pub open spec fn wf(&self) -> bool {
        in_range(self.x as int) && in_range(self.y as int)
    }
}

/// Squared Euclidean distance between two points.
pub open spec fn dist2(p: Point, q: Point) -> int {
    sq(p.x - q.x) + sq(p.y - q.y)
}

/// Whether `p` lies within distance `k / 2` of the segment `ab`.
///
/// The closest point of the segment is the projection of `p` on the line,
/// clamped to the end points; a segment whose ends coincide is a point.
/// Squared quantities keep the comparison exact: the perpendicular distance
/// is `cross / len`, so `4 * dist^2 <= k^2` becomes `4 * cross^2 <= k^2 * len^2`.
pub open spec fn near_segment(p: Point, a: Point, b: Point, k: int) -> bool {
    let dx = b.x - a.x;
    let dy = b.y - a.y;
    let len2 = sq(dx) + sq(dy);
    let dot = (p.x - a.x) * dx + (p.y - a.y) * dy;
    if len2 == 0 || dot <= 0 {
        4 * dist2(p, a) <= k * k
    } else if dot >= len2 {
        4 * dist2(p, b) <= k * k
    } else {
        let cross = (p.x - a.x) * dy - (p.y - a.y) * dx;
        4 * sq(cross) <= k * k * len2
    }
}

/// Largest doubled threshold that distance tests accept.
pub const SPAN_LIMIT: i64 = 1048576;

proof fn lemma_square_bound(v: int, lim: int)
    requires
        -lim <= v <= lim,
    ensures
        0 <= v * v <= lim * lim,
{
    assert(0 <= v * v <= lim * lim) by (nonlinear_arith)
        requires
            -lim <= v <= lim,
    ;
}

proof fn lemma_product_bound(u: int, v: int, lu: int, lv: int)
    requires
        -lu <= u <= lu,
        -lv <= v <= lv,
    ensures
        -(lu * lv) <= u * v <= lu * lv,
{
    assert(-(lu * lv) <= u * v <= lu * lv) by (nonlinear_arith)
        requires
            -lu <= u <= lu,
            -lv <= v <= lv,
    ;
}

/// Squared distance of two in-range points, computed exactly.
fn distance2(p: Point, q: Point) -> (r: i128)
    requires
        p.wf(),
        q.wf(),
    ensures
        r == dist2(p, q),
        0 <= r <= 2 * sq(2 * COORD_LIMIT),
{
    let ex = p.x as i128 - q.x as i128;
    let ey = p.y as i128 - q.y as i128;
    proof {
        lemma_square_bound(ex as int, 2 * COORD_LIMIT);
        lemma_square_bound(ey as int, 2 * COORD_LIMIT);
    }
    ex * ex + ey * ey
}

/// Whether `p` lies within distance `k / 2` of the segment `ab`.
pub fn segment_near(p: Point, a: Point, b: Point, k: i64) -> (r: bool)
    requires
        p.wf(),
        a.wf(),
        b.wf(),
        0 <= k <= SPAN_LIMIT,
    ensures
        r == near_segment(p, a, b, k as int),
{
    let lim: i128 = 2 * COORD_LIMIT as i128;
    let dx = b.x as i128 - a.x as i128;
    let dy = b.y as i128 - a.y as i128;
    let px = p.x as i128 - a.x as i128;
    let py = p.y as i128 - a.y as i128;
    let kk = k as i128;
    proof {
        lemma_square_bound(dx as int, lim as int);
        lemma_square_bound(dy as int, lim as int);
        lemma_product_bound(px as int, dx as int, lim as int, lim as int);
        lemma_product_bound(py as int, dy as int, lim as int, lim as int);
        lemma_product_bound(px as int, dy as int, lim as int, lim as int);
        lemma_product_bound(py as int, dx as int, lim as int, lim as int);
        lemma_square_bound(kk as int, SPAN_LIMIT as int);
    }
    let len2 = dx * dx + dy * dy;
    let dot = px * dx + py * dy;
    let kk2 = kk * kk;
    if len2 == 0 || dot <= 0 {
        4 * distance2(p, a) <= kk2
    } else if dot >= len2 {
        4 * distance2(p, b) <= kk2
    } else {
        let cross = px * dy - py * dx;
        proof {
            assert(lim * lim == 0x4_0000_0000_0000);
            assert(-0x8_0000_0000_0000 <= cross <= 0x8_0000_0000_0000);
            lemma_square_bound(cross as int, 0x8_0000_0000_0000);
            lemma_product_bound(kk2 as int, len2 as int, 0x100_0000_0000, 0x8_0000_0000_0000);
        }
        4 * (cross * cross) <= kk2 * len2
    }
}

/// An axis-aligned box, closed on all sides.
#[derive(Clone, Copy, Debug, PartialEq, Eq, Structural)]
pub struct BoundingBox {
    pub min_x: i64,
    pub min_y: i64,
    pub max_x: i64,
    pub max_y: i64,
}

impl BoundingBox {
    /// Bounds are never inverted.
    pub open spec fn wf(&self) -> bool {
        self.min_x <= self.max_x && self.min_y <= self.max_y
    }

    /// The two closed boxes share at least one point.
    pub open spec fn overlaps(&self, o: &BoundingBox) -> bool {
        self.min_x <= o.max_x && self.max_x >= o.min_x && self.min_y <= o.max_y && self.max_y
            >= o.min_y
    }

    /// Whether the boxes overlap or touch on both axes.
    pub fn intersects(&self, other: &BoundingBox) -> (r: bool)
        ensures
            r == self.overlaps(other),
    {
        self.min_x <= other.max_x && self.max_x >= other.min_x && self.min_y <= other.max_y
            && self.max_y >= other.min_y
    }
}

/// Largest `r` with `r * r <= n`.
pub fn isqrt(n: u64) -> (r: u64)
    requires
        n < 0x4000_0000_0000_0000,
    ensures
        r * r <= n < (r + 1) * (r + 1),
{
    let mut lo: u64 = 0;
    let mut hi: u64 = 0x8000_0000;
    proof {
        assert(0x8000_0000 * 0x8000_0000 == 0x4000_0000_0000_0000) by (nonlinear_arith);
    }
    while hi - lo > 1
        invariant
            lo < hi <= 0x8000_0000,
            lo * lo <= n < hi * hi,
        decreases hi - lo,
    {
        let mid = lo + (hi - lo) / 2;
        proof {
            lemma_square_bound(mid as int, 0x8000_0000);
        }
        if mid * mid <= n {
            lo = mid;
        } else {
            hi = mid;
        }
    }
    lo
}

} // verus!
