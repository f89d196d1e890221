//! Pan and zoom: the map between world units and screen positions.
//!
//! Screen positions are counted in thousandths of a screen unit and the zoom
//! in thousandths, so that `screen = world * zoom + pan` holds exactly; the
//! way back rounds down to a whole world unit.
use vstd::prelude::*;
use vstd::arithmetic::div_mod::{
    lemma_fundamental_div_mod, lemma_fundamental_div_mod_converse, lemma_mod_bound,
};
use crate::geometry::{in_range, BoundingBox};

verus! {

/// One whole zoom level (a zoom of 1.0).
pub const ZOOM_ONE: i64 = 1000;

/// Smallest zoom (0.1).
pub const ZOOM_MIN: i64 = 100;

/// Largest zoom (10.0).
pub const ZOOM_MAX: i64 = 10000;

/// Largest magnitude of a screen position, in thousandths of a screen unit.
pub const SCREEN_LIMIT: i64 = 1099511627776;

/// Largest magnitude of a pan offset, in thousandths of a screen unit.
pub const PAN_LIMIT: i64 = 1152921504606846976;

/// Margin kept around the content when fitting it to the viewport.
pub const FIT_PADDING: i64 = 40000;

pub open spec fn screen_ok(v: int) -> bool {
    -SCREEN_LIMIT <= v <= SCREEN_LIMIT
}

pub open spec fn pan_ok(v: int) -> bool {
    -PAN_LIMIT <= v <= PAN_LIMIT
}

pub open spec fn clamp_zoom(z: int) -> int {
    if z < ZOOM_MIN {
        ZOOM_MIN as int
    } else if z > ZOOM_MAX {
        ZOOM_MAX as int
    } else {
        z
    }
}

/// World coordinate to screen position.
pub open spec fn to_screen(w: int, zoom: int, pan: int) -> int {
    w * zoom + pan
}

/// Screen position to world coordinate, rounded down.
pub open spec fn to_world(s: int, zoom: int, pan: int) -> int {
    (s - pan) / zoom
}

/// The zoom after one wheel step: in by 11/10 for a negative delta, out by
/// 10/11 otherwise, rounded down and clamped.
pub open spec fn stepped_zoom(zoom: int, delta: int) -> int {
    if delta < 0 {
        clamp_zoom(zoom * 11 / 10)
    } else {
        clamp_zoom(zoom * 10 / 11)
    }
}

/// The pan that keeps screen position `s` over the same world point when the
/// zoom changes from `zoom` to `new_zoom`.
pub open spec fn anchored_pan(s: int, zoom: int, pan: int, new_zoom: int) -> int {
    s - (s - pan) * new_zoom / zoom
}

/// The camera after setting the zoom to `z` around screen position
/// `(sx, sy)`; unchanged when the pan needed would leave its range.
pub open spec fn zoomed_around(c: Camera, sx: int, sy: int, z: int) -> Camera {
    let px = anchored_pan(sx, c.zoom as int, c.pan_x as int, z);
    let py = anchored_pan(sy, c.zoom as int, c.pan_y as int, z);
    if pan_ok(px) && pan_ok(py) {
        Camera { zoom: z as i64, pan_x: px as i64, pan_y: py as i64, ..c }
    } else {
        c
    }
}

/// The pan/zoom state and the drag that may be panning it.
pub struct Camera {
    pub zoom: i64,
    pub pan_x: i64,
    pub pan_y: i64,
    pub view_width: i64,
    pub view_height: i64,
    pub is_panning: bool,
    pub pan_start_x: i64,
    pub pan_start_y: i64,
    pub pan_origin_x: i64,
    pub pan_origin_y: i64,
}

impl Camera {
    pub open spec fn wf(&self) -> bool {
        &&& ZOOM_MIN <= self.zoom <= ZOOM_MAX
        &&& pan_ok(self.pan_x as int) && pan_ok(self.pan_y as int)
        &&& 0 < self.view_width <= SCREEN_LIMIT && 0 < self.view_height <= SCREEN_LIMIT
        &&& screen_ok(self.pan_start_x as int) && screen_ok(self.pan_start_y as int)
        &&& pan_ok(self.pan_origin_x as int) && pan_ok(self.pan_origin_y as int)
    }

    /// Identity map over a viewport of the given size.
    pub fn new(view_width: i64, view_height: i64) -> (r: Camera)
        requires
            0 < view_width <= SCREEN_LIMIT,
            0 < view_height <= SCREEN_LIMIT,
        ensures
            r.wf(),
            r.zoom == ZOOM_ONE && r.pan_x == 0 && r.pan_y == 0,
            r.view_width == view_width && r.view_height == view_height,
            !r.is_panning,
    {
        Camera {
            zoom: ZOOM_ONE,
            pan_x: 0,
            pan_y: 0,
            view_width,
            view_height,
            is_panning: false,
            pan_start_x: 0,
            pan_start_y: 0,
            pan_origin_x: 0,
            pan_origin_y: 0,
        }
    }

    /// World x coordinate under screen position `sx`, rounded down.
    pub fn screen_to_world_x(&self, sx: i64) -> (r: i64)
        requires
            self.wf(),
        ensures
            r == to_world(sx as int, self.zoom as int, self.pan_x as int),
    {
        let r = floor_div(sx as i128 - self.pan_x as i128, self.zoom as i128);
        proof {
            lemma_quotient_bound(sx - self.pan_x, self.zoom as int, r as int, 100, 0x1_0000_0000_0000_0000);
        }
        r as i64
    }

    /// World y coordinate under screen position `sy`, rounded down.
    pub fn screen_to_world_y(&self, sy: i64) -> (r: i64)
        requires
            self.wf(),
        ensures
            r == to_world(sy as int, self.zoom as int, self.pan_y as int),
    {
        let r = floor_div(sy as i128 - self.pan_y as i128, self.zoom as i128);
        proof {
            lemma_quotient_bound(sy - self.pan_y, self.zoom as int, r as int, 100, 0x1_0000_0000_0000_0000);
        }
        r as i64
    }

    /// Screen position of world x coordinate `wx`.
    pub fn world_to_screen_x(&self, wx: i64) -> (r: i64)
        requires
            self.wf(),
            in_range(wx as int),
        ensures
            r == to_screen(wx as int, self.zoom as int, self.pan_x as int),
    {
        proof {
            lemma_scaled_bound(wx as int, self.zoom as int);
        }
        wx * self.zoom + self.pan_x
    }

    /// Screen position of world y coordinate `wy`.
    pub fn world_to_screen_y(&self, wy: i64) -> (r: i64)
        requires
            self.wf(),
            in_range(wy as int),
        ensures
            r == to_screen(wy as int, self.zoom as int, self.pan_y as int),
    {
        proof {
            lemma_scaled_bound(wy as int, self.zoom as int);
        }
        wy * self.zoom + self.pan_y
    }

    /// Sets the zoom and moves the pan so that the world point under screen
    /// position `(sx, sy)` stays under it. When the pan needed would leave
    /// its range, nothing changes.
    fn zoom_around(&mut self, sx: i64, sy: i64, new_zoom: i64)
        requires
            old(self).wf(),
            screen_ok(sx as int),
            screen_ok(sy as int),
            ZOOM_MIN <= new_zoom <= ZOOM_MAX,
        ensures
            final(self).wf(),
            *final(self) == zoomed_around(*old(self), sx as int, sy as int, new_zoom as int),
            to_world(sx as int, final(self).zoom as int, final(self).pan_x as int) == to_world(
                sx as int,
                old(self).zoom as int,
                old(self).pan_x as int,
            ),
            to_world(sy as int, final(self).zoom as int, final(self).pan_y as int) == to_world(
                sy as int,
                old(self).zoom as int,
                old(self).pan_y as int,
            ),
    {
        let px = anchor_pan(sx, self.zoom, self.pan_x, new_zoom);
        let py = anchor_pan(sy, self.zoom, self.pan_y, new_zoom);
        if -(PAN_LIMIT as i128) <= px && px <= PAN_LIMIT as i128 && -(PAN_LIMIT as i128) <= py
            && py <= PAN_LIMIT as i128 {
            proof {
                lemma_anchor(sx as int, self.zoom as int, self.pan_x as int, new_zoom as int);
                lemma_anchor(sy as int, self.zoom as int, self.pan_y as int, new_zoom as int);
            }
            self.zoom = new_zoom;
            self.pan_x = px as i64;
            self.pan_y = py as i64;
        }
    }

    /// One wheel step around the cursor at `(sx, sy)`: a negative delta zooms
    /// in by 11/10, any other zooms out by 10/11, clamped to [0.1, 10]; the
    /// world point under the cursor stays where it is on screen.
    pub fn zoom_at(&mut self, sx: i64, sy: i64, delta: i64)
        requires
            old(self).wf(),
            screen_ok(sx as int),
            screen_ok(sy as int),
        ensures
            final(self).wf(),
            *final(self) == zoomed_around(
                *old(self),
                sx as int,
                sy as int,
                stepped_zoom(old(self).zoom as int, delta as int),
            ),
            to_world(sx as int, final(self).zoom as int, final(self).pan_x as int) == to_world(
                sx as int,
                old(self).zoom as int,
                old(self).pan_x as int,
            ),
            to_world(sy as int, final(self).zoom as int, final(self).pan_y as int) == to_world(
                sy as int,
                old(self).zoom as int,
                old(self).pan_y as int,
            ),
    {
        let z = if delta < 0 {
            self.zoom * 11 / 10
        } else {
            self.zoom * 10 / 11
        };
        let z = if z < ZOOM_MIN {
            ZOOM_MIN
        } else if z > ZOOM_MAX {
            ZOOM_MAX
        } else {
            z
        };
        self.zoom_around(sx, sy, z);
    }

    /// Sets the zoom, clamped to [0.1, 10], keeping the world point at the
    /// centre of the viewport where it is.
    pub fn set_zoom(&mut self, value: i64)
        requires
            old(self).wf(),
        ensures
            final(self).wf(),
            *final(self) == zoomed_around(
                *old(self),
                old(self).view_width / 2,
                old(self).view_height / 2,
                clamp_zoom(value as int),
            ),
    {
        let z = if value < ZOOM_MIN {
            ZOOM_MIN
        } else if value > ZOOM_MAX {
            ZOOM_MAX
        } else {
            value
        };
        self.zoom_around(self.view_width / 2, self.view_height / 2, z);
    }

    /// Starts a pan drag at screen position `(sx, sy)`.
    pub fn start_pan(&mut self, sx: i64, sy: i64)
        requires
            old(self).wf(),
            screen_ok(sx as int),
            screen_ok(sy as int),
        ensures
            final(self).wf(),
            *final(self) == (Camera {
                is_panning: true,
                pan_start_x: sx,
                pan_start_y: sy,
                pan_origin_x: old(self).pan_x,
                pan_origin_y: old(self).pan_y,
                ..*old(self)
            }),
    {
        self.is_panning = true;
        self.pan_start_x = sx;
        self.pan_start_y = sy;
        self.pan_origin_x = self.pan_x;
        self.pan_origin_y = self.pan_y;
    }

    /// Moves the drag to `(sx, sy)`: the pan becomes the pan at the start of
    /// the drag plus the whole drag distance (clamped to its range). Nothing
    /// happens when no drag is going on.
    pub fn update_pan(&mut self, sx: i64, sy: i64)
        requires
            old(self).wf(),
            screen_ok(sx as int),
            screen_ok(sy as int),
        ensures
            final(self).wf(),
            old(self).is_panning ==> *final(self) == (Camera {
                pan_x: clamp_pan(old(self).pan_origin_x + (sx - old(self).pan_start_x)) as i64,
                pan_y: clamp_pan(old(self).pan_origin_y + (sy - old(self).pan_start_y)) as i64,
                ..*old(self)
            }),
            !old(self).is_panning ==> *final(self) == *old(self),
    {
        if !self.is_panning {
            return;
        }
        self.pan_x = pan_clamped(self.pan_origin_x as i128 + (sx as i128 - self.pan_start_x as i128));
        self.pan_y = pan_clamped(self.pan_origin_y as i128 + (sy as i128 - self.pan_start_y as i128));
    }

    /// Ends the pan drag.
    pub fn stop_pan(&mut self)
        requires
            old(self).wf(),
        ensures
            final(self).wf(),
            *final(self) == (Camera { is_panning: false, ..*old(self) }),
    {
        self.is_panning = false;
    }

    /// Back to zoom 1 and no pan.
    pub fn reset_view(&mut self)
        requires
            old(self).wf(),
        ensures
            final(self).wf(),
            *final(self) == (Camera { zoom: ZOOM_ONE, pan_x: 0, pan_y: 0, ..*old(self) }),
    {
        self.zoom = ZOOM_ONE;
        self.pan_x = 0;
        self.pan_y = 0;
    }

    /// Frames `content` in the viewport with a margin: the zoom is the
    /// smaller of the two axis ratios (clamped) and the content's centre goes
    /// to the viewport's centre. No content, or content without width or
    /// height, resets the view.
    pub fn fit_to(&mut self, content: Option<BoundingBox>)
        requires
            old(self).wf(),
            content matches Some(b) ==> b.wf() && content_ok(b),
        ensures
            final(self).wf(),
            *final(self) == fitted(*old(self), content),
    {
        match content {
            None => self.reset_view(),
            Some(b) => {
                if b.min_x >= b.max_x || b.min_y >= b.max_y {
                    self.reset_view();
                } else {
                    let cw = (b.max_x - b.min_x) as i128;
                    let ch = (b.max_y - b.min_y) as i128;
                    let zx = floor_div(self.view_width as i128 - 2 * FIT_PADDING as i128, cw);
                    let zy = floor_div(self.view_height as i128 - 2 * FIT_PADDING as i128, ch);
                    proof {
                        lemma_quotient_bound(self.view_width - 2 * FIT_PADDING, cw as int, zx as int, 1, 0x100_0000_0000);
                        lemma_quotient_bound(self.view_height - 2 * FIT_PADDING, ch as int, zy as int, 1, 0x100_0000_0000);
                    }
                    let z = if zx < zy { zx } else { zy };
                    let z: i64 = if z < ZOOM_MIN as i128 {
                        ZOOM_MIN
                    } else if z > ZOOM_MAX as i128 {
                        ZOOM_MAX
                    } else {
                        z as i64
                    };
                    proof {
                        lemma_fit_bound(b.min_x as int + b.max_x as int, z as int);
                        lemma_fit_bound(b.min_y as int + b.max_y as int, z as int);
                    }
                    let px = floor_div(self.view_width as i128 - (b.min_x as i128 + b.max_x as i128) * z as i128, 2);
                    let py = floor_div(self.view_height as i128 - (b.min_y as i128 + b.max_y as i128) * z as i128, 2);
                    proof {
                        lemma_quotient_bound(self.view_width - (b.min_x + b.max_x) * z, 2, px as int, 1, 0x200_0000_0000_0000);
                        lemma_quotient_bound(self.view_height - (b.min_y + b.max_y) * z, 2, py as int, 1, 0x200_0000_0000_0000);
                    }
                    self.zoom = z;
                    self.pan_x = px as i64;
                    self.pan_y = py as i64;
                }
            },
        }
    }
}

/// Largest magnitude of a content coordinate that fitting accepts.
pub const CONTENT_LIMIT: i64 = 1073741824;

pub open spec fn content_ok(b: BoundingBox) -> bool {
    -CONTENT_LIMIT <= b.min_x && b.max_x <= CONTENT_LIMIT && -CONTENT_LIMIT <= b.min_y && b.max_y
        <= CONTENT_LIMIT
}

pub open spec fn min_int(a: int, b: int) -> int {
    if a < b {
        a
    } else {
        b
    }
}

/// The camera after fitting `content` into its viewport.
pub open spec fn fitted(c: Camera, content: Option<BoundingBox>) -> Camera {
    match content {
        Some(b) if b.min_x < b.max_x && b.min_y < b.max_y => {
            let zx = (c.view_width - 2 * FIT_PADDING) / (b.max_x - b.min_x);
            let zy = (c.view_height - 2 * FIT_PADDING) / (b.max_y - b.min_y);
            let z = clamp_zoom(min_int(zx, zy));
            Camera {
                zoom: z as i64,
                pan_x: ((c.view_width - (b.min_x + b.max_x) * z) / 2) as i64,
                pan_y: ((c.view_height - (b.min_y + b.max_y) * z) / 2) as i64,
                ..c
            }
        },
        _ => Camera { zoom: ZOOM_ONE, pan_x: 0, pan_y: 0, ..c },
    }
}

pub open spec fn clamp_pan(v: int) -> int {
    if v < -PAN_LIMIT {
        -PAN_LIMIT as int
    } else if v > PAN_LIMIT {
        PAN_LIMIT as int
    } else {
        v
    }
}

fn pan_clamped(v: i128) -> (r: i64)
    ensures
        r == clamp_pan(v as int),
{
    if v < -(PAN_LIMIT as i128) {
        -PAN_LIMIT
    } else if v > PAN_LIMIT as i128 {
        PAN_LIMIT
    } else {
        v as i64
    }
}

/// Largest magnitude of a dividend that `floor_div` accepts.
pub const DIVIDEND_LIMIT: i128 = 0x1000_0000_0000_0000_0000;

/// Division rounded down.
fn floor_div(n: i128, d: i128) -> (r: i128)
    requires
        0 < d <= 0x1_0000_0000,
        -DIVIDEND_LIMIT <= n <= DIVIDEND_LIMIT,
    ensures
        r == n / d,
        r * d <= n < r * d + d,
{
    proof {
        lemma_fundamental_div_mod(n as int, d as int);
        lemma_mod_bound(n as int, d as int);
        assert((n / d) * d == d * (n / d)) by (nonlinear_arith);
    }
    if n >= 0 {
        (n as u128 / d as u128) as i128
    } else {
        let m = (-n) as u128;
        let dd = d as u128;
        let q = (m + dd - 1) / dd;
        proof {
            let x = (m + dd - 1) as int;
            lemma_fundamental_div_mod(x, dd as int);
            lemma_mod_bound(x, dd as int);
            assert(q <= x) by (nonlinear_arith)
                requires
                    x == dd * q + x % (dd as int),
                    0 <= x % (dd as int),
                    1 <= dd,
                    0 <= q,
            ;
            assert(n == (-q) * d + (d - 1 - x % (dd as int))) by (nonlinear_arith)
                requires
                    x == dd * q + x % (dd as int),
                    m == -n,
                    x == m + dd - 1,
                    dd == d,
            ;
            lemma_fundamental_div_mod_converse(n as int, d as int, -q, d - 1 - x % (dd as int));
        }
        -(q as i128)
    }
}

/// A quotient rounded down is no larger in magnitude than the dividend
/// allows: scaled by any `k <= d`, it stays within the dividend's bound.
proof fn lemma_quotient_bound(n: int, d: int, r: int, k: int, b: int)
    requires
        r * d <= n < r * d + d,
        0 < k <= d,
        -b <= n <= b,
    ensures
        -b - d < r * k <= b,
{
    if r >= 0 {
        assert(0 <= r * k <= r * d) by (nonlinear_arith)
            requires
                0 <= r,
                0 < k <= d,
        ;
    } else {
        assert(r * d <= r * k < 0) by (nonlinear_arith)
            requires
                r < 0,
                0 < k <= d,
        ;
    }
}

/// The pan that keeps screen position `s` fixed through a zoom change.
fn anchor_pan(s: i64, zoom: i64, pan: i64, new_zoom: i64) -> (r: i128)
    requires
        screen_ok(s as int),
        pan_ok(pan as int),
        ZOOM_MIN <= zoom <= ZOOM_MAX,
        ZOOM_MIN <= new_zoom <= ZOOM_MAX,
    ensures
        r == anchored_pan(s as int, zoom as int, pan as int, new_zoom as int),
{
    let d = s as i128 - pan as i128;
    assert(-DIVIDEND_LIMIT <= d * new_zoom <= DIVIDEND_LIMIT) by (nonlinear_arith)
        requires
            -0x2000_0000_0000_0000 <= d <= 0x2000_0000_0000_0000,
            0 < new_zoom <= 10000,
    ;
    let q = floor_div(d * new_zoom as i128, zoom as i128);
    proof {
        lemma_quotient_bound(d * new_zoom, zoom as int, q as int, 1, DIVIDEND_LIMIT as int);
    }
    s as i128 - q
}

/// Rounding down twice equals rounding down once: the anchor of a zoom stays
/// over the same world unit.
proof fn lemma_anchor(s: int, zoom: int, pan: int, new_zoom: int)
    requires
        0 < zoom,
        0 < new_zoom,
    ensures
        to_world(s, new_zoom, anchored_pan(s, zoom, pan, new_zoom)) == to_world(s, zoom, pan),
{
    let d = s - pan;
    let q = d / zoom;
    let rm = d % zoom;
    lemma_fundamental_div_mod(d, zoom);
    lemma_mod_bound(d, zoom);
    assert(d * new_zoom == (q * new_zoom) * zoom + rm * new_zoom) by (nonlinear_arith)
        requires
            d == zoom * q + rm,
    ;
    let t = (rm * new_zoom) / zoom;
    let t2 = (rm * new_zoom) % zoom;
    lemma_fundamental_div_mod(rm * new_zoom, zoom);
    lemma_mod_bound(rm * new_zoom, zoom);
    assert(rm * new_zoom == t * zoom + t2) by (nonlinear_arith)
        requires
            rm * new_zoom == zoom * t + t2,
    ;
    assert(0 <= t < new_zoom) by (nonlinear_arith)
        requires
            rm * new_zoom == t * zoom + t2,
            0 <= t2 < zoom,
            0 <= rm < zoom,
            0 < new_zoom,
    ;
    assert(d * new_zoom == (q * new_zoom + t) * zoom + t2) by (nonlinear_arith)
        requires
            d * new_zoom == (q * new_zoom) * zoom + rm * new_zoom,
            rm * new_zoom == t * zoom + t2,
    ;
    lemma_fundamental_div_mod_converse(d * new_zoom, zoom, q * new_zoom + t, t2);
    assert(s - anchored_pan(s, zoom, pan, new_zoom) == q * new_zoom + t);
    lemma_fundamental_div_mod_converse(q * new_zoom + t, new_zoom, q, t);
}

proof fn lemma_scaled_bound(w: int, zoom: int)
    requires
        in_range(w),
        ZOOM_MIN <= zoom <= ZOOM_MAX,
    ensures
        -0x100_0000_0000 <= w * zoom <= 0x100_0000_0000,
{
    assert(-0x100_0000_0000 <= w * zoom <= 0x100_0000_0000) by (nonlinear_arith)
        requires
            -0x100_0000 <= w <= 0x100_0000,
            0 < zoom <= 10000,
    ;
}

proof fn lemma_fit_bound(sum: int, zoom: int)
    requires
        -2 * CONTENT_LIMIT <= sum <= 2 * CONTENT_LIMIT,
        ZOOM_MIN <= zoom <= ZOOM_MAX,
    ensures
        -0x100_0000_0000_0000 <= sum * zoom <= 0x100_0000_0000_0000,
{
    assert(-0x100_0000_0000_0000 <= sum * zoom <= 0x100_0000_0000_0000) by (nonlinear_arith)
        requires
            -0x8000_0000 <= sum <= 0x8000_0000,
            0 < zoom <= 10000,
    ;
}

} // verus!
