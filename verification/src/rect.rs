//! Integer rectangle and point geometry.
//!
//! All coordinates are device pixels stored as `i32`. Scaling between device
//! pixels and 96-DPI logical units is done in integer arithmetic: a value `v`
//! scaled by `num/den` becomes `round(v * num / den)` with halves rounded away
//! from zero, mirroring the usual floating-point `round`.

use vstd::prelude::*;

verus! {

/// The product of two `i32` values stays well inside `i64`.
pub proof fn lemma_i32_mul_fits(a: int, b: int)
    by (nonlinear_arith)
    requires
        -0x8000_0000 <= a <= 0x7fff_ffff,
        -0x8000_0000 <= b <= 0x7fff_ffff,
    ensures
        -0x4000_0000_0000_0000 <= a * b <= 0x4000_0000_0000_0000,
{
}

/// A rectangle: origin and extent in device pixels.
#[derive(Copy, Clone, Debug, PartialEq, Eq, Structural)]
pub struct Rect {
    pub x: i32,
    pub y: i32,
    pub width: i32,
    pub height: i32,
}

/// A point in device pixels.
#[derive(Copy, Clone, Debug, PartialEq, Eq, Structural)]
pub struct Point {
    pub x: i32,
    pub y: i32,
}

/// The empty rectangle used as the sentinel "no value" result.
pub open spec fn empty_rect() -> Rect {
    Rect { x: 0, y: 0, width: 0, height: 0 }
}

/// A rectangle with non-negative extent.
pub open spec fn rect_wf(r: Rect) -> bool {
    0 <= r.width && 0 <= r.height
}

/// Signed area; negative only for malformed rectangles.
pub open spec fn spec_area(r: Rect) -> int {
    r.width * r.height
}

/// Do two rectangles share interior points?
pub open spec fn rects_overlap(a: Rect, b: Rect) -> bool {
    a.x < b.x + b.width && b.x < a.x + a.width && a.y < b.y + b.height && b.y < a.y + a.height
}

/// The common region of two rectangles, or the empty sentinel when the
/// interiors are disjoint.
pub open spec fn spec_intersection(a: Rect, b: Rect) -> Rect {
    let x1 = vstd::math::max(a.x as int, b.x as int);
    let y1 = vstd::math::max(a.y as int, b.y as int);
    let x2 = vstd::math::min(a.x + a.width, b.x + b.width);
    let y2 = vstd::math::min(a.y + a.height, b.y + b.height);
    if x1 < x2 && y1 < y2 {
        Rect { x: x1 as i32, y: y1 as i32, width: (x2 - x1) as i32, height: (y2 - y1) as i32 }
    } else {
        empty_rect()
    }
}

impl Default for Rect {
    /// The all-zero rectangle.
    fn default() -> (r: Self)
        ensures
            r == empty_rect(),
    {
        Rect { x: 0, y: 0, width: 0, height: 0 }
    }
}

impl Rect {
    /// Area of the rectangle. The product must fit in `i32`.
    pub fn area(&self) -> (a: i32)
        requires
            -0x8000_0000 <= spec_area(*self) <= 0x7fff_ffff,
        ensures
            a == spec_area(*self),
    {
        proof {
            lemma_i32_mul_fits(self.width as int, self.height as int);
        }
        let p: i64 = (self.width as i64) * (self.height as i64);
        p as i32
    }

    /// Intersection of two rectangles; the empty rectangle when the
    /// interiors are disjoint.
    pub fn intersection(&self, other: &Rect) -> (r: Rect)
        ensures
            r == spec_intersection(*self, *other),
    {
        let x1: i64 = if self.x >= other.x { self.x as i64 } else { other.x as i64 };
        let y1: i64 = if self.y >= other.y { self.y as i64 } else { other.y as i64 };
        let ax2: i64 = self.x as i64 + self.width as i64;
        let bx2: i64 = other.x as i64 + other.width as i64;
        let ay2: i64 = self.y as i64 + self.height as i64;
        let by2: i64 = other.y as i64 + other.height as i64;
        let x2: i64 = if ax2 <= bx2 { ax2 } else { bx2 };
        let y2: i64 = if ay2 <= by2 { ay2 } else { by2 };
        if x1 < x2 && y1 < y2 {
            Rect {
                x: x1 as i32,
                y: y1 as i32,
                width: (x2 - x1) as i32,
                height: (y2 - y1) as i32,
            }
        } else {
            Rect { x: 0, y: 0, width: 0, height: 0 }
        }
    }

    /// Center point, rounding the half-extent toward zero.
    pub fn center(&self) -> (p: Point)
        requires
            rect_wf(*self),
            self.x + self.width / 2 <= 0x7fff_ffff,
            self.y + self.height / 2 <= 0x7fff_ffff,
        ensures
            p.x == self.x + self.width / 2,
            p.y == self.y + self.height / 2,
    {
        let hw = (self.width as u32 / 2) as i32;
        let hh = (self.height as u32 / 2) as i32;
        Point { x: self.x + hw, y: self.y + hh }
    }
}

/// Does `win` lie on `mon` by at least half of its own area? This is the
/// rule the cache bootstrap uses to assign an enumerated window to a monitor.
pub open spec fn spec_mostly_on(win: Rect, mon: Rect) -> bool {
    2 * spec_area(spec_intersection(win, mon)) >= spec_area(win)
}

/// Decide whether a window rectangle overlaps a monitor rectangle by at
/// least half of the window's own area.
pub fn mostly_on(win: &Rect, mon: &Rect) -> (r: bool)
    ensures
        r == spec_mostly_on(*win, *mon),
{
    let inter = win.intersection(mon);
    proof {
        lemma_i32_mul_fits(inter.width as int, inter.height as int);
        lemma_i32_mul_fits(win.width as int, win.height as int);
    }
    let ia: i64 = (inter.width as i64) * (inter.height as i64);
    let wa: i64 = (win.width as i64) * (win.height as i64);
    2 * (ia as i128) >= wa as i128
}

/// `round(v * num / den)` with halves rounded away from zero; the integer
/// form of scaling a coordinate by the ratio `num/den`.
pub open spec fn round_mul_div(v: int, num: int, den: int) -> int
    recommends
        den >= 1,
{
    if v >= 0 {
        (v * num + den / 2) / den
    } else {
        -(((-v) * num + den / 2) / den)
    }
}

/// Halving that truncates toward zero, as `i32` division does.
pub open spec fn half_trunc(v: int) -> int {
    if v >= 0 {
        v / 2
    } else {
        -((-v) / 2)
    }
}

/// A product of values bounded by `ba` and `bb` is bounded by `ba * bb`.
pub proof fn lemma_mul_le(a: int, b: int, ba: int, bb: int)
    by (nonlinear_arith)
    requires
        0 <= a <= ba,
        0 <= b <= bb,
    ensures
        0 <= a * b <= ba * bb,
{
}

/// The magnitude of `round_mul_div(v, num, den)` for `v` bounded by `bv`.
pub proof fn lemma_round_mul_div_mag(v: int, num: int, den: int, bv: int)
    requires
        den >= 1,
        num >= 0,
        -bv <= v <= bv,
    ensures
        -((bv * num + den / 2) / den) <= round_mul_div(v, num, den) <= (bv * num + den / 2)
            / den,
{
    let a = if v >= 0 { v } else { -v };
    lemma_mul_le(a, num, bv, num);
    assert((a * num + den / 2) / den <= (bv * num + den / 2) / den) by {
        vstd::arithmetic::div_mod::lemma_div_is_ordered(
            a * num + den / 2,
            bv * num + den / 2,
            den,
        );
    }
    assert(0 <= (a * num + den / 2) / den) by {
        vstd::arithmetic::div_mod::lemma_div_pos_is_pos(a * num + den / 2, den);
    }
}

/// The rectangle `r` with every field scaled by `num/den`.
pub open spec fn spec_scale_rect(r: Rect, num: int, den: int) -> Rect {
    Rect {
        x: round_mul_div(r.x as int, num, den) as i32,
        y: round_mul_div(r.y as int, num, den) as i32,
        width: round_mul_div(r.width as int, num, den) as i32,
        height: round_mul_div(r.height as int, num, den) as i32,
    }
}

/// Does every field of the scaled rectangle fit in `i32`?
pub open spec fn scale_fits(r: Rect, num: int, den: int) -> bool {
    &&& -0x8000_0000 <= round_mul_div(r.x as int, num, den) <= 0x7fff_ffff
    &&& -0x8000_0000 <= round_mul_div(r.y as int, num, den) <= 0x7fff_ffff
    &&& -0x8000_0000 <= round_mul_div(r.width as int, num, den) <= 0x7fff_ffff
    &&& -0x8000_0000 <= round_mul_div(r.height as int, num, den) <= 0x7fff_ffff
}

/// `round(v * num / den)` on a single coordinate.
fn round_scale(v: i32, num: u32, den: u32) -> (r: i32)
    requires
        1 <= den,
        num <= 0x10000,
        den <= 0x10000,
        -0x8000_0000 <= round_mul_div(v as int, num as int, den as int) <= 0x7fff_ffff,
    ensures
        r as int == round_mul_div(v as int, num as int, den as int),
{
    let nm: u64 = num as u64;
    let dn: u64 = den as u64;
    if v >= 0 {
        proof {
            lemma_mul_le(v as int, nm as int, 0x8000_0000, 0x10000);
        }
        let m: u64 = (v as u64) * nm + dn / 2;
        let q: u64 = m / dn;
        q as i32
    } else {
        let mag: u64 = (-(v as i64)) as u64;
        proof {
            lemma_mul_le(mag as int, nm as int, 0x8000_0000, 0x10000);
        }
        let m: u64 = mag * nm + dn / 2;
        let q: u64 = m / dn;
        let r64: i64 = -(q as i64);
        r64 as i32
    }
}

impl Rect {
    /// Every field scaled by `num/den`, rounding halves away from zero.
    /// Used with `(dpi, 96)` to go from logical to device pixels and with
    /// `(96, dpi)` for the reverse direction.
    pub fn scale(&self, num: u32, den: u32) -> (r: Rect)
        requires
            1 <= den,
            num <= 0x10000,
            den <= 0x10000,
            scale_fits(*self, num as int, den as int),
        ensures
            r == spec_scale_rect(*self, num as int, den as int),
    {
        Rect {
            x: round_scale(self.x, num, den),
            y: round_scale(self.y, num, den),
            width: round_scale(self.width, num, den),
            height: round_scale(self.height, num, den),
        }
    }
}

/// Width of the non-client border: half the difference between the outer
/// and the client width, truncated toward zero.
pub open spec fn spec_border(outer: Rect, client: Rect) -> int {
    half_trunc(outer.width - client.width)
}

/// Height of the title area: what remains of the outer/client height
/// difference after one border strip.
pub open spec fn spec_title(outer: Rect, client: Rect) -> int {
    outer.height - client.height - spec_border(outer, client)
}

/// The target rectangle grown outward by the window's non-client insets.
pub open spec fn spec_inset_adjust(target: Rect, outer: Rect, client: Rect) -> Rect {
    let b = spec_border(outer, client);
    let t = spec_title(outer, client);
    Rect {
        x: (target.x - b) as i32,
        y: (target.y - t) as i32,
        width: (target.width + 2 * b) as i32,
        height: (target.height + t + b) as i32,
    }
}

/// Do the inset-adjusted fields fit in `i32`?
pub open spec fn inset_fits(target: Rect, outer: Rect, client: Rect) -> bool {
    let b = spec_border(outer, client);
    let t = spec_title(outer, client);
    &&& -0x8000_0000 <= target.x - b <= 0x7fff_ffff
    &&& -0x8000_0000 <= target.y - t <= 0x7fff_ffff
    &&& -0x8000_0000 <= target.width + 2 * b <= 0x7fff_ffff
    &&& -0x8000_0000 <= target.height + t + b <= 0x7fff_ffff
}

/// Truncating halving of an `i32`.
fn halve(v: i32) -> (r: i32)
    ensures
        r as int == half_trunc(v as int),
{
    if v >= 0 {
        (v as u32 / 2) as i32
    } else {
        let m: u64 = (-(v as i64)) as u64;
        let h: i64 = -((m / 2) as i64);
        h as i32
    }
}

/// Expand a computed target rectangle outward by the non-client insets
/// derived from the window's outer and client rectangles.
pub fn inset_adjust(target: &Rect, outer: &Rect, client: &Rect) -> (r: Rect)
    requires
        inset_fits(*target, *outer, *client),
    ensures
        r == spec_inset_adjust(*target, *outer, *client),
{
    let diff_w: i64 = outer.width as i64 - client.width as i64;
    let b: i64 = if diff_w >= 0 {
        ((diff_w as u64) / 2) as i64
    } else {
        -((((-diff_w) as u64) / 2) as i64)
    };
    let t: i64 = outer.height as i64 - client.height as i64 - b;
    Rect {
        x: (target.x as i64 - b) as i32,
        y: (target.y as i64 - t) as i32,
        width: (target.width as i64 + 2 * b) as i32,
        height: (target.height as i64 + t + b) as i32,
    }
}

/// Squared euclidean distance between two points.
pub open spec fn spec_dist_sq(a: Point, b: Point) -> int {
    (a.x - b.x) * (a.x - b.x) + (a.y - b.y) * (a.y - b.y)
}

/// Floor of the square root of `n`.
fn isqrt64(n: u64) -> (r: u64)
    ensures
        r * r <= n < (r + 1) * (r + 1),
{
    let mut lo: u64 = 0;
    let mut hi: u64 = 0x1_0000_0000;
    proof {
        lemma_mul_le(0x1_0000_0000, 0x1_0000_0000, 0x1_0000_0000, 0x1_0000_0000);
        assert(n < 0x1_0000_0000u64 * 0x1_0000_0000u64);
    }
    while lo + 1 < hi
        invariant
            lo < hi <= 0x1_0000_0000,
            lo * lo <= n,
            n < hi * hi,
        decreases hi - lo,
    {
        let mid: u64 = lo + (hi - lo) / 2;
        proof {
            lemma_mul_le(mid as int, mid as int, 0xffff_ffff, 0xffff_ffff);
        }
        if mid * mid <= n {
            lo = mid;
        } else {
            hi = mid;
        }
    }
    lo
}

impl Point {
    /// Euclidean distance to `other`, rounded down to an integer.
    pub fn distance(&self, other: Point) -> (r: i32)
        requires
            -0x2000_0000 <= self.x <= 0x2000_0000,
            -0x2000_0000 <= self.y <= 0x2000_0000,
            -0x2000_0000 <= other.x <= 0x2000_0000,
            -0x2000_0000 <= other.y <= 0x2000_0000,
        ensures
            0 <= r,
            (r as int) * (r as int) <= spec_dist_sq(*self, other),
            spec_dist_sq(*self, other) < (r + 1) * (r + 1),
    {
        let dx: i64 = self.x as i64 - other.x as i64;
        let dy: i64 = self.y as i64 - other.y as i64;
        let mx: u64 = if dx >= 0 {
            dx as u64
        } else {
            (-dx) as u64
        };
        let my: u64 = if dy >= 0 {
            dy as u64
        } else {
            (-dy) as u64
        };
        proof {
            lemma_mul_le(mx as int, mx as int, 0x4000_0000, 0x4000_0000);
            lemma_mul_le(my as int, my as int, 0x4000_0000, 0x4000_0000);
            assert(mx * mx == (dx * dx) as int && my * my == (dy * dy) as int)
                by (nonlinear_arith)
                requires
                    mx == abs_i64(dx),
                    my == abs_i64(dy),
            ;
        }
        let ds: u64 = mx * mx + my * my;
        let r = isqrt64(ds);
        proof {
            assert(r < 0x8000_0000) by (nonlinear_arith)
                requires
                    r * r <= ds,
                    ds <= 0x2000_0000_0000_0000,
            ;
        }
        r as i32
    }
}

/// Magnitude of an `i64` as a mathematical integer.
pub open spec fn abs_i64(v: i64) -> int {
    if v >= 0 {
        v as int
    } else {
        -(v as int)
    }
}

/// A window rectangle the hook module reports as belonging to a real
/// top-level window: no saturated coordinate and a non-zero extent.
pub open spec fn spec_real_rect(r: Rect) -> bool {
    r.x != 0x7fff_ffff && r.y != 0x7fff_ffff && r.width != 0x7fff_ffff && r.height != 0x7fff_ffff
        && r.x != -0x8000_0000 && r.y != -0x8000_0000 && r.width != -0x8000_0000
        && r.height != -0x8000_0000 && r.width != 0 && r.height != 0
}

/// Filter out the degenerate rectangles the OS reports for windows that are
/// not real application windows.
pub fn is_real_rect(r: &Rect) -> (b: bool)
    ensures
        b == spec_real_rect(*r),
{
    r.x != 0x7fff_ffff && r.y != 0x7fff_ffff && r.width != 0x7fff_ffff && r.height != 0x7fff_ffff
        && r.x != -0x8000_0000 && r.y != -0x8000_0000 && r.width != -0x8000_0000
        && r.height != -0x8000_0000 && r.width != 0 && r.height != 0
}

} // verus!
