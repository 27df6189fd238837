//! Vision sensors and the obstacle that can block them.
use vstd::prelude::*;
use crate::agents::Hider;
use crate::geometry::{
    cross, dot, lemma_mul_bounded, line_intersection, segment_crossing, Crossing, Point,
    GEOMETRY_LIMIT, WORLD_LIMIT,
};

verus! {

/// A horizontal wall from `(x, y)` to `(x + length, y)`.
#[derive(Clone, Copy, Debug, PartialEq, Eq, Structural)]
pub struct Obstacle {
    pub x: i64,
    pub y: i64,
    pub length: i64,
}

impl Obstacle {
    pub open spec fn wf(self) -> bool {
        self.start().within(WORLD_LIMIT as int) && 0 <= self.length <= WORLD_LIMIT
    }

    pub open spec fn start(self) -> Point {
        Point { x: self.x, y: self.y }
    }

    pub open spec fn end(self) -> Point {
        Point { x: (self.x + self.length) as i64, y: self.y }
    }

    pub fn new(x: i64, y: i64, length: i64) -> (r: Obstacle)
        ensures
            r == (Obstacle { x, y, length }),
    {
        Obstacle { x, y, length }
    }
}

/// A ray from `origin` to `origin + reach`. A point is seen when it lies
/// closer than `threshold` to its projection onto the part of the ray that
/// no obstacle hides, projected with the scale of the full reach (see
/// `closest_fraction`).
#[derive(Clone, Copy, Debug, PartialEq, Eq, Structural)]
pub struct VisionSensor {
    pub origin: Point,
    pub reach: Point,
    pub threshold: i64,
}

/// How much of a sensor's ray stays visible, as the fraction `(a, b)` of its
/// reach: all of it, or up to where it properly crosses the obstacle.
pub open spec fn visible_fraction(s: VisionSensor, obstacle: Option<Obstacle>) -> (int, int) {
    match obstacle {
        Some(o) => match segment_crossing(s.origin, s.end(), o.start(), o.end()) {
            Some(c) => c,
            None => (1, 1),
        },
        None => (1, 1),
    }
}

/// The point that the hider at offset `w` is compared with, as the fraction
/// `p / q` of the reach `d` at which it lies (both taken from the origin),
/// when the ray is visible up to `a / b` of its reach. The hider is projected
/// onto that visible part with the scale of the full reach: the parameter is
/// `t = clamp(a * dw / (b * r2), 0, 1)` and the point lies at `(a / b) * t`.
pub open spec fn closest_fraction(wx: int, wy: int, dx: int, dy: int, a: int, b: int) -> (int, int) {
    let dw = dot(wx, wy, dx, dy);
    let r2 = dot(dx, dy, dx, dy);
    if dw <= 0 {
        (0, 1)
    } else if a * dw >= b * r2 {
        (a, b)
    } else {
        (a * a * dw, b * b * r2)
    }
}

/// The offset `w` lies closer than `thr` to the point at fraction `p / q`
/// of the reach `d` (with `q > 0`), squared and scaled by `q * q`.
pub open spec fn near(wx: int, wy: int, dx: int, dy: int, p: int, q: int, thr: int) -> bool {
    (q * wx - p * dx) * (q * wx - p * dx) + (q * wy - p * dy) * (q * wy - p * dy) < thr * thr * q
        * q
}

/// The point at offset `w` lies near the sensor's ray `d`, visible up to
/// `a / b` of its reach.
pub open spec fn sees_offset(wx: int, wy: int, dx: int, dy: int, a: int, b: int, thr: int) -> bool {
    let (p, q) = closest_fraction(wx, wy, dx, dy, a, b);
    near(wx, wy, dx, dy, p, q, thr)
}

/// The sensor sees the point `h`.
pub open spec fn sensor_sees(s: VisionSensor, obstacle: Option<Obstacle>, h: Point) -> bool {
    let (a, b) = visible_fraction(s, obstacle);
    sees_offset(
        h.x - s.origin.x,
        h.y - s.origin.y,
        s.reach.x as int,
        s.reach.y as int,
        a,
        b,
        s.threshold as int,
    )
}

/// Where a horizontal obstacle crosses the ray, the visible fraction of the
/// reach in lowest terms but for a common factor: the height of the
/// obstacle above the origin over the height of the reach, signs made
/// positive.
pub open spec fn cut_fraction(s: VisionSensor, o: Obstacle) -> (int, int) {
    let qy = o.y - s.origin.y;
    let dy = s.reach.y as int;
    if dy < 0 {
        (-qy, -dy)
    } else {
        (qy, dy)
    }
}

proof fn lemma_horizontal_crossing(s: VisionSensor, o: Obstacle)
    requires
        s.wf(),
        o.wf(),
        segment_crossing(s.origin, s.end(), o.start(), o.end()).is_some(),
    ensures
        o.length > 0,
        visible_fraction(s, Some(o)) == (o.length * cut_fraction(s, o).0, o.length
            * cut_fraction(s, o).1),
        0 < cut_fraction(s, o).0 < cut_fraction(s, o).1 <= WORLD_LIMIT,
{
    let dx = s.reach.x as int;
    let dy = s.reach.y as int;
    let len = o.length as int;
    let qx = o.x - s.origin.x;
    let qy = o.y - s.origin.y;
    assert(s.end().x - s.origin.x == dx && s.end().y - s.origin.y == dy);
    assert(o.end().x - o.start().x == len && o.end().y - o.start().y == 0);
    let den = cross(dx, dy, len, 0);
    let tn = cross(qx, qy, len, 0);
    assert(den == -(dy * len)) by (nonlinear_arith)
        requires den == dx * 0 - dy * len;
    assert(tn == -(qy * len)) by (nonlinear_arith)
        requires tn == qx * 0 - qy * len;
    assert(den != 0);
    assert(len > 0 && dy != 0) by (nonlinear_arith)
        requires -(dy * len) != 0, len >= 0;
    let (a, b) = visible_fraction(s, Some(o));
    if dy < 0 {
        assert(den > 0) by (nonlinear_arith)
            requires den == -(dy * len), dy < 0, len > 0;
        assert(a == len * (-qy) && b == len * (-dy)) by (nonlinear_arith)
            requires a == tn, b == den, tn == -(qy * len), den == -(dy * len);
        assert(0 < -qy < -dy) by (nonlinear_arith)
            requires 0 < len * (-qy) < len * (-dy), len > 0;
    } else {
        assert(den < 0) by (nonlinear_arith)
            requires den == -(dy * len), dy > 0, len > 0;
        assert(a == len * qy && b == len * dy) by (nonlinear_arith)
            requires a == -tn, b == -den, tn == -(qy * len), den == -(dy * len);
        assert(0 < qy < dy) by (nonlinear_arith)
            requires 0 < len * qy < len * dy, len > 0;
    }
}

/// Scaling both parts of a fraction by a positive factor changes nothing
/// that `near` tests.
proof fn lemma_near_scaled(wx: int, wy: int, dx: int, dy: int, p: int, q: int, thr: int, k: int)
    requires
        k > 0,
    ensures
        near(wx, wy, dx, dy, k * p, k * q, thr) == near(wx, wy, dx, dy, p, q, thr),
{
    let ex = q * wx - p * dx;
    let ey = q * wy - p * dy;
    assert((k * q) * wx - (k * p) * dx == k * ex) by (nonlinear_arith)
        requires ex == q * wx - p * dx;
    assert((k * q) * wy - (k * p) * dy == k * ey) by (nonlinear_arith)
        requires ey == q * wy - p * dy;
    assert((k * ex) * (k * ex) + (k * ey) * (k * ey) == (k * k) * (ex * ex + ey * ey))
        by (nonlinear_arith);
    assert(thr * thr * (k * q) * (k * q) == (k * k) * (thr * thr * q * q)) by (nonlinear_arith);
    assert(k * k > 0) by (nonlinear_arith)
        requires k > 0;
    assert(((k * k) * (ex * ex + ey * ey) < (k * k) * (thr * thr * q * q)) == (ex * ex + ey * ey
        < thr * thr * q * q)) by (nonlinear_arith)
        requires k * k > 0;
}

/// The visible fraction may be scaled by any positive factor.
proof fn lemma_sees_offset_scaled(
    wx: int,
    wy: int,
    dx: int,
    dy: int,
    a: int,
    b: int,
    thr: int,
    k: int,
)
    requires
        k > 0,
    ensures
        sees_offset(wx, wy, dx, dy, k * a, k * b, thr) == sees_offset(wx, wy, dx, dy, a, b, thr),
{
    let dw = dot(wx, wy, dx, dy);
    let r2 = dot(dx, dy, dx, dy);
    assert(((k * a) * dw >= (k * b) * r2) == (a * dw >= b * r2)) by (nonlinear_arith)
        requires k > 0;
    if dw > 0 {
        if a * dw >= b * r2 {
            lemma_near_scaled(wx, wy, dx, dy, a, b, thr, k);
        } else {
            assert((k * a) * (k * a) * dw == (k * k) * (a * a * dw)) by (nonlinear_arith);
            assert((k * b) * (k * b) * r2 == (k * k) * (b * b * r2)) by (nonlinear_arith);
            assert(k * k > 0) by (nonlinear_arith)
                requires k > 0;
            lemma_near_scaled(wx, wy, dx, dy, a * a * dw, b * b * r2, thr, k * k);
        }
    }
}

/// Between the ends, `near` compares the hider's distance along the ray with
/// what the threshold leaves beside its distance across the ray:
/// `n * n < (thr * thr * r2 - c * c) * (m * m)`.
proof fn lemma_near_between(wx: int, wy: int, dx: int, dy: int, a: int, b: int, thr: int)
    requires
        dot(dx, dy, dx, dy) > 0,
    ensures
        ({
            let dw = dot(wx, wy, dx, dy);
            let r2 = dot(dx, dy, dx, dy);
            let c = cross(wx, wy, dx, dy);
            let n = dw * (b * b - a * a);
            let m = b * b;
            near(wx, wy, dx, dy, a * a * dw, b * b * r2, thr) == (n * n < (thr * thr * r2 - c * c)
                * (m * m))
        }),
{
    let dw = dot(wx, wy, dx, dy);
    let r2 = dot(dx, dy, dx, dy);
    let c = cross(wx, wy, dx, dy);
    let n = dw * (b * b - a * a);
    let m = b * b;
    let p = a * a * dw;
    let q = m * r2;
    assert(b * b * r2 == q);
    let ex = q * wx - p * dx;
    let ey = q * wy - p * dy;
    let e2 = ex * ex + ey * ey;
    lemma_lagrange(ex, ey, dx, dy);
    assert(ex * dy - ey * dx == q * c) by (nonlinear_arith)
        requires ex == q * wx - p * dx, ey == q * wy - p * dy, c == wx * dy - wy * dx;
    assert(ex * dx == q * (wx * dx) - p * (dx * dx)) by (nonlinear_arith)
        requires ex == q * wx - p * dx;
    assert(ey * dy == q * (wy * dy) - p * (dy * dy)) by (nonlinear_arith)
        requires ey == q * wy - p * dy;
    assert(q * dw == q * (wx * dx) + q * (wy * dy)) by (nonlinear_arith)
        requires dw == wx * dx + wy * dy;
    assert(p * r2 == p * (dx * dx) + p * (dy * dy)) by (nonlinear_arith)
        requires r2 == dx * dx + dy * dy;
    assert(ex * dx + ey * dy == q * dw - p * r2);
    assert(q * dw - p * r2 == r2 * n) by (nonlinear_arith)
        requires q == m * r2, p == a * a * dw, n == dw * (b * b - a * a), m == b * b;
    assert(e2 * r2 == (q * c) * (q * c) + (r2 * n) * (r2 * n));
    assert((q * c) * (q * c) == (r2 * r2) * (m * m * (c * c))) by (nonlinear_arith)
        requires q == m * r2;
    assert((r2 * n) * (r2 * n) == (r2 * r2) * (n * n)) by (nonlinear_arith);
    assert(thr * thr * q * q * r2 == (r2 * r2) * (thr * thr * r2 * (m * m))) by (nonlinear_arith)
        requires q == m * r2;
    assert((e2 < thr * thr * q * q) == (e2 * r2 < thr * thr * q * q * r2)) by (nonlinear_arith)
        requires r2 > 0;
    assert(r2 * r2 > 0) by (nonlinear_arith)
        requires r2 > 0;
    let lhs = m * m * (c * c) + n * n;
    let rhs = thr * thr * r2 * (m * m);
    assert(e2 * r2 == (r2 * r2) * lhs) by (nonlinear_arith)
        requires
            e2 * r2 == (r2 * r2) * (m * m * (c * c)) + (r2 * r2) * (n * n),
            lhs == m * m * (c * c) + n * n,
    ;
    assert(((r2 * r2) * lhs < (r2 * r2) * rhs) == (lhs < rhs)) by (nonlinear_arith)
        requires r2 * r2 > 0;
    assert((thr * thr * r2 - c * c) * (m * m) == rhs - m * m * (c * c)) by (nonlinear_arith)
        requires rhs == thr * thr * r2 * (m * m);
}

/// Lagrange's identity in two dimensions.
proof fn lemma_lagrange(ex: int, ey: int, dx: int, dy: int)
    ensures
        (ex * ex + ey * ey) * (dx * dx + dy * dy) == (ex * dy - ey * dx) * (ex * dy - ey * dx) + (ex
            * dx + ey * dy) * (ex * dx + ey * dy),
{
    let (pa, pb, pc, pd) = (ex * dx, ey * dy, ex * dy, ey * dx);
    let (xx, yy, u, v) = (ex * ex, ey * ey, dx * dx, dy * dy);
    assert((xx + yy) * (u + v) == xx * u + xx * v + yy * u + yy * v) by (nonlinear_arith);
    assert(pa * pa == xx * u) by (nonlinear_arith)
        requires pa == ex * dx, xx == ex * ex, u == dx * dx;
    assert(pb * pb == yy * v) by (nonlinear_arith)
        requires pb == ey * dy, yy == ey * ey, v == dy * dy;
    assert(pc * pc == xx * v) by (nonlinear_arith)
        requires pc == ex * dy, xx == ex * ex, v == dy * dy;
    assert(pd * pd == yy * u) by (nonlinear_arith)
        requires pd == ey * dx, yy == ey * ey, u == dx * dx;
    assert(pa * pb == pc * pd) by (nonlinear_arith)
        requires pa == ex * dx, pb == ey * dy, pc == ex * dy, pd == ey * dx;
    assert((pa + pb) * (pa + pb) == pa * pa + 2 * (pa * pb) + pb * pb) by (nonlinear_arith);
    assert((pc - pd) * (pc - pd) == pc * pc - 2 * (pc * pd) + pd * pd) by (nonlinear_arith);
}

/// Tests `n * n < r * (m * m)` without forming products beyond 128 bits, by
/// splitting `n` into `g * m + e`.
fn square_below(n: u128, m: u128, r: i128) -> (res: bool)
    requires
        n <= 0x40_0000_0000_0000_0000,
        0 < m <= 0x4_0000_0000,
        r <= 0x20_0000_0000_0000_0000,
    ensures
        res == (n * n < r * (m * m)),
{
    proof {
        assert(n * n >= 0 && m * m > 0) by (nonlinear_arith)
            requires m > 0;
    }
    if r <= 0 {
        proof {
            assert(r * (m * m) <= 0) by (nonlinear_arith)
                requires r <= 0, m * m > 0;
        }
        return false;
    }
    let g = n / m;
    let e = n % m;
    proof {
        vstd::arithmetic::div_mod::lemma_fundamental_div_mod(n as int, m as int);
        assert(m * g == g * m) by (nonlinear_arith);
        assert(n == g * m + e);
        assert(0 <= e < m);
    }
    if g >= 0x8_0000_0000 {
        proof {
            assert(n >= 0x8_0000_0000 * m) by (nonlinear_arith)
                requires n == g * m + e, g >= 0x8_0000_0000, e >= 0, m > 0;
            assert(n * n >= 0x40_0000_0000_0000_0000 * (m * m)) by (nonlinear_arith)
                requires n >= 0x8_0000_0000 * m, m > 0;
            assert(r * (m * m) <= 0x20_0000_0000_0000_0000 * (m * m)) by (nonlinear_arith)
                requires r <= 0x20_0000_0000_0000_0000, m * m > 0;
        }
        return false;
    }
    let gi = g as i128;
    let ei = e as i128;
    let mi = m as i128;
    proof {
        lemma_mul_bounded(gi as int, gi as int, 0x8_0000_0000, 0x8_0000_0000);
    }
    let d = r - gi * gi;
    proof {
        assert(n * n == g * g * (m * m) + (2 * g * m * e + e * e)) by (nonlinear_arith)
            requires n == g * m + e;
        assert(2 * g * m * e + e * e >= 0) by (nonlinear_arith)
            requires g >= 0, m > 0, e >= 0;
        assert(r * (m * m) == g * g * (m * m) + d * (m * m)) by (nonlinear_arith)
            requires d == r - g * g;
    }
    if d <= 0 {
        proof {
            assert(d * (m * m) <= 0) by (nonlinear_arith)
                requires d <= 0, m * m > 0;
        }
        return false;
    }
    if d > 2 * gi {
        proof {
            assert(2 * g * m * e + e * e < (2 * g + 1) * (m * m)) by (nonlinear_arith)
                requires 0 <= e < m, g >= 0;
            assert((2 * g + 1) * (m * m) <= d * (m * m)) by (nonlinear_arith)
                requires d >= 2 * g + 1, m * m > 0;
        }
        return true;
    }
    proof {
        lemma_mul_bounded(mi as int, ei as int, 0x4_0000_0000, 0x4_0000_0000);
        lemma_mul_bounded(gi as int, (mi * ei) as int, 0x8_0000_0000, 0x10_0000_0000_0000_0000);
        lemma_mul_bounded(ei as int, ei as int, 0x4_0000_0000, 0x4_0000_0000);
        lemma_mul_bounded(mi as int, mi as int, 0x4_0000_0000, 0x4_0000_0000);
        lemma_mul_bounded(d as int, (mi * mi) as int, 0x10_0000_0000, 0x10_0000_0000_0000_0000);
        assert(2 * g * m * e == 2 * (g * (m * e))) by (nonlinear_arith);
    }
    2 * (gi * (mi * ei)) + ei * ei < d * (mi * mi)
}

/// Tests `near` in 128-bit arithmetic, for the sizes that sensors produce.
fn near_exec(wx: i128, wy: i128, dx: i128, dy: i128, p: i128, q: i128, thr: i128) -> (r: bool)
    requires
        -262144 <= wx <= 262144,
        -262144 <= wy <= 262144,
        -131072 <= dx <= 131072,
        -131072 <= dy <= 131072,
        0 <= p <= 549755813888,
        0 < q <= 549755813888,
        0 <= thr <= 131072,
    ensures
        r == near(wx as int, wy as int, dx as int, dy as int, p as int, q as int, thr as int),
{
    proof {
        lemma_mul_bounded(q as int, wx as int, 549755813888, 262144);
        lemma_mul_bounded(q as int, wy as int, 549755813888, 262144);
        lemma_mul_bounded(p as int, dx as int, 549755813888, 131072);
        lemma_mul_bounded(p as int, dy as int, 549755813888, 131072);
    }
    let ex = q * wx - p * dx;
    let ey = q * wy - p * dy;
    proof {
        lemma_mul_bounded(ex as int, ex as int, 288230376151711744, 288230376151711744);
        lemma_mul_bounded(ey as int, ey as int, 288230376151711744, 288230376151711744);
        lemma_mul_bounded(thr as int, thr as int, 131072, 131072);
        lemma_mul_bounded(q as int, q as int, 549755813888, 549755813888);
        lemma_mul_bounded((thr * thr) as int, (q * q) as int, 17179869184, 302231454903657293676544);
    }
    let lhs = ex * ex + ey * ey;
    let rhs = (thr * thr) * (q * q);
    proof {
        assert(thr * thr * q * q == (thr * thr) * (q * q)) by (nonlinear_arith);
    }
    lhs < rhs
}

impl VisionSensor {
    pub open spec fn wf(self) -> bool {
        &&& self.origin.within(WORLD_LIMIT as int)
        &&& self.reach.within(WORLD_LIMIT as int)
        &&& 0 <= self.threshold <= WORLD_LIMIT
    }

    /// The far end of the ray when nothing blocks it.
    pub open spec fn end(self) -> Point {
        Point { x: (self.origin.x + self.reach.x) as i64, y: (self.origin.y + self.reach.y) as i64 }
    }

    /// The end of the ray when nothing blocks it.
    pub fn unblocked_end(&self) -> (r: Point)
        requires
            self.wf(),
        ensures
            r == self.end(),
            r.within(GEOMETRY_LIMIT as int),
    {
        Point { x: self.origin.x + self.reach.x, y: self.origin.y + self.reach.y }
    }

    /// Where the obstacle properly crosses the ray, the fraction of the reach
    /// that stays visible; `None` where it does not cross (parallel included).
    pub fn blocked_by_obs(&self, obs: &Obstacle) -> (r: Option<Crossing>)
        requires
            self.wf(),
            obs.wf(),
        ensures
            r.is_some() == segment_crossing(self.origin, self.end(), obs.start(), obs.end()).is_some(),
            r.is_some() ==> segment_crossing(self.origin, self.end(), obs.start(), obs.end()) == Some(
                r.unwrap()@,
            ),
            r.is_some() ==> 0 < r.unwrap().num < r.unwrap().den <= 549755813888,
    {
        let end = self.unblocked_end();
        let far = Point { x: obs.x + obs.length, y: obs.y };
        line_intersection(self.origin, end, Point { x: obs.x, y: obs.y }, far)
    }

    /// Whether the sensor sees the point `h`, with the obstacle in the way if
    /// there is one.
    pub fn sees_point(&self, h: Point, obstacle: Option<Obstacle>) -> (r: bool)
        requires
            self.wf(),
            h.within(WORLD_LIMIT as int),
            obstacle.is_some() ==> obstacle.unwrap().wf(),
        ensures
            r == sensor_sees(*self, obstacle, h),
    {
        let wx = h.x as i128 - self.origin.x as i128;
        let wy = h.y as i128 - self.origin.y as i128;
        let dx = self.reach.x as i128;
        let dy = self.reach.y as i128;
        let thr = self.threshold as i128;
        let ghost mut k: int = 1;
        let (a, b): (i128, i128) = match obstacle {
            Some(o) => match self.blocked_by_obs(&o) {
                Some(_) => {
                    proof {
                        lemma_horizontal_crossing(*self, o);
                        k = o.length as int;
                    }
                    let qy = o.y as i128 - self.origin.y as i128;
                    if dy < 0 {
                        (-qy, -dy)
                    } else {
                        (qy, dy)
                    }
                },
                None => (1, 1),
            },
            None => (1, 1),
        };
        proof {
            let (va, vb) = visible_fraction(*self, obstacle);
            assert(va == k * a && vb == k * b && k > 0);
            assert(0 < a <= b <= 131072);
            lemma_sees_offset_scaled(
                wx as int,
                wy as int,
                dx as int,
                dy as int,
                a as int,
                b as int,
                thr as int,
                k,
            );
            lemma_mul_bounded(wx as int, dx as int, 262144, 131072);
            lemma_mul_bounded(wy as int, dy as int, 262144, 131072);
            lemma_mul_bounded(wx as int, dy as int, 262144, 131072);
            lemma_mul_bounded(wy as int, dx as int, 262144, 131072);
            lemma_mul_bounded(dx as int, dx as int, 131072, 131072);
            lemma_mul_bounded(dy as int, dy as int, 131072, 131072);
        }
        let dw = wx * dx + wy * dy;
        let r2 = dx * dx + dy * dy;
        proof {
            lemma_mul_bounded(dw as int, b as int, 68719476736, 131072);
            lemma_mul_bounded(a as int, dw as int, 131072, 68719476736);
            lemma_mul_bounded(b as int, r2 as int, 131072, 34359738368);
        }
        if dw <= 0 {
            near_exec(wx, wy, dx, dy, 0, 1, thr)
        } else if a * dw >= b * r2 {
            near_exec(wx, wy, dx, dy, a, b, thr)
        } else {
            proof {
                assert(r2 > 0) by (nonlinear_arith)
                    requires dw > 0, a > 0, b > 0, a * dw < b * r2;
                lemma_near_between(wx as int, wy as int, dx as int, dy as int, a as int, b as int, thr as int);
                lemma_mul_bounded(a as int, a as int, 131072, 131072);
                lemma_mul_bounded(b as int, b as int, 131072, 131072);
                assert(0 <= a * a <= b * b) by (nonlinear_arith)
                    requires 0 < a <= b;
                lemma_mul_bounded(dw as int, (b * b - a * a) as int, 68719476736, 17179869184);
                lemma_mul_bounded(thr as int, thr as int, 131072, 131072);
                lemma_mul_bounded((thr * thr) as int, r2 as int, 17179869184, 34359738368);
            }
            let c = wx * dy - wy * dx;
            proof {
                lemma_mul_bounded(c as int, c as int, 68719476736, 68719476736);
            }
            let n = dw * (b * b - a * a);
            let m = b * b;
            let rest = thr * thr * r2 - c * c;
            proof {
                assert(thr * thr * r2 <= 0x20_0000_0000_0000_0000);
                assert(c * c >= 0) by (nonlinear_arith);
                assert(b * b > 0) by (nonlinear_arith)
                    requires b > 0;
                assert(n >= 0) by (nonlinear_arith)
                    requires n == dw * (b * b - a * a), dw > 0, b * b - a * a >= 0;
            }
            square_below(n as u128, m as u128, rest)
        }
    }

    /// Whether the sensor sees the hider, with the obstacle in the way if
    /// there is one.
    pub fn sees_hider(&self, hider: &Hider, obstacle: Option<Obstacle>) -> (r: bool)
        requires
            self.wf(),
            hider.position.within(WORLD_LIMIT as int),
            obstacle.is_some() ==> obstacle.unwrap().wf(),
        ensures
            r == sensor_sees(*self, obstacle, hider.position),
    {
        self.sees_point(hider.position, obstacle)
    }
}

/// A sensor with no obstacle in front of it sees a point placed exactly at the
/// end of its ray, whatever its direction and length, provided the threshold
/// is positive.
pub proof fn lemma_sees_own_endpoint(s: VisionSensor)
    requires
        s.wf(),
        s.threshold > 0,
    ensures
        sensor_sees(s, None, s.end()),
{
    let dx = s.reach.x as int;
    let dy = s.reach.y as int;
    let r2 = dot(dx, dy, dx, dy);
    let t = s.threshold as int;
    let h = s.end();
    assert(h.x - s.origin.x == dx && h.y - s.origin.y == dy);
    assert(t * t * 1 * 1 > 0) by (nonlinear_arith)
        requires t > 0;
    assert(r2 >= 0) by (nonlinear_arith)
        requires r2 == dx * dx + dy * dy;
    if r2 == 0 {
        assert(dx == 0 && dy == 0) by (nonlinear_arith)
            requires dx * dx + dy * dy == 0;
        assert(near(dx, dy, dx, dy, 0, 1, t));
    } else {
        assert(r2 * 1 >= 1 * r2);
        assert(near(dx, dy, dx, dy, 1, 1, t));
    }
}

/// Lagrange's identity in two dimensions bounds a dot product by the lengths.
proof fn lemma_dot_squared_bound(ex: int, ey: int, dx: int, dy: int)
    ensures
        dot(ex, ey, dx, dy) * dot(ex, ey, dx, dy) <= dot(ex, ey, ex, ey) * dot(dx, dy, dx, dy),
{
    let (pa, pb, pc, pd) = (ex * dx, ey * dy, ex * dy, ey * dx);
    let (xx, yy, u, v) = (ex * ex, ey * ey, dx * dx, dy * dy);
    assert((xx + yy) * (u + v) == xx * u + xx * v + yy * u + yy * v) by (nonlinear_arith);
    assert(pa * pa == xx * u) by (nonlinear_arith)
        requires pa == ex * dx, xx == ex * ex, u == dx * dx;
    assert(pb * pb == yy * v) by (nonlinear_arith)
        requires pb == ey * dy, yy == ey * ey, v == dy * dy;
    assert(pc * pc == xx * v) by (nonlinear_arith)
        requires pc == ex * dy, xx == ex * ex, v == dy * dy;
    assert(pd * pd == yy * u) by (nonlinear_arith)
        requires pd == ey * dx, yy == ey * ey, u == dx * dx;
    assert(pa * pb == pc * pd) by (nonlinear_arith)
        requires pa == ex * dx, pb == ey * dy, pc == ex * dy, pd == ey * dx;
    assert((pa + pb) * (pa + pb) == pa * pa + 2 * (pa * pb) + pb * pb) by (nonlinear_arith);
    assert((pc - pd) * (pc - pd) == pc * pc - 2 * (pc * pd) + pd * pd) by (nonlinear_arith);
    assert((pc - pd) * (pc - pd) >= 0) by (nonlinear_arith);
}

/// Squares `u + k * v`.
proof fn lemma_square_shifted(u: int, k: int, v: int)
    ensures
        (u + k * v) * (u + k * v) == u * u + 2 * k * (u * v) + k * k * (v * v),
{
    assert((u + k * v) * (u + k * v) == u * u + 2 * k * (u * v) + k * k * (v * v))
        by (nonlinear_arith);
}

/// The fraction that `closest_fraction` picks lies on the segment.
proof fn lemma_closest_fraction_on_segment(wx: int, wy: int, dx: int, dy: int, a: int, b: int)
    requires
        0 < a <= b,
    ensures
        ({
            let (p, q) = closest_fraction(wx, wy, dx, dy, a, b);
            0 <= p <= q && q > 0
        }),
{
    let dw = dot(wx, wy, dx, dy);
    let r2 = dot(dx, dy, dx, dy);
    if dw > 0 && a * dw < b * r2 {
        assert(0 < a * a * dw < b * b * r2) by (nonlinear_arith)
            requires dw > 0, a * dw < b * r2, 0 < a <= b;
    }
}

/// A point at least the sensor's range plus its threshold away from the
/// sensor's origin is never seen, with or without an obstacle. `range` is any
/// length that the ray does not exceed.
pub proof fn lemma_far_point_unseen(s: VisionSensor, obstacle: Option<Obstacle>, h: Point, range: int)
    requires
        s.wf(),
        obstacle.is_some() ==> obstacle.unwrap().wf(),
        range >= 0,
        dot(s.reach.x as int, s.reach.y as int, s.reach.x as int, s.reach.y as int) <= range * range,
        (range + s.threshold) * (range + s.threshold) <= dot(
            h.x - s.origin.x,
            h.y - s.origin.y,
            h.x - s.origin.x,
            h.y - s.origin.y,
        ),
    ensures
        !sensor_sees(s, obstacle, h),
{
    let wx = h.x - s.origin.x;
    let wy = h.y - s.origin.y;
    let dx = s.reach.x as int;
    let dy = s.reach.y as int;
    let t = s.threshold as int;
    let (a, b) = visible_fraction(s, obstacle);
    lemma_closest_fraction_on_segment(wx, wy, dx, dy, a, b);
    let (p, q) = closest_fraction(wx, wy, dx, dy, a, b);
    let ex = q * wx - p * dx;
    let ey = q * wy - p * dy;
    let e2 = dot(ex, ey, ex, ey);
    let ed = dot(ex, ey, dx, dy);
    let r2 = dot(dx, dy, dx, dy);
    let x2 = dot(wx, wy, wx, wy);
    if e2 < t * t * q * q {
        lemma_square_shifted(ex, p, dx);
        lemma_square_shifted(ey, p, dy);
        assert((q * wx) * (q * wx) == q * q * (wx * wx)) by (nonlinear_arith);
        assert((q * wy) * (q * wy) == q * q * (wy * wy)) by (nonlinear_arith);
        assert(q * q * x2 == q * q * (wx * wx) + q * q * (wy * wy)) by (nonlinear_arith)
            requires x2 == wx * wx + wy * wy;
        assert(2 * p * ed == 2 * p * (ex * dx) + 2 * p * (ey * dy)) by (nonlinear_arith)
            requires ed == ex * dx + ey * dy;
        assert(p * p * r2 == p * p * (dx * dx) + p * p * (dy * dy)) by (nonlinear_arith)
            requires r2 == dx * dx + dy * dy;
        assert(q * wx == ex + p * dx && q * wy == ey + p * dy);
        assert(q * q * x2 == e2 + 2 * p * ed + p * p * r2);
        lemma_dot_squared_bound(ex, ey, dx, dy);
        assert(e2 >= 0 && r2 >= 0) by (nonlinear_arith)
            requires
                e2 == ex * ex + ey * ey,
                r2 == dx * dx + dy * dy,
        ;
        assert(ed * ed <= (t * q * range) * (t * q * range)) by (nonlinear_arith)
            requires
                ed * ed <= e2 * r2,
                0 <= e2 < t * t * q * q,
                0 <= r2 <= range * range,
        ;
        assert(ed <= t * q * range) by (nonlinear_arith)
            requires
                ed * ed <= (t * q * range) * (t * q * range),
                t >= 0,
                q > 0,
                range >= 0,
        ;
        assert(t * q * range >= 0) by (nonlinear_arith)
            requires t >= 0, q > 0, range >= 0;
        assert(2 * p * ed <= 2 * q * (t * q * range)) by (nonlinear_arith)
            requires
                0 <= p <= q,
                ed <= t * q * range,
                t * q * range >= 0,
        ;
        assert(p * p * r2 <= q * q * (range * range)) by (nonlinear_arith)
            requires 0 <= p <= q, 0 <= r2 <= range * range;
        assert(q * q * ((range + t) * (range + t)) == t * t * q * q + 2 * q * (t * q * range) + q
            * q * (range * range)) by (nonlinear_arith);
        assert(q * q * x2 < q * q * ((range + t) * (range + t)));
        assert(false) by (nonlinear_arith)
            requires
                q * q * x2 < q * q * ((range + t) * (range + t)),
                (range + t) * (range + t) <= x2,
                q > 0,
        ;
    }
}

/// An obstacle never lengthens what a sensor sees, and one that properly
/// crosses the ray strictly shortens it: the visible part of the reach is the
/// fraction `a / b`, at most the whole of it, and less than all of it exactly
/// where the obstacle crosses.
pub proof fn lemma_obstacle_shortens_sight(s: VisionSensor, o: Obstacle)
    requires
        s.wf(),
        o.wf(),
    ensures
        ({
            let (a, b) = visible_fraction(s, Some(o));
            let r2 = dot(s.reach.x as int, s.reach.y as int, s.reach.x as int, s.reach.y as int);
            &&& 0 < a <= b
            &&& a * a * r2 <= b * b * r2
            &&& segment_crossing(s.origin, s.end(), o.start(), o.end()).is_some() <==> a < b
            &&& (a < b && r2 > 0) ==> a * a * r2 < b * b * r2
        }),
{
    let (a, b) = visible_fraction(s, Some(o));
    let dx = s.reach.x as int;
    let dy = s.reach.y as int;
    let r2 = dot(dx, dy, dx, dy);
    assert(r2 >= 0) by (nonlinear_arith)
        requires r2 == dx * dx + dy * dy;
    assert(a * a * r2 <= b * b * r2) by (nonlinear_arith)
        requires 0 < a <= b, r2 >= 0;
    if a < b && r2 > 0 {
        assert(a * a * r2 < b * b * r2) by (nonlinear_arith)
            requires 0 < a < b, r2 > 0;
    }
}

} // verus!
