//! A tiled software rasterizer over exact integer screen coordinates.
//!
//! Triangles carry per-vertex payloads; every covered pixel receives the
//! barycentric-interpolated payload, shaded by a caller-supplied fragment
//! function, under a per-pixel depth test. Screen geometry is exact: a
//! pixel's barycentric weights are rationals with a shared denominator of
//! twice the triangle area, so the inside test, the conservative tile tests
//! and the depth test are all decided without rounding.

use vstd::prelude::*;

pub mod interpolate;
pub mod tile;
pub mod lanes;
pub mod pipeline;
pub mod vmath;

pub use crate::interpolate::{Flat, Interpolate};
pub use crate::pipeline::{Fragment, Vertex};

use crate::lanes::Block64;
use crate::vmath::{affine_at, clamp_spec, clamp128, cross2, floor_div128, lemma_affine_box, lemma_mul_bound, Vec2i, Vec3i, Vec4i};

verus! {

/// Largest magnitude a screen coordinate of a triangle vertex may have.
/// Screen-space positions produced by the clip transform are saturated into
/// this range, which keeps every edge-function product inside `i64`.
pub const COORD_LIMIT: i64 = 32768;

/// Largest magnitude of a point at which weights are evaluated (pixel
/// centers, tile corners). Twice `COORD_LIMIT`, so that every pixel of the
/// largest frame plus a full tile of padding is in range.
pub const EVAL_LIMIT: i64 = 65536;

/// Upper bound on twice a triangle's area, given `COORD_LIMIT`.
pub const DEN_LIMIT: i64 = 0x8_0000_0000;

/// Upper bound on the magnitude of a weight numerator at a point in the
/// evaluation range, given `COORD_LIMIT` and `EVAL_LIMIT`.
pub const NUM_LIMIT: i64 = 0x10_0000_0000;

/// A triangle of three vertices of any payload type: the unit every stage of
/// the pipeline works on.
#[derive(Clone, Copy, Debug, PartialEq, Eq, Structural)]
pub struct Triangle<T> {
    pub x: T,
    pub y: T,
    pub z: T,
}

impl<T> Triangle<T> {
    pub fn new(x: T, y: T, z: T) -> (r: Triangle<T>)
        ensures
            r.x == x,
            r.y == y,
            r.z == z,
    {
        Triangle { x, y, z }
    }
}

/// Twice the signed area of the screen triangle with the given corners;
/// positive exactly for the winding order the pipeline keeps.
pub open spec fn tri_area2(ax: int, ay: int, bx: int, by: int, cx: int, cy: int) -> int {
    cross2(bx - ax, by - ay, cx - ax, cy - ay)
}

/// A backface is a triangle whose screen-space winding is reversed: its
/// normal's component along the view axis is nonnegative, which for the
/// screen triangle means twice its signed area is nonpositive. Degenerate
/// triangles count as backfaces and are culled with them.
pub fn is_backface(v: &Triangle<Vec3i>) -> (r: bool)
    requires
        v.x.bounded(0x2000_0000),
        v.y.bounded(0x2000_0000),
        v.z.bounded(0x2000_0000),
    ensures
        r == (tri_area2(
            v.x.x as int,
            v.x.y as int,
            v.y.x as int,
            v.y.y as int,
            v.z.x as int,
            v.z.y as int,
        ) <= 0),
{
    let e0 = Vec2i::new(v.y.x - v.x.x, v.y.y - v.x.y);
    let e1 = Vec2i::new(v.z.x - v.x.x, v.z.y - v.x.y);
    let area2 = e0.cross(e1);
    area2 <= 0
}

/// Reversing two vertices flips the sign of twice the area, so of any
/// triangle and its vertex-reversed counterpart that is not degenerate,
/// exactly one is a backface.
pub proof fn lemma_backface_exactly_one(ax: int, ay: int, bx: int, by: int, cx: int, cy: int)
    ensures
        tri_area2(ax, ay, bx, by, cx, cy) == -tri_area2(ax, ay, cx, cy, bx, by),
        tri_area2(ax, ay, bx, by, cx, cy) != 0 ==> ((tri_area2(ax, ay, bx, by, cx, cy) <= 0)
            != (tri_area2(ax, ay, cx, cy, bx, by) <= 0)),
{
    assert((bx - ax) * (cy - ay) - (by - ay) * (cx - ax) == -((cx - ax) * (by - ay) - (cy - ay) * (
    bx - ax))) by (nonlinear_arith);
}

/// The per-triangle barycentric engine: the triangle's base vertex, its two
/// edge vectors, and twice its area with the winding sign factored out, so
/// that the weight of each corner at a point `p` is an exact rational
/// `num / den` with `den >= 0`.
#[derive(Clone, Copy, Debug)]
pub struct Barycentric {
    /// The triangle's first vertex.
    pub base: Vec2i,
    /// Second vertex minus first.
    pub v0: Vec2i,
    /// Third vertex minus first.
    pub v1: Vec2i,
    /// Twice the triangle's unsigned area: the shared weight denominator.
    /// Zero exactly for degenerate triangles, which contain no pixel.
    pub den: i64,
    /// The winding sign folded into every numerator so that `den >= 0`.
    pub sign: i64,
}

impl Barycentric {
    /// Internal consistency: the denominator is the sign-adjusted cross
    /// product of the edge vectors, and everything is small enough that no
    /// weight evaluation in range can overflow.
    pub open spec fn wf(self) -> bool {
        &&& self.base.bounded(COORD_LIMIT as int)
        &&& self.v0.bounded(2 * COORD_LIMIT as int)
        &&& self.v1.bounded(2 * COORD_LIMIT as int)
        &&& (self.sign == 1 || self.sign == -1)
        &&& self.den == self.sign * cross2(
            self.v0.x as int,
            self.v0.y as int,
            self.v1.x as int,
            self.v1.y as int,
        )
        &&& 0 <= self.den <= DEN_LIMIT
    }

    /// The engine that `Barycentric::new` builds for a screen triangle.
    pub open spec fn for_tri(t: Triangle<Vec2i>) -> Barycentric {
        let c = cross2(t.y.x - t.x.x, t.y.y - t.x.y, t.z.x - t.x.x, t.z.y - t.x.y);
        Barycentric {
            base: t.x,
            v0: Vec2i { x: (t.y.x - t.x.x) as i64, y: (t.y.y - t.x.y) as i64 },
            v1: Vec2i { x: (t.z.x - t.x.x) as i64, y: (t.z.y - t.x.y) as i64 },
            den: (if c >= 0 { c } else { -c }) as i64,
            sign: if c >= 0 { 1i64 } else { -1i64 },
        }
    }

    /// The engine belongs to triangle `t`.
    pub open spec fn is_for(self, t: Triangle<Vec2i>) -> bool {
        &&& self.wf()
        &&& self.base == t.x
        &&& self.v0.x == t.y.x - t.x.x && self.v0.y == t.y.y - t.x.y
        &&& self.v1.x == t.z.x - t.x.x && self.v1.y == t.z.y - t.x.y
    }

    /// Numerator of the second corner's weight at `(px, py)`.
    pub open spec fn u_num(self, px: int, py: int) -> int {
        self.sign * cross2(px - self.base.x, py - self.base.y, self.v1.x as int, self.v1.y as int)
    }

    /// Numerator of the third corner's weight at `(px, py)`.
    pub open spec fn v_num(self, px: int, py: int) -> int {
        self.sign * cross2(self.v0.x as int, self.v0.y as int, px - self.base.x, py - self.base.y)
    }

    /// Numerator of the first corner's weight at `(px, py)`: the three
    /// numerators sum to the denominator by construction.
    pub open spec fn w0_num(self, px: int, py: int) -> int {
        self.den - self.u_num(px, py) - self.v_num(px, py)
    }

    /// A point is inside the triangle when all three weights are
    /// nonnegative. Degenerate triangles (`den == 0`) contain nothing.
    pub open spec fn inside(self, px: int, py: int) -> bool {
        &&& self.den > 0
        &&& self.u_num(px, py) >= 0
        &&& self.v_num(px, py) >= 0
        &&& self.u_num(px, py) + self.v_num(px, py) <= self.den
    }

    /// Affine coefficients of `u_num` as a function of the point.
    pub open spec fn u_gx(self) -> int {
        self.sign * self.v1.y
    }

    pub open spec fn u_gy(self) -> int {
        -(self.sign * self.v1.x)
    }

    pub open spec fn u_k(self) -> int {
        self.sign * (self.base.y * self.v1.x) - self.sign * (self.base.x * self.v1.y)
    }

    /// Affine coefficients of `v_num` as a function of the point.
    pub open spec fn v_gx(self) -> int {
        -(self.sign * self.v0.y)
    }

    pub open spec fn v_gy(self) -> int {
        self.sign * self.v0.x
    }

    pub open spec fn v_k(self) -> int {
        self.sign * (self.v0.y * self.base.x) - self.sign * (self.v0.x * self.base.y)
    }

    /// Affine coefficients of `w0_num` as a function of the point.
    pub open spec fn w_gx(self) -> int {
        -self.u_gx() - self.v_gx()
    }

    pub open spec fn w_gy(self) -> int {
        -self.u_gy() - self.v_gy()
    }

    pub open spec fn w_k(self) -> int {
        self.den - self.u_k() - self.v_k()
    }
}

/// Ring identity behind `lemma_bary_affine`: an edge function expanded into
/// affine coefficients of the evaluated point.
proof fn lemma_edge_expand(wx: int, wy: int, ax: int, ay: int, px: int, py: int)
    by (nonlinear_arith)
    ensures
        (px - ax) * wy - (py - ay) * wx == (ay * wx - ax * wy) + wy * px + (-wx) * py,
        (py - ay) * wx - (px - ax) * wy == (ax * wy - ay * wx) + (-wy) * px + wx * py,
{
}

/// Ring identity: subtracting two affine functions from a constant is again
/// affine with the negated summed coefficients.
proof fn lemma_affine_sub(
    d: int,
    k1: int,
    g1x: int,
    g1y: int,
    k2: int,
    g2x: int,
    g2y: int,
    px: int,
    py: int,
)
    by (nonlinear_arith)
    ensures
        d - (k1 + g1x * px + g1y * py) - (k2 + g2x * px + g2y * py) == (d - k1 - k2) + (-g1x - g2x)
            * px + (-g1y - g2y) * py,
{
}

/// Ring identity behind `lemma_reconstruct`: the two edge functions
/// recombine the offset of the evaluated point from the base vertex.
#[verifier::rlimit(100)]
proof fn lemma_reconstruct_raw_x(v0x: int, v0y: int, wx: int, wy: int, dx: int, dy: int)
    by (nonlinear_arith)
    ensures
        (dx * wy - dy * wx) * v0x + (v0x * dy - v0y * dx) * wx == dx * (v0x * wy - v0y * wx),
{
}

#[verifier::rlimit(100)]
proof fn lemma_reconstruct_raw_y(v0x: int, v0y: int, wx: int, wy: int, dx: int, dy: int)
    by (nonlinear_arith)
    ensures
        (dx * wy - dy * wx) * v0y + (v0x * dy - v0y * dx) * wy == dy * (v0x * wy - v0y * wx),
{
}

proof fn lemma_reconstruct_raw(v0x: int, v0y: int, wx: int, wy: int, dx: int, dy: int)
    ensures
        (dx * wy - dy * wx) * v0x + (v0x * dy - v0y * dx) * wx == dx * (v0x * wy - v0y * wx),
        (dx * wy - dy * wx) * v0y + (v0x * dy - v0y * dx) * wy == dy * (v0x * wy - v0y * wx),
{
    lemma_reconstruct_raw_x(v0x, v0y, wx, wy, dx, dy);
    lemma_reconstruct_raw_y(v0x, v0y, wx, wy, dx, dy);
}

/// Pulling a negation out of a product.
proof fn lemma_neg_mul(a: int, b: int)
    by (nonlinear_arith)
    ensures
        (-a) * b == -(a * b),
        a * (-b) == -(a * b),
{
}

/// One axis of the convex-hull bound: a nonnegative affine combination of
/// three coordinates stays between their extremes.
proof fn lemma_hull_bound_1d(
    w0: int,
    u: int,
    v: int,
    den: int,
    a: int,
    b: int,
    c: int,
    p: int,
    m: int,
)
    by (nonlinear_arith)
    requires
        den == w0 + u + v,
        den * (p - a) == u * (b - a) + v * (c - a),
        w0 >= 0,
        u >= 0,
        v >= 0,
        den > 0,
    ensures
        a <= m && b <= m && c <= m ==> p <= m,
        m <= a && m <= b && m <= c ==> m <= p,
{
}

/// Negating an affine form negates its coefficients.
proof fn lemma_affine_neg(k: int, gx: int, gy: int, px: int, py: int)
    by (nonlinear_arith)
    ensures
        -(k + gx * px + gy * py) == (-k) + (-gx) * px + (-gy) * py,
{
}

/// Each weight numerator is an affine function of the evaluated point, with
/// the coefficients recorded on the engine.
pub proof fn lemma_bary_affine(b: Barycentric, px: int, py: int)
    requires
        b.sign == 1 || b.sign == -1,
    ensures
        b.u_num(px, py) == affine_at(b.u_k(), b.u_gx(), b.u_gy(), px, py),
        b.v_num(px, py) == affine_at(b.v_k(), b.v_gx(), b.v_gy(), px, py),
        b.w0_num(px, py) == affine_at(b.w_k(), b.w_gx(), b.w_gy(), px, py),
{
    let ax = b.base.x as int;
    let ay = b.base.y as int;
    lemma_edge_expand(b.v1.x as int, b.v1.y as int, ax, ay, px, py);
    lemma_edge_expand(b.v0.x as int, b.v0.y as int, ax, ay, px, py);
    if b.sign == 1 {
        assert(b.u_num(px, py) == affine_at(b.u_k(), b.u_gx(), b.u_gy(), px, py));
        assert(b.v_num(px, py) == affine_at(b.v_k(), b.v_gx(), b.v_gy(), px, py));
    } else {
        lemma_affine_neg(
            ay * b.v1.x - ax * b.v1.y,
            b.v1.y as int,
            -(b.v1.x as int),
            px,
            py,
        );
        lemma_affine_neg(
            ax * b.v0.y - ay * b.v0.x,
            -(b.v0.y as int),
            b.v0.x as int,
            px,
            py,
        );
        assert(b.u_num(px, py) == affine_at(b.u_k(), b.u_gx(), b.u_gy(), px, py));
        assert(b.v_num(px, py) == affine_at(b.v_k(), b.v_gx(), b.v_gy(), px, py));
    }
    lemma_affine_sub(
        b.den as int,
        b.u_k(),
        b.u_gx(),
        b.u_gy(),
        b.v_k(),
        b.v_gx(),
        b.v_gy(),
        px,
        py,
    );
}

/// The three weight numerators at any point sum to the shared denominator:
/// the weights themselves sum to one.
pub proof fn lemma_weight_sum(b: Barycentric, px: int, py: int)
    ensures
        b.w0_num(px, py) + b.u_num(px, py) + b.v_num(px, py) == b.den,
{
}

/// At the triangle's own corners the weights are exactly one for that corner
/// and zero for the other two.
pub proof fn lemma_weights_at_corners(b: Barycentric, t: Triangle<Vec2i>)
    requires
        b.is_for(t),
    ensures
        b.u_num(t.x.x as int, t.x.y as int) == 0,
        b.v_num(t.x.x as int, t.x.y as int) == 0,
        b.w0_num(t.x.x as int, t.x.y as int) == b.den,
        b.u_num(t.y.x as int, t.y.y as int) == b.den,
        b.v_num(t.y.x as int, t.y.y as int) == 0,
        b.w0_num(t.y.x as int, t.y.y as int) == 0,
        b.u_num(t.z.x as int, t.z.y as int) == 0,
        b.v_num(t.z.x as int, t.z.y as int) == b.den,
        b.w0_num(t.z.x as int, t.z.y as int) == 0,
{
    let s = b.sign as int;
    assert(s * cross2(0, 0, b.v1.x as int, b.v1.y as int) == 0) by (nonlinear_arith);
    assert(s * cross2(b.v0.x as int, b.v0.y as int, 0, 0) == 0) by (nonlinear_arith);
    assert(s * cross2(b.v0.x as int, b.v0.y as int, b.v0.x as int, b.v0.y as int) == 0)
        by (nonlinear_arith);
    assert(s * cross2(b.v1.x as int, b.v1.y as int, b.v1.x as int, b.v1.y as int) == 0)
        by (nonlinear_arith);
    assert(s * cross2(b.v1.x as int, b.v1.y as int, b.v0.x as int, b.v0.y as int) == -(s * cross2(
        b.v0.x as int,
        b.v0.y as int,
        b.v1.x as int,
        b.v1.y as int,
    ))) by (nonlinear_arith);
}

/// Scalar weights at a point: exact rational weight numerators over the
/// engine's shared denominator.
#[derive(Clone, Copy, Debug, PartialEq, Eq, Structural)]
pub struct BarycentricCoordinate {
    pub u_num: i64,
    pub v_num: i64,
    pub den: i64,
}

impl BarycentricCoordinate {
    /// Magnitudes small enough for the inside test's sum.
    pub open spec fn wf(self) -> bool {
        &&& -NUM_LIMIT <= self.u_num <= NUM_LIMIT
        &&& -NUM_LIMIT <= self.v_num <= NUM_LIMIT
        &&& 0 <= self.den <= DEN_LIMIT
    }

    /// Check whether the point the weights were taken at is inside the
    /// triangle: all three weights nonnegative, nothing for a degenerate
    /// triangle.
    pub fn inside(&self) -> (r: bool)
        requires
            self.wf(),
        ensures
            r == (self.den > 0 && self.u_num >= 0 && self.v_num >= 0 && self.u_num + self.v_num
                <= self.den),
    {
        self.den > 0 && self.u_num >= 0 && self.v_num >= 0 && self.u_num + self.v_num <= self.den
    }

    /// The full weight triple over the shared denominator; well-formed for
    /// interpolation whenever the point is inside.
    pub fn weights(&self) -> (r: crate::interpolate::Weights)
        requires
            self.wf(),
        ensures
            r.w0 == self.den - self.u_num - self.v_num,
            r.w1 == self.u_num,
            r.w2 == self.v_num,
            r.den == self.den,
    {
        crate::interpolate::Weights {
            w0: self.den - self.u_num - self.v_num,
            w1: self.u_num,
            w2: self.v_num,
            den: self.den,
        }
    }
}

impl Barycentric {
    /// Build the engine for a screen triangle: edge vectors once, and twice
    /// the area with its sign split off, so every later weight query is two
    /// cross products.
    pub fn new(t: &Triangle<Vec2i>) -> (r: Barycentric)
        requires
            t.x.bounded(COORD_LIMIT as int),
            t.y.bounded(COORD_LIMIT as int),
            t.z.bounded(COORD_LIMIT as int),
        ensures
            r.is_for(*t),
            r == Barycentric::for_tri(*t),
            r.den == 0 <==> tri_area2(
                t.x.x as int,
                t.x.y as int,
                t.y.x as int,
                t.y.y as int,
                t.z.x as int,
                t.z.y as int,
            ) == 0,
            r.den > 0 <==> tri_area2(
                t.x.x as int,
                t.x.y as int,
                t.y.x as int,
                t.y.y as int,
                t.z.x as int,
                t.z.y as int,
            ) != 0,
    {
        let v0 = t.y.sub(t.x);
        let v1 = t.z.sub(t.x);
        let c = v0.cross(v1);
        proof {
            lemma_mul_bound(v0.x as int, v1.y as int, 2 * COORD_LIMIT as int);
            lemma_mul_bound(v0.y as int, v1.x as int, 2 * COORD_LIMIT as int);
        }
        if c >= 0 {
            Barycentric { base: t.x, v0, v1, den: c, sign: 1 }
        } else {
            Barycentric { base: t.x, v0, v1, den: -c, sign: -1 }
        }
    }

    /// Scalar weight query at one point.
    pub fn coordinate(&self, p: Vec2i) -> (r: BarycentricCoordinate)
        requires
            self.wf(),
            p.bounded(EVAL_LIMIT as int),
        ensures
            r.u_num == self.u_num(p.x as int, p.y as int),
            r.v_num == self.v_num(p.x as int, p.y as int),
            r.den == self.den,
            r.wf(),
    {
        let v2 = p.sub(self.base);
        let cu = v2.cross(self.v1);
        let cv = self.v0.cross(v2);
        proof {
            lemma_mul_bound(v2.x as int, self.v1.y as int, 3 * COORD_LIMIT as int);
            lemma_mul_bound(v2.y as int, self.v1.x as int, 3 * COORD_LIMIT as int);
            lemma_mul_bound(self.v0.x as int, v2.y as int, 3 * COORD_LIMIT as int);
            lemma_mul_bound(self.v0.y as int, v2.x as int, 3 * COORD_LIMIT as int);
        }
        let u_num = if self.sign >= 0 {
            cu
        } else {
            -cu
        };
        let v_num = if self.sign >= 0 {
            cv
        } else {
            -cv
        };
        proof {
            if self.sign == 1 {
                assert(u_num == 1 * cu && v_num == 1 * cv);
            } else {
                assert(u_num == (-1) * cu && v_num == (-1) * cv);
            }
        }
        BarycentricCoordinate { u_num, v_num, den: self.den }
    }
}

/// Shifting the evaluation point of an affine function adds the coefficients
/// scaled by the offsets.
proof fn lemma_affine_shift(k: int, gx: int, gy: int, x: int, y: int, dx: int, dy: int)
    by (nonlinear_arith)
    ensures
        affine_at(k, gx, gy, x + dx, y + dy) == affine_at(k, gx, gy, x, y) + dx * gx + dy * gy,
{
}

impl Barycentric {
    /// Weight numerators at points of the evaluation range stay under
    /// `NUM_LIMIT`.
    pub proof fn lemma_num_bounds(self, px: int, py: int)
        requires
            self.wf(),
            -EVAL_LIMIT <= px <= EVAL_LIMIT,
            -EVAL_LIMIT <= py <= EVAL_LIMIT,
        ensures
            -NUM_LIMIT <= self.u_num(px, py) <= NUM_LIMIT,
            -NUM_LIMIT <= self.v_num(px, py) <= NUM_LIMIT,
    {
        lemma_mul_bound(px - self.base.x, self.v1.y as int, 0x2_0000);
        lemma_mul_bound(py - self.base.y, self.v1.x as int, 0x2_0000);
        lemma_mul_bound(self.v0.x as int, py - self.base.y, 0x2_0000);
        lemma_mul_bound(self.v0.y as int, px - self.base.x, 0x2_0000);
        let cu = cross2(px - self.base.x, py - self.base.y, self.v1.x as int, self.v1.y as int);
        let cv = cross2(self.v0.x as int, self.v0.y as int, px - self.base.x, py - self.base.y);
        assert(NUM_LIMIT == 0x10_0000_0000);
        assert(0x2_0000 * 0x2_0000 == 0x4_0000_0000) by (nonlinear_arith);
        assert(-0x8_0000_0000 <= cu <= 0x8_0000_0000);
        assert(-0x8_0000_0000 <= cv <= 0x8_0000_0000);
        if self.sign == 1 {
            assert(self.u_num(px, py) == 1 * cu && self.v_num(px, py) == 1 * cv);
            assert(self.u_num(px, py) == cu && self.v_num(px, py) == cv);
        } else {
            assert(self.u_num(px, py) == (-1) * cu && self.v_num(px, py) == (-1) * cv);
            assert(self.u_num(px, py) == -cu && self.v_num(px, py) == -cv);
        }
        assert(-NUM_LIMIT <= self.u_num(px, py) <= NUM_LIMIT);
        assert(-NUM_LIMIT <= self.v_num(px, py) <= NUM_LIMIT);
    }

    /// Exec values of the affine coefficients of the two free weights.
    fn gradients(&self) -> (r: (i64, i64, i64, i64))
        requires
            self.wf(),
        ensures
            r.0 == self.u_gx(),
            r.1 == self.u_gy(),
            r.2 == self.v_gx(),
            r.3 == self.v_gy(),
            -0x2_0000 <= r.0 <= 0x2_0000,
            -0x2_0000 <= r.1 <= 0x2_0000,
            -0x2_0000 <= r.2 <= 0x2_0000,
            -0x2_0000 <= r.3 <= 0x2_0000,
    {
        if self.sign >= 0 {
            proof {
                assert(self.sign == 1);
                assert(self.u_gx() == 1 * self.v1.y && self.u_gy() == -(1 * self.v1.x)
                    && self.v_gx() == -(1 * self.v0.y) && self.v_gy() == 1 * self.v0.x);
            }
            (self.v1.y, -self.v1.x, -self.v0.y, self.v0.x)
        } else {
            proof {
                assert(self.sign == -1);
                assert(self.u_gx() == (-1) * self.v1.y && self.u_gy() == -((-1) * self.v1.x)
                    && self.v_gx() == -((-1) * self.v0.y) && self.v_gy() == (-1) * self.v0.x);
            }
            (-self.v1.y, self.v1.x, self.v0.y, -self.v0.x)
        }
    }

    /// Batched weight query: the numerators of the two free weights at every
    /// pixel of the 8x8 block whose top-left pixel is `(x, y)`, one lane per
    /// pixel, computed as one broadcast plus two scaled range vectors.
    pub fn coordinate_block(&self, x: i64, y: i64) -> (r: (Block64, Block64))
        requires
            self.wf(),
            -EVAL_LIMIT <= x,
            x + 7 <= EVAL_LIMIT,
            -EVAL_LIMIT <= y,
            y + 7 <= EVAL_LIMIT,
        ensures
            r.0.wf(),
            r.1.wf(),
            forall|i: int| 0 <= i < 64 ==> #[trigger] r.0.view()[i] == self.u_num(x + i % 8, y + i / 8),
            forall|i: int| 0 <= i < 64 ==> #[trigger] r.1.view()[i] == self.v_num(x + i % 8, y + i / 8),
            r.0.bounded(NUM_LIMIT as int),
            r.1.bounded(NUM_LIMIT as int),
    {
        let c0 = self.coordinate(Vec2i::new(x, y));
        let (ugx, ugy, vgx, vgy) = self.gradients();
        let rx = Block64::range_x();
        let ry = Block64::range_y();
        proof {
            assert(rx.bounded(8));
            assert(ry.bounded(8));
        }
        let txu = rx.times(&Block64::broadcast(ugx));
        let tyu = ry.times(&Block64::broadcast(ugy));
        let txv = rx.times(&Block64::broadcast(vgx));
        let tyv = ry.times(&Block64::broadcast(vgy));
        proof {
            assert forall|i: int| 0 <= i < 64 implies -0x4_0000_0000 <= #[trigger] txu.view()[i]
                <= 0x4_0000_0000 by {
                assert(0x2_0000 * 0x2_0000 == 0x4_0000_0000) by (nonlinear_arith);
                lemma_mul_bound(rx.view()[i], ugx as int, 0x2_0000);
            }
            assert forall|i: int| 0 <= i < 64 implies -0x4_0000_0000 <= #[trigger] tyu.view()[i]
                <= 0x4_0000_0000 by {
                assert(0x2_0000 * 0x2_0000 == 0x4_0000_0000) by (nonlinear_arith);
                lemma_mul_bound(ry.view()[i], ugy as int, 0x2_0000);
            }
            assert forall|i: int| 0 <= i < 64 implies -0x4_0000_0000 <= #[trigger] txv.view()[i]
                <= 0x4_0000_0000 by {
                assert(0x2_0000 * 0x2_0000 == 0x4_0000_0000) by (nonlinear_arith);
                lemma_mul_bound(rx.view()[i], vgx as int, 0x2_0000);
            }
            assert forall|i: int| 0 <= i < 64 implies -0x4_0000_0000 <= #[trigger] tyv.view()[i]
                <= 0x4_0000_0000 by {
                assert(0x2_0000 * 0x2_0000 == 0x4_0000_0000) by (nonlinear_arith);
                lemma_mul_bound(ry.view()[i], vgy as int, 0x2_0000);
            }
        }
        let bu = Block64::broadcast(c0.u_num);
        let bv = Block64::broadcast(c0.v_num);
        proof {
            assert(bu.bounded(NUM_LIMIT as int));
            assert(bv.bounded(NUM_LIMIT as int));
            assert(txu.bounded(0x4_0000_0000));
            assert(txv.bounded(0x4_0000_0000));
        }
        let su = bu.plus(&txu);
        let sv = bv.plus(&txv);
        proof {
            assert forall|i: int| 0 <= i < 64 implies -(NUM_LIMIT + 0x4_0000_0000)
                <= #[trigger] su.view()[i] <= NUM_LIMIT + 0x4_0000_0000 by {}
            assert forall|i: int| 0 <= i < 64 implies -(NUM_LIMIT + 0x4_0000_0000)
                <= #[trigger] sv.view()[i] <= NUM_LIMIT + 0x4_0000_0000 by {}
        }
        let ub = su.plus(&tyu);
        let vb = sv.plus(&tyv);
        proof {
            assert forall|i: int| 0 <= i < 64 implies #[trigger] ub.view()[i] == self.u_num(
                x + i % 8,
                y + i / 8,
            ) by {
                lemma_bary_affine(*self, x as int, y as int);
                lemma_bary_affine(*self, x + i % 8, y + i / 8);
                lemma_affine_shift(
                    self.u_k(),
                    self.u_gx(),
                    self.u_gy(),
                    x as int,
                    y as int,
                    i % 8,
                    i / 8,
                );
            }
            assert forall|i: int| 0 <= i < 64 implies #[trigger] vb.view()[i] == self.v_num(
                x + i % 8,
                y + i / 8,
            ) by {
                lemma_bary_affine(*self, x as int, y as int);
                lemma_bary_affine(*self, x + i % 8, y + i / 8);
                lemma_affine_shift(
                    self.v_k(),
                    self.v_gx(),
                    self.v_gy(),
                    x as int,
                    y as int,
                    i % 8,
                    i / 8,
                );
            }
            assert forall|i: int| 0 <= i < 64 implies -NUM_LIMIT <= #[trigger] ub.view()[i]
                <= NUM_LIMIT by {
                self.lemma_num_bounds(x + i % 8, y + i / 8);
            }
            assert forall|i: int| 0 <= i < 64 implies -NUM_LIMIT <= #[trigger] vb.view()[i]
                <= NUM_LIMIT by {
                self.lemma_num_bounds(x + i % 8, y + i / 8);
            }
        }
        (ub, vb)
    }

    /// Numerator of the interpolated depth at a pixel: the weight
    /// numerators applied to the triangle's three corner depths.
    pub open spec fn depth_num(self, z: Vec3i, px: int, py: int) -> int {
        self.w0_num(px, py) * z.x + self.u_num(px, py) * z.y + self.v_num(px, py) * z.z
    }

    /// The quantized interpolated depth at a pixel: the exact rational
    /// depth rounded toward negative infinity. This is the value the depth
    /// buffer stores and compares.
    pub open spec fn depth_q(self, z: Vec3i, px: int, py: int) -> int {
        self.depth_num(z, px, py) / (self.den as int)
    }

    /// A fragment of this triangle lands at the pixel exactly when the
    /// pixel is inside and its depth lies in the acceptance window: not
    /// behind the near plane, and strictly nearer than what is stored.
    pub open spec fn accepts(self, z: Vec3i, stored: int, px: int, py: int) -> bool {
        &&& self.inside(px, py)
        &&& 0 <= self.depth_q(z, px, py) < stored
    }

    /// The weight triple of a pixel, packaged for interpolation.
    pub open spec fn weights_at(self, px: int, py: int) -> crate::interpolate::Weights {
        crate::interpolate::Weights {
            w0: self.w0_num(px, py) as i64,
            w1: self.u_num(px, py) as i64,
            w2: self.v_num(px, py) as i64,
            den: self.den,
        }
    }

    /// No point of the box `[x0, x0 + s] x [y0, y0 + s]` is inside the
    /// triangle: what a conservative rejection certifies.
    pub open spec fn box_empty(self, x0: int, y0: int, s: int) -> bool {
        forall|px: int, py: int|
            x0 <= px <= x0 + s && y0 <= py <= y0 + s ==> !#[trigger] self.inside(px, py)
    }

    /// The named weight numerator is negative at all four corners of the box
    /// `[x0, x0 + s] x [y0, y0 + s]`.
    pub open spec fn all_neg_u(self, x0: int, y0: int, s: int) -> bool {
        &&& self.u_num(x0, y0) < 0
        &&& self.u_num(x0 + s, y0) < 0
        &&& self.u_num(x0, y0 + s) < 0
        &&& self.u_num(x0 + s, y0 + s) < 0
    }

    pub open spec fn all_neg_v(self, x0: int, y0: int, s: int) -> bool {
        &&& self.v_num(x0, y0) < 0
        &&& self.v_num(x0 + s, y0) < 0
        &&& self.v_num(x0, y0 + s) < 0
        &&& self.v_num(x0 + s, y0 + s) < 0
    }

    pub open spec fn all_neg_w0(self, x0: int, y0: int, s: int) -> bool {
        &&& self.w0_num(x0, y0) < 0
        &&& self.w0_num(x0 + s, y0) < 0
        &&& self.w0_num(x0, y0 + s) < 0
        &&& self.w0_num(x0 + s, y0 + s) < 0
    }

    /// The box is provably outside the triangle: degenerate, or some weight
    /// negative at all four corners.
    pub open spec fn rejects(self, x0: int, y0: int, s: int) -> bool {
        ||| self.den == 0
        ||| self.all_neg_u(x0, y0, s)
        ||| self.all_neg_v(x0, y0, s)
        ||| self.all_neg_w0(x0, y0, s)
    }

    /// All three weight numerators are nonnegative at all four corners of
    /// the box, and the triangle is not degenerate: the box is provably
    /// fully inside.
    pub open spec fn covers(self, x0: int, y0: int, s: int) -> bool {
        &&& self.den > 0
        &&& self.u_num(x0, y0) >= 0 && self.v_num(x0, y0) >= 0 && self.w0_num(x0, y0) >= 0
        &&& self.u_num(x0 + s, y0) >= 0 && self.v_num(x0 + s, y0) >= 0 && self.w0_num(x0 + s, y0)
            >= 0
        &&& self.u_num(x0, y0 + s) >= 0 && self.v_num(x0, y0 + s) >= 0 && self.w0_num(x0, y0 + s)
            >= 0
        &&& self.u_num(x0 + s, y0 + s) >= 0 && self.v_num(x0 + s, y0 + s) >= 0 && self.w0_num(
            x0 + s,
            y0 + s,
        ) >= 0
    }

    /// A point of the evaluation range the box tests may be asked about.
    pub open spec fn box_in_range(self, p: Vec2i, s: i64) -> bool {
        &&& self.wf()
        &&& 0 <= s
        &&& -EVAL_LIMIT <= p.x && p.x + s <= EVAL_LIMIT
        &&& -EVAL_LIMIT <= p.y && p.y + s <= EVAL_LIMIT
    }

    /// Weights at the four corners of the box with origin `p` and side `s`.
    fn corner_coordinates(&self, p: Vec2i, s: i64) -> (r: [BarycentricCoordinate; 4])
        requires
            self.box_in_range(p, s),
        ensures
            r[0].u_num == self.u_num(p.x as int, p.y as int),
            r[0].v_num == self.v_num(p.x as int, p.y as int),
            r[1].u_num == self.u_num(p.x + s, p.y as int),
            r[1].v_num == self.v_num(p.x + s, p.y as int),
            r[2].u_num == self.u_num(p.x as int, p.y + s),
            r[2].v_num == self.v_num(p.x as int, p.y + s),
            r[3].u_num == self.u_num(p.x + s, p.y + s),
            r[3].v_num == self.v_num(p.x + s, p.y + s),
            r[0].wf() && r[0].den == self.den,
            r[1].wf() && r[1].den == self.den,
            r[2].wf() && r[2].den == self.den,
            r[3].wf() && r[3].den == self.den,
    {
        let c00 = self.coordinate(p);
        let c10 = self.coordinate(Vec2i::new(p.x + s, p.y));
        let c01 = self.coordinate(Vec2i::new(p.x, p.y + s));
        let c11 = self.coordinate(Vec2i::new(p.x + s, p.y + s));
        [c00, c10, c01, c11]
    }

    /// The fast conservative test used before descending into a tile: `true`
    /// only if no pixel of the box `[p.x, p.x + s] x [p.y, p.y + s]` is
    /// inside the triangle, so a `true` box can be skipped without losing a
    /// fragment.
    pub fn tile_fast_check(&self, p: Vec2i, s: i64) -> (r: bool)
        requires
            self.box_in_range(p, s),
        ensures
            r == self.rejects(p.x as int, p.y as int, s as int),
            r ==> forall|px: int, py: int|
                p.x <= px <= p.x + s && p.y <= py <= p.y + s ==> !self.inside(px, py),
    {
        if self.den == 0 {
            return true;
        }
        let c = self.corner_coordinates(p, s);
        let neg_u = c[0].u_num < 0 && c[1].u_num < 0 && c[2].u_num < 0 && c[3].u_num < 0;
        let neg_v = c[0].v_num < 0 && c[1].v_num < 0 && c[2].v_num < 0 && c[3].v_num < 0;
        let w = [
            c[0].den - c[0].u_num - c[0].v_num,
            c[1].den - c[1].u_num - c[1].v_num,
            c[2].den - c[2].u_num - c[2].v_num,
            c[3].den - c[3].u_num - c[3].v_num,
        ];
        let neg_w = w[0] < 0 && w[1] < 0 && w[2] < 0 && w[3] < 0;
        let r = neg_u || neg_v || neg_w;
        proof {
            if r {
                self.lemma_rejects_sound(p.x as int, p.y as int, s as int);
            }
        }
        r
    }

    /// The conservative coverage test: `true` only if every pixel of the box
    /// is inside the triangle, so finer occupancy testing may be skipped.
    pub fn tile_covered(&self, p: Vec2i, s: i64) -> (r: bool)
        requires
            self.box_in_range(p, s),
        ensures
            r == self.covers(p.x as int, p.y as int, s as int),
            r ==> forall|px: int, py: int|
                p.x <= px <= p.x + s && p.y <= py <= p.y + s ==> self.inside(px, py),
    {
        if self.den == 0 {
            return false;
        }
        let c = self.corner_coordinates(p, s);
        let r = c[0].u_num >= 0 && c[0].v_num >= 0 && c[0].den - c[0].u_num - c[0].v_num >= 0
            && c[1].u_num >= 0 && c[1].v_num >= 0 && c[1].den - c[1].u_num - c[1].v_num >= 0
            && c[2].u_num >= 0 && c[2].v_num >= 0 && c[2].den - c[2].u_num - c[2].v_num >= 0
            && c[3].u_num >= 0 && c[3].v_num >= 0 && c[3].den - c[3].u_num - c[3].v_num >= 0;
        proof {
            if r {
                self.lemma_covers_sound(p.x as int, p.y as int, s as int);
            }
        }
        r
    }

    /// Soundness of the corner rejection test: a weight numerator negative
    /// at all four corners is negative everywhere in the box, so no point of
    /// the box is inside.
    pub proof fn lemma_rejects_sound(self, x0: int, y0: int, s: int)
        requires
            self.wf(),
            0 <= s,
            self.rejects(x0, y0, s),
        ensures
            forall|px: int, py: int|
                x0 <= px <= x0 + s && y0 <= py <= y0 + s ==> !self.inside(px, py),
    {
        assert forall|px: int, py: int|
            x0 <= px <= x0 + s && y0 <= py <= y0 + s implies !self.inside(px, py) by {
            if self.den != 0 {
                lemma_bary_affine(self, x0, y0);
                lemma_bary_affine(self, x0 + s, y0);
                lemma_bary_affine(self, x0, y0 + s);
                lemma_bary_affine(self, x0 + s, y0 + s);
                lemma_bary_affine(self, px, py);
                if self.all_neg_u(x0, y0, s) {
                    lemma_affine_box(
                        self.u_k(),
                        self.u_gx(),
                        self.u_gy(),
                        x0,
                        y0,
                        x0 + s,
                        y0 + s,
                        px,
                        py,
                    );
                } else if self.all_neg_v(x0, y0, s) {
                    lemma_affine_box(
                        self.v_k(),
                        self.v_gx(),
                        self.v_gy(),
                        x0,
                        y0,
                        x0 + s,
                        y0 + s,
                        px,
                        py,
                    );
                } else {
                    lemma_affine_box(
                        self.w_k(),
                        self.w_gx(),
                        self.w_gy(),
                        x0,
                        y0,
                        x0 + s,
                        y0 + s,
                        px,
                        py,
                    );
                }
            }
        }
    }

    /// The reconstruction identity: the weight numerators recombine the
    /// evaluated point from the triangle's corners, scaled by the
    /// denominator.
    pub proof fn lemma_reconstruct(self, px: int, py: int)
        requires
            self.wf(),
        ensures
            self.u_num(px, py) * self.v0.x + self.v_num(px, py) * self.v1.x == self.den * (px
                - self.base.x),
            self.u_num(px, py) * self.v0.y + self.v_num(px, py) * self.v1.y == self.den * (py
                - self.base.y),
    {
        let dx = px - self.base.x;
        let dy = py - self.base.y;
        let v0x = self.v0.x as int;
        let v0y = self.v0.y as int;
        let wx = self.v1.x as int;
        let wy = self.v1.y as int;
        lemma_reconstruct_raw(v0x, v0y, wx, wy, dx, dy);
        assert((v0x * wy - v0y * wx) * dx == dx * (v0x * wy - v0y * wx)) by (nonlinear_arith);
        assert((v0x * wy - v0y * wx) * dy == dy * (v0x * wy - v0y * wx)) by (nonlinear_arith);
        if self.sign == 1 {
            assert(self.u_num(px, py) == dx * wy - dy * wx);
            assert(self.v_num(px, py) == v0x * dy - v0y * dx);
            assert(self.den == v0x * wy - v0y * wx);
        } else {
            lemma_neg_mul(dx * wy - dy * wx, v0x);
            lemma_neg_mul(v0x * dy - v0y * dx, wx);
            lemma_neg_mul(dx * wy - dy * wx, v0y);
            lemma_neg_mul(v0x * dy - v0y * dx, wy);
            lemma_neg_mul(v0x * wy - v0y * wx, dx);
            lemma_neg_mul(v0x * wy - v0y * wx, dy);
            assert(self.u_num(px, py) == (-1) * cross2(dx, dy, wx, wy));
            assert(cross2(dx, dy, wx, wy) == dx * wy - dy * wx);
            assert((-1) * (dx * wy - dy * wx) == -(dx * wy - dy * wx));
            assert(self.v_num(px, py) == (-1) * cross2(v0x, v0y, dx, dy));
            assert(cross2(v0x, v0y, dx, dy) == v0x * dy - v0y * dx);
            assert((-1) * (v0x * dy - v0y * dx) == -(v0x * dy - v0y * dx));
            assert(self.u_num(px, py) == -(dx * wy - dy * wx));
            assert(self.v_num(px, py) == -(v0x * dy - v0y * dx));
            assert(self.den == (-1) * cross2(v0x, v0y, wx, wy));
            assert(cross2(v0x, v0y, wx, wy) == v0x * wy - v0y * wx);
            assert((-1) * (v0x * wy - v0y * wx) == -(v0x * wy - v0y * wx));
            assert(self.den == -(v0x * wy - v0y * wx));
            assert(self.den * (px - self.base.x) == -((v0x * wy - v0y * wx) * dx)) by {
                lemma_neg_mul(v0x * wy - v0y * wx, dx);
            }
        }
    }

    /// A point inside the triangle lies inside the triangle's vertex
    /// bounding box: the convex-hull fact that makes bounding-box binning
    /// complete.
    pub proof fn lemma_inside_in_box(self, t: Triangle<Vec2i>, px: int, py: int)
        requires
            self.is_for(t),
            self.inside(px, py),
        ensures
            crate::vmath::min3(t.x.x as int, t.y.x as int, t.z.x as int) <= px <= crate::vmath::max3(
                t.x.x as int,
                t.y.x as int,
                t.z.x as int,
            ),
            crate::vmath::min3(t.x.y as int, t.y.y as int, t.z.y as int) <= py <= crate::vmath::max3(
                t.x.y as int,
                t.y.y as int,
                t.z.y as int,
            ),
    {
        self.lemma_reconstruct(px, py);
        let u = self.u_num(px, py);
        let v = self.v_num(px, py);
        let w0 = self.w0_num(px, py);
        let ax = self.base.x as int;
        let ay = self.base.y as int;
        let bx = t.y.x as int;
        let by = t.y.y as int;
        let cx = t.z.x as int;
        let cy = t.z.y as int;
        lemma_hull_bound_1d(
            w0,
            u,
            v,
            self.den as int,
            ax,
            bx,
            cx,
            px,
            crate::vmath::max3(ax, bx, cx),
        );
        lemma_hull_bound_1d(
            w0,
            u,
            v,
            self.den as int,
            ax,
            bx,
            cx,
            px,
            crate::vmath::min3(ax, bx, cx),
        );
        lemma_hull_bound_1d(
            w0,
            u,
            v,
            self.den as int,
            ay,
            by,
            cy,
            py,
            crate::vmath::max3(ay, by, cy),
        );
        lemma_hull_bound_1d(
            w0,
            u,
            v,
            self.den as int,
            ay,
            by,
            cy,
            py,
            crate::vmath::min3(ay, by, cy),
        );
    }

    /// Soundness of the corner coverage test: all three weight numerators
    /// nonnegative at all four corners stay nonnegative everywhere in the
    /// box, so every point of the box is inside.
    pub proof fn lemma_covers_sound(self, x0: int, y0: int, s: int)
        requires
            self.wf(),
            0 <= s,
            self.covers(x0, y0, s),
        ensures
            forall|px: int, py: int|
                x0 <= px <= x0 + s && y0 <= py <= y0 + s ==> self.inside(px, py),
    {
        assert forall|px: int, py: int|
            x0 <= px <= x0 + s && y0 <= py <= y0 + s implies self.inside(px, py) by {
            lemma_bary_affine(self, x0, y0);
            lemma_bary_affine(self, x0 + s, y0);
            lemma_bary_affine(self, x0, y0 + s);
            lemma_bary_affine(self, x0 + s, y0 + s);
            lemma_bary_affine(self, px, py);
            lemma_affine_box(self.u_k(), self.u_gx(), self.u_gy(), x0, y0, x0 + s, y0 + s, px, py);
            lemma_affine_box(self.v_k(), self.v_gx(), self.v_gy(), x0, y0, x0 + s, y0 + s, px, py);
            lemma_affine_box(self.w_k(), self.w_gx(), self.w_gy(), x0, y0, x0 + s, y0 + s, px, py);
        }
    }
}

/// An RGBA color with 8-bit channels: what the frame stores per pixel.
#[derive(Clone, Copy, Debug, PartialEq, Eq, Structural)]
pub struct Color {
    pub r: u8,
    pub g: u8,
    pub b: u8,
    pub a: u8,
}

impl Color {
    pub fn new(r: u8, g: u8, b: u8, a: u8) -> (c: Color)
        ensures
            c.r == r && c.g == g && c.b == b && c.a == a,
    {
        Color { r, g, b, a }
    }
}

/// A vertex payload that carries a fixed-point clip-space position.
pub trait FetchPosition {
    spec fn position_spec(&self) -> Vec4i;

    fn position(&self) -> (p: Vec4i)
        ensures
            p == self.position_spec(),
    ;
}

impl FetchPosition for Vec4i {
    open spec fn position_spec(&self) -> Vec4i {
        *self
    }

    fn position(&self) -> (p: Vec4i) {
        *self
    }
}

impl<A> FetchPosition for (Vec4i, A) {
    open spec fn position_spec(&self) -> Vec4i {
        self.0
    }

    fn position(&self) -> (p: Vec4i) {
        self.0
    }
}

/// Clip-space inputs are saturated into this range before the perspective
/// divide, so no input can overflow the transform.
pub const POS_SAT: i64 = 0x4000_0000_0000_0000;

/// The screen position of one clip-space vertex: perspective divide by `w`,
/// viewport scale and offset by the half extents, y flipped, everything
/// saturated into the screen coordinate range. Vertices on the `w == 0`
/// plane have no screen position and their triangles are skipped.
pub open spec fn to_screen_spec(p: Vec4i, hw: int, hh: int) -> Option<(int, int, int)> {
    if p.w == 0 {
        None
    } else {
        let xs = clamp_spec(p.x as int, -(POS_SAT as int), POS_SAT as int);
        let ys = clamp_spec(p.y as int, -(POS_SAT as int), POS_SAT as int);
        let zs = clamp_spec(p.z as int, -(POS_SAT as int), POS_SAT as int);
        let ws = clamp_spec(p.w as int, -(POS_SAT as int), POS_SAT as int);
        let xn = if p.w < 0 {
            -xs
        } else {
            xs
        };
        let yn = if p.w < 0 {
            -ys
        } else {
            ys
        };
        let zn = if p.w < 0 {
            -zs
        } else {
            zs
        };
        let wn = if p.w < 0 {
            -ws
        } else {
            ws
        };
        let sx = clamp_spec(hw * xn / wn + hw, -(COORD_LIMIT as int), COORD_LIMIT as int);
        let sy = clamp_spec((-hh) * yn / wn + hh, -(COORD_LIMIT as int), COORD_LIMIT as int);
        let sz = clamp_spec(
            (crate::tile::DEPTH_FAR as int) * zn / wn,
            -(crate::tile::Z_LIMIT as int),
            crate::tile::Z_LIMIT as int,
        );
        Some((sx, sy, sz))
    }
}

fn sat_pos(v: i64) -> (r: i64)
    ensures
        r == clamp_spec(v as int, -(POS_SAT as int), POS_SAT as int),
        -POS_SAT <= r <= POS_SAT,
{
    if v < -POS_SAT {
        -POS_SAT
    } else if v > POS_SAT {
        POS_SAT
    } else {
        v
    }
}

/// Transform one clip-space position to screen space; `None` exactly for
/// positions on the `w == 0` plane.
pub fn to_screen(p: Vec4i, hw: i64, hh: i64) -> (r: Option<(i64, i64, i64)>)
    requires
        1 <= hw <= 8192,
        1 <= hh <= 8192,
    ensures
        r is Some <==> to_screen_spec(p, hw as int, hh as int) is Some,
        r matches Some(s) ==> to_screen_spec(p, hw as int, hh as int) == Some(
            (s.0 as int, s.1 as int, s.2 as int),
        ),
        r matches Some(s) ==> -COORD_LIMIT <= s.0 <= COORD_LIMIT && -COORD_LIMIT <= s.1
            <= COORD_LIMIT && -crate::tile::Z_LIMIT <= s.2 <= crate::tile::Z_LIMIT,
{
    if p.w == 0 {
        return None;
    }
    let xs = sat_pos(p.x);
    let ys = sat_pos(p.y);
    let zs = sat_pos(p.z);
    let ws = sat_pos(p.w);
    let (xn, yn, zn, wn) = if p.w < 0 {
        (-xs, -ys, -zs, -ws)
    } else {
        (xs, ys, zs, ws)
    };
    proof {
        assert(8192 * 0x4000_0000_0000_0000 == 0x800_0000_0000_0000_0000) by (nonlinear_arith);
        assert(0x10_0000 * 0x4000_0000_0000_0000 == 0x4_0000_0000_0000_0000_0000)
            by (nonlinear_arith);
        crate::vmath::lemma_mul_bound2(hw as int, xn as int, 8192, POS_SAT as int);
        crate::vmath::lemma_mul_bound2(-(hh as int), yn as int, 8192, POS_SAT as int);
        crate::vmath::lemma_mul_bound2(
            crate::tile::DEPTH_FAR as int,
            zn as int,
            0x10_0000,
            POS_SAT as int,
        );
    }
    let sxq = floor_div128((hw as i128) * (xn as i128), wn as i128);
    let sx = clamp128(sxq + (hw as i128), -COORD_LIMIT, COORD_LIMIT);
    let syq = floor_div128((-(hh as i128)) * (yn as i128), wn as i128);
    let sy = clamp128(syq + (hh as i128), -COORD_LIMIT, COORD_LIMIT);
    let szq = floor_div128((crate::tile::DEPTH_FAR as i128) * (zn as i128), wn as i128);
    let sz = clamp128(szq, -crate::tile::Z_LIMIT, crate::tile::Z_LIMIT);
    Some((sx, sy, sz))
}

/// The screen triangle and corner depths of one payload triangle, or `None`
/// when any vertex sits on the `w == 0` plane.
pub open spec fn screen_tri<T: FetchPosition>(tri: Triangle<T>, hw: int, hh: int) -> Option<
    (Triangle<Vec2i>, Vec3i),
> {
    match to_screen_spec(tri.x.position_spec(), hw, hh) {
        None => None,
        Some(a) => match to_screen_spec(tri.y.position_spec(), hw, hh) {
            None => None,
            Some(b) => match to_screen_spec(tri.z.position_spec(), hw, hh) {
                None => None,
                Some(c) => Some(
                    (
                        Triangle {
                            x: Vec2i { x: a.0 as i64, y: a.1 as i64 },
                            y: Vec2i { x: b.0 as i64, y: b.1 as i64 },
                            z: Vec2i { x: c.0 as i64, y: c.1 as i64 },
                        },
                        Vec3i { x: a.2 as i64, y: b.2 as i64, z: c.2 as i64 },
                    ),
                ),
            },
        },
    }
}

/// What one triangle of the stream does to the depth and color of one
/// pixel: nothing if it has no screen position or faces backward, and
/// otherwise the depth-tested shaded fragment of the accepted pixel.
pub open spec fn tri_step<T: Interpolate + FetchPosition, F: Fragment<T::Out, Color = Color>>(
    tri: Triangle<T>,
    f: F,
    hw: int,
    hh: int,
    px: int,
    py: int,
    s: (int, Color),
) -> (int, Color) {
    match screen_tri(tri, hw, hh) {
        None => s,
        Some(stz) => if tri_area2(
            stz.0.x.x as int,
            stz.0.x.y as int,
            stz.0.y.x as int,
            stz.0.y.y as int,
            stz.0.z.x as int,
            stz.0.z.y as int,
        ) <= 0 {
            s
        } else {
            let b = Barycentric::for_tri(stz.0);
            if b.accepts(stz.1, s.0, px, py) {
                (b.depth_q(stz.1, px, py), crate::tile::shade_at(b, tri, f, px, py))
            } else {
                s
            }
        },
    }
}

/// The final depth and color of one pixel after a stream of triangles, in
/// submission order.
pub open spec fn raster_pixel<T: Interpolate + FetchPosition, F: Fragment<T::Out, Color = Color>>(
    tris: Seq<Triangle<T>>,
    f: F,
    hw: int,
    hh: int,
    px: int,
    py: int,
    s: (int, Color),
) -> (int, Color)
    decreases tris.len(),
{
    if tris.len() == 0 {
        s
    } else {
        tri_step(tris.last(), f, hw, hh, px, py, raster_pixel(tris.drop_last(), f, hw, hh, px, py, s))
    }
}

/// One entry of a macro-tile's command queue: a triangle that survived
/// transform and cull, with its screen geometry, corner depths, and its
/// index in the submitted stream.
#[derive(Clone, Copy, Debug, PartialEq, Eq, Structural)]
pub struct ScreenTriangle {
    pub tri: Triangle<Vec2i>,
    pub z: Vec3i,
    pub index: usize,
}

/// Whether a screen triangle's clamped bounding box overlaps macro-tile
/// `g` of a `w x h` frame with `tw` tile columns.
pub open spec fn tri_overlaps(st: Triangle<Vec2i>, g: int, tw: int, w: int, h: int) -> bool {
    let minx = crate::vmath::min3(st.x.x as int, st.y.x as int, st.z.x as int);
    let maxx = crate::vmath::max3(st.x.x as int, st.y.x as int, st.z.x as int);
    let miny = crate::vmath::min3(st.x.y as int, st.y.y as int, st.z.y as int);
    let maxy = crate::vmath::max3(st.x.y as int, st.y.y as int, st.z.y as int);
    &&& maxx >= 0 && minx < w && maxy >= 0 && miny < h
    &&& clamp_spec(minx, 0, w - 1) / 64 <= g % tw <= clamp_spec(maxx, 0, w - 1) / 64
    &&& clamp_spec(miny, 0, h - 1) / 64 <= g / tw <= clamp_spec(maxy, 0, h - 1) / 64
}

/// The command queue of macro-tile `g` for a triangle stream: exactly the
/// front-facing, projectable triangles whose bounding box overlaps the
/// tile, in submission order.
pub open spec fn bin_filter<T: FetchPosition>(
    tris: Seq<Triangle<T>>,
    hw: int,
    hh: int,
    g: int,
    tw: int,
    w: int,
    h: int,
) -> Seq<ScreenTriangle>
    decreases tris.len(),
{
    if tris.len() == 0 {
        Seq::empty()
    } else {
        let rest = bin_filter(tris.drop_last(), hw, hh, g, tw, w, h);
        match screen_tri(tris.last(), hw, hh) {
            None => rest,
            Some(stz) => if tri_area2(
                stz.0.x.x as int,
                stz.0.x.y as int,
                stz.0.y.x as int,
                stz.0.y.y as int,
                stz.0.z.x as int,
                stz.0.z.y as int,
            ) > 0 && tri_overlaps(stz.0, g, tw, w, h) {
                rest.push(
                    ScreenTriangle { tri: stz.0, z: stz.1, index: (tris.len() - 1) as usize },
                )
            } else {
                rest
            },
        }
    }
}

/// A plain row-major pixel buffer: the readback target any external image
/// encoder can consume.
pub struct RowBuffer {
    pub width: u32,
    pub height: u32,
    pub data: Vec<Color>,
}

impl RowBuffer {
    pub open spec fn wf(self) -> bool {
        self.data.len() == (self.width as int) * (self.height as int)
    }

    pub fn new(width: u32, height: u32, fill: Color) -> (r: RowBuffer)
        requires
            width <= 16384,
            height <= 16384,
        ensures
            r.wf(),
            r.width == width,
            r.height == height,
            forall|i: int| 0 <= i < r.data.len() ==> #[trigger] r.data[i] == fill,
    {
        proof {
            assert(16384 * 16384 == 0x1000_0000) by (nonlinear_arith);
            crate::vmath::lemma_mul_bound2(width as int, height as int, 16384, 16384);
        }
        let n = (width as usize) * (height as usize);
        let mut data: Vec<Color> = Vec::new();
        let mut i: usize = 0;
        while i < n
            invariant
                i <= n,
                data.len() == i,
                forall|j: int| 0 <= j < i ==> #[trigger] data[j] == fill,
            decreases n - i,
        {
            data.push(fill);
            i = i + 1;
        }
        RowBuffer { width, height, data }
    }

    /// Read one pixel back.
    pub fn get(&self, x: u32, y: u32) -> (c: Color)
        requires
            self.wf(),
            x < self.width,
            y < self.height,
        ensures
            c == self.data[(y as int) * (self.width as int) + x as int],
    {
        proof {
            lemma_row_major_in_bounds(
                self.width as int,
                self.height as int,
                x as int,
                y as int,
            );
        }
        self.data[(y as usize) * (self.width as usize) + (x as usize)]
    }
}

/// Row-major index arithmetic: a pixel's slot is within the buffer.
proof fn lemma_row_major_in_bounds(w: int, h: int, x: int, y: int)
    by (nonlinear_arith)
    requires
        0 <= x < w,
        0 <= y < h,
    ensures
        0 <= y * w + x < w * h,
{
}

/// Row-major index arithmetic: distinct pixels use distinct slots.
proof fn lemma_row_major_injective(w: int, x1: int, y1: int, x2: int, y2: int)
    by (nonlinear_arith)
    requires
        0 <= x1 < w,
        0 <= x2 < w,
        !(x1 == x2 && y1 == y2),
        0 <= y1,
        0 <= y2,
    ensures
        y1 * w + x1 != y2 * w + x2,
{
}

impl crate::tile::Put<Color> for RowBuffer {
    open spec fn inv(&self) -> bool {
        self.wf()
    }

    open spec fn width(&self) -> int {
        self.width as int
    }

    open spec fn height(&self) -> int {
        self.height as int
    }

    open spec fn at(&self, px: int, py: int) -> Color {
        self.data[py * (self.width as int) + px]
    }

    fn put(&mut self, x: u32, y: u32, v: Color) {
        proof {
            lemma_row_major_in_bounds(self.width as int, self.height as int, x as int, y as int);
        }
        let idx = (y as usize) * (self.width as usize) + (x as usize);
        self.data.set(idx, v);
        proof {
            assert forall|px: int, py: int|
                0 <= px < old(self).width as int && 0 <= py < old(self).height as int && !(px
                    == x as int && py == y as int) implies #[trigger] crate::tile::Put::at(
                self,
                px,
                py,
            ) == crate::tile::Put::at(&*old(self), px, py) by {
                lemma_row_major_in_bounds(self.width as int, self.height as int, px, py);
                lemma_row_major_injective(
                    self.width as int,
                    px,
                    py,
                    x as int,
                    y as int,
                );
            }
        }
    }
}

/// The frame: a grid of 64x64 tile groups sized to the image, owning every
/// pixel's depth and color. Width and height must be nonzero multiples of
/// the 64-pixel macro-tile size; other sizes are rejected by contract, the
/// documented policy for this renderer.
pub struct Frame {
    pub width: u32,
    pub height: u32,
    pub background: Color,
    pub tiles: Vec<crate::tile::TileGroup<Color>>,
}

impl Frame {
    /// Macro-tile columns.
    pub open spec fn tw(self) -> int {
        self.width as int / 64
    }

    /// Macro-tile rows.
    pub open spec fn th(self) -> int {
        self.height as int / 64
    }

    pub open spec fn wf(self) -> bool {
        &&& self.width as int % 64 == 0
        &&& self.height as int % 64 == 0
        &&& 64 <= self.width <= 16384
        &&& 64 <= self.height <= 16384
        &&& self.tiles.len() == self.tw() * self.th()
        &&& forall|g: int| 0 <= g < self.tiles.len() ==> (#[trigger] self.tiles[g]).wf()
    }

    /// The macro-tile that owns a pixel, row-major.
    pub open spec fn group_index(self, px: int, py: int) -> int {
        (py / 64) * self.tw() + px / 64
    }

    /// The leaf tile within a group that owns a pixel.
    pub open spec fn tile_index(px: int, py: int) -> int {
        ((py % 64) / 8) * 8 + (px % 64) / 8
    }

    /// The lane within a leaf tile that owns a pixel.
    pub open spec fn lane_index(px: int, py: int) -> int {
        ((py % 64) % 8) * 8 + (px % 64) % 8
    }

    /// The stored depth of a pixel.
    pub open spec fn depth_at(self, px: int, py: int) -> int {
        self.tiles[self.group_index(px, py)].tiles[Frame::tile_index(px, py)].depth.view()[Frame::lane_index(
            px,
            py,
        )]
    }

    /// The stored color of a pixel.
    pub open spec fn color_at(self, px: int, py: int) -> Color {
        self.tiles[self.group_index(px, py)].tiles[Frame::tile_index(px, py)].color[Frame::lane_index(
            px,
            py,
        )]
    }

    /// The depth/color pair of a pixel: the state the per-pixel fold runs
    /// over.
    pub open spec fn px_state(self, px: int, py: int) -> (int, Color) {
        (self.depth_at(px, py), self.color_at(px, py))
    }

    /// Every pixel holds the background color and the far depth.
    pub open spec fn all_cleared(self) -> bool {
        forall|g: int|
            0 <= g < self.tiles.len() ==> (#[trigger] self.tiles[g]).cleared(self.background)
    }

    /// A new frame, cleared to opaque black.
    pub fn new(width: u32, height: u32) -> (r: Frame)
        requires
            width % 64 == 0,
            height % 64 == 0,
            64 <= width <= 16384,
            64 <= height <= 16384,
        ensures
            r.wf(),
            r.width == width,
            r.height == height,
            r.background == (Color { r: 0, g: 0, b: 0, a: 255 }),
            r.all_cleared(),
    {
        let background = Color::new(0, 0, 0, 255);
        let tw = (width / 64) as usize;
        let th = (height / 64) as usize;
        proof {
            assert(256 * 256 == 0x1_0000) by (nonlinear_arith);
            lemma_mul_bound(tw as int, th as int, 256);
        }
        let n = tw * th;
        let mut tiles: Vec<crate::tile::TileGroup<Color>> = Vec::new();
        let mut i: usize = 0;
        while i < n
            invariant
                i <= n,
                tiles.len() == i,
                forall|j: int|
                    0 <= j < i ==> (#[trigger] tiles[j]).wf() && tiles[j].cleared(background),
            decreases n - i,
        {
            tiles.push(crate::tile::TileGroup::new(background));
            i = i + 1;
        }
        Frame { width, height, background, tiles }
    }

    /// Reset every pixel to the background color and the far depth.
    pub fn clear(&mut self)
        requires
            old(self).wf(),
        ensures
            final(self).wf(),
            final(self).width == old(self).width,
            final(self).height == old(self).height,
            final(self).background == old(self).background,
            final(self).all_cleared(),
    {
        let n = self.tiles.len();
        let mut i: usize = 0;
        while i < n
            invariant
                i <= n,
                self.tiles.len() == n,
                self.width == old(self).width,
                self.height == old(self).height,
                self.background == old(self).background,
                old(self).wf(),
                n == old(self).tiles.len(),
                forall|j: int|
                    0 <= j < i ==> (#[trigger] self.tiles[j]).wf() && self.tiles[j].cleared(
                        self.background,
                    ),
                forall|j: int| i <= j < n ==> #[trigger] self.tiles[j] == old(self).tiles[j],
            decreases n - i,
        {
            let bg = self.background;
            self.tiles[i].clear(bg);
            i = i + 1;
        }
    }

    /// Rasterize one triangle of the stream: transform, cull, and deposit
    /// its depth-tested fragments; every pixel of the frame ends up exactly
    /// one `tri_step` further.
    #[verifier::loop_isolation(false)]
    #[verifier::rlimit(100)]
    #[verifier::spinoff_prover]
    fn raster_one<T: Interpolate + FetchPosition + Copy, F: Fragment<T::Out, Color = Color>>(
        &mut self,
        tri: &Triangle<T>,
        fragment: &F,
        hw: i64,
        hh: i64,
    )
        requires
            old(self).wf(),
            T::wf_tri(tri),
            hw == old(self).width as int / 2,
            hh == old(self).height as int / 2,
        ensures
            final(self).wf(),
            final(self).width == old(self).width,
            final(self).height == old(self).height,
            final(self).background == old(self).background,
            final(self).tiles.len() == old(self).tiles.len(),
            forall|px: int, py: int|
                0 <= px < old(self).width && 0 <= py < old(self).height
                    ==> #[trigger] final(self).px_state(px, py) == tri_step(
                    *tri,
                    *fragment,
                    hw as int,
                    hh as int,
                    px,
                    py,
                    old(self).px_state(px, py),
                ),
    {
        let tw = (self.width / 64) as usize;
        let th = (self.height / 64) as usize;
        proof {
            lemma_frame_grid_bounds(self.width as int, self.height as int);
        }
        let ghost pre = *self;
        let ghost tri_g = *tri;
        let s0 = to_screen(tri.x.position(), hw, hh);
        let s1 = to_screen(tri.y.position(), hw, hh);
        let s2 = to_screen(tri.z.position(), hw, hh);
        match (s0, s1, s2) {
            (Some(a), Some(b), Some(c)) => {
                let st = Triangle::new(
                    Vec2i::new(a.0, a.1),
                    Vec2i::new(b.0, b.1),
                    Vec2i::new(c.0, c.1),
                );
                let zc = Vec3i::new(a.2, b.2, c.2);
                proof {
                    assert(screen_tri(tri_g, hw as int, hh as int) == Some((st, zc)));
                }
                let e0 = st.y.sub(st.x);
                let e1 = st.z.sub(st.x);
                let area2 = e0.cross(e1);
                proof {
                    assert(area2 == tri_area2(
                        st.x.x as int,
                        st.x.y as int,
                        st.y.x as int,
                        st.y.y as int,
                        st.z.x as int,
                        st.z.y as int,
                    ));
                }
                if area2 > 0 {
                    let bary = Barycentric::new(&st);
                    let min_x = crate::vmath::min3e(st.x.x, st.y.x, st.z.x);
                    let max_x = crate::vmath::max3e(st.x.x, st.y.x, st.z.x);
                    let min_y = crate::vmath::min3e(st.x.y, st.y.y, st.z.y);
                    let max_y = crate::vmath::max3e(st.x.y, st.y.y, st.z.y);
                    let wl = self.width as i64;
                    let hl = self.height as i64;
                    if max_x >= 0 && min_x < wl && max_y >= 0 && min_y < hl {
                        let cx0 = if min_x < 0 {
                            0
                        } else {
                            min_x
                        };
                        let cx1 = if max_x > wl - 1 {
                            wl - 1
                        } else {
                            max_x
                        };
                        let cy0 = if min_y < 0 {
                            0
                        } else {
                            min_y
                        };
                        let cy1 = if max_y > hl - 1 {
                            hl - 1
                        } else {
                            max_y
                        };
                        let gx0 = (cx0 / 64) as usize;
                        let gx1 = (cx1 / 64) as usize;
                        let gy0 = (cy0 / 64) as usize;
                        let gy1 = (cy1 / 64) as usize;
                        proof {
                            vstd::arithmetic::div_mod::lemma_div_is_ordered(0, cx0 as int, 64);
                            vstd::arithmetic::div_mod::lemma_div_is_ordered(
                                cx0 as int,
                                cx1 as int,
                                64,
                            );
                            vstd::arithmetic::div_mod::lemma_div_is_ordered(cx1 as int, wl - 1, 64);
                            vstd::arithmetic::div_mod::lemma_div_is_ordered(0, cy0 as int, 64);
                            vstd::arithmetic::div_mod::lemma_div_is_ordered(
                                cy0 as int,
                                cy1 as int,
                                64,
                            );
                            vstd::arithmetic::div_mod::lemma_div_is_ordered(cy1 as int, hl - 1, 64);
                        }
                        let mut gy = gy0;
                        while gy <= gy1
                            invariant
                                gy0 <= gy <= gy1 + 1,
                                gx1 < tw,
                                gy1 < th,
                                self.wf(),
                                self.width == old(self).width,
                                self.height == old(self).height,
                                self.background == old(self).background,
                                self.tiles.len() == old(self).tiles.len(),
                                forall|g: int|
                                    0 <= g < self.tiles.len() && !(gy0 <= g / self.tw() < gy && gx0
                                        <= g % self.tw() <= gx1) ==> #[trigger] self.tiles[g]
                                        == pre.tiles[g],
                                forall|g: int|
                                    0 <= g < self.tiles.len() && gy0 <= g / self.tw() < gy && gx0
                                        <= g % self.tw() <= gx1 ==> crate::tile::group_rastered(
                                        pre.tiles[g],
                                        #[trigger] self.tiles[g],
                                        bary,
                                        zc,
                                        tri_g,
                                        *fragment,
                                        (g % self.tw()) * 64,
                                        (g / self.tw()) * 64,
                                    ),
                            decreases gy1 + 1 - gy,
                        {
                            let mut gx = gx0;
                            while gx <= gx1
                                invariant
                                    gx0 <= gx <= gx1 + 1,
                                    gy0 <= gy <= gy1,
                                    gx1 < tw,
                                    gy1 < th,
                                    self.wf(),
                                    self.width == old(self).width,
                                    self.height == old(self).height,
                                    self.background == old(self).background,
                                    self.tiles.len() == old(self).tiles.len(),
                                    forall|g: int|
                                        0 <= g < self.tiles.len() && !(gy0 <= g / self.tw() < gy
                                            && gx0 <= g % self.tw() <= gx1) && !(g / self.tw()
                                            == gy && gx0 <= g % self.tw() < gx)
                                            ==> #[trigger] self.tiles[g] == pre.tiles[g],
                                    forall|g: int|
                                        0 <= g < self.tiles.len() && ((gy0 <= g / self.tw() < gy
                                            && gx0 <= g % self.tw() <= gx1) || (g / self.tw() == gy
                                            && gx0 <= g % self.tw() < gx))
                                            ==> crate::tile::group_rastered(
                                            pre.tiles[g],
                                            #[trigger] self.tiles[g],
                                            bary,
                                            zc,
                                            tri_g,
                                            *fragment,
                                            (g % self.tw()) * 64,
                                            (g / self.tw()) * 64,
                                        ),
                                decreases gx1 + 1 - gx,
                            {
                                proof {
                                    assert(256 * 256 == 0x1_0000) by (nonlinear_arith);
                                    lemma_mul_bound(tw as int, th as int, 256);
                                    lemma_row_major_in_bounds(
                                        tw as int,
                                        th as int,
                                        gx as int,
                                        gy as int,
                                    );
                                }
                                let g = gy * tw + gx;
                                proof {
                                    vstd::arithmetic::div_mod::lemma_fundamental_div_mod_converse(
                                        g as int,
                                        tw as int,
                                        gy as int,
                                        gx as int,
                                    );
                                    assert((gx as i64) * 64 + 63 <= EVAL_LIMIT);
                                    assert(self.tiles[g as int] == pre.tiles[g as int]);
                                }
                                let ghost prevs = *self;
                                self.tiles[g].raster(
                                    (gx as i64) * 64,
                                    (gy as i64) * 64,
                                    &zc,
                                    &bary,
                                    tri,
                                    fragment,
                                );
                                proof {
                                    assert(crate::tile::group_rastered(
                                        pre.tiles[g as int],
                                        self.tiles[g as int],
                                        bary,
                                        zc,
                                        tri_g,
                                        *fragment,
                                        (g as int % self.tw()) * 64,
                                        (g as int / self.tw()) * 64,
                                    ));
                                    assert forall|g2: int|
                                        0 <= g2 < self.tiles.len() && g2 != g
                                            implies #[trigger] self.tiles[g2] == prevs.tiles[g2] by {}
                                    assert forall|g2: int|
                                        #![trigger self.tiles[g2]]
                                        0 <= g2 < self.tiles.len() && g2 / self.tw() == gy && g2
                                            % self.tw() == gx implies g2 == g by {
                                        vstd::arithmetic::div_mod::lemma_fundamental_div_mod(
                                            g2,
                                            self.tw(),
                                        );
                                        assert(self.tw() * (gy as int) == (gy as int) * self.tw())
                                            by (nonlinear_arith);
                                    }
                                }
                                gx = gx + 1;
                            }
                            gy = gy + 1;
                        }
                        proof {
                            assert forall|px: int, py: int|
                                0 <= px < old(self).width && 0 <= py < old(self).height
                                    implies #[trigger] self.px_state(px, py) == tri_step(
                                tri_g,
                                *fragment,
                                hw as int,
                                hh as int,
                                px,
                                py,
                                pre.px_state(px, py),
                            ) by {
                                lemma_pixel_grid(self.width as int, self.height as int, px, py);
                                let gpx = px / 64;
                                let gpy = py / 64;
                                let g = gpy * self.tw() + gpx;
                                lemma_row_major_in_bounds(self.tw(), self.th(), gpx, gpy);
                                vstd::arithmetic::div_mod::lemma_fundamental_div_mod_converse(
                                    g,
                                    self.tw(),
                                    gpy,
                                    gpx,
                                );
                                if gy0 <= gpy <= gy1 && gx0 <= gpx <= gx1 {
                                    crate::tile::lemma_group_pixel(
                                        pre.tiles[g],
                                        self.tiles[g],
                                        bary,
                                        zc,
                                        tri_g,
                                        *fragment,
                                        gpx * 64,
                                        gpy * 64,
                                        px,
                                        py,
                                    );
                                    vstd::arithmetic::div_mod::lemma_fundamental_div_mod(px, 64);
                                    vstd::arithmetic::div_mod::lemma_fundamental_div_mod(py, 64);
                                } else {
                                    if bary.inside(px, py) {
                                        bary.lemma_inside_in_box(st, px, py);
                                        vstd::arithmetic::div_mod::lemma_div_is_ordered(
                                            cx0 as int,
                                            px,
                                            64,
                                        );
                                        vstd::arithmetic::div_mod::lemma_div_is_ordered(
                                            px,
                                            cx1 as int,
                                            64,
                                        );
                                        vstd::arithmetic::div_mod::lemma_div_is_ordered(
                                            cy0 as int,
                                            py,
                                            64,
                                        );
                                        vstd::arithmetic::div_mod::lemma_div_is_ordered(
                                            py,
                                            cy1 as int,
                                            64,
                                        );
                                        assert(false);
                                    }
                                }
                            }
                        }
                    } else {
                        proof {
                            assert forall|px: int, py: int|
                                0 <= px < old(self).width && 0 <= py < old(self).height
                                    implies #[trigger] self.px_state(px, py) == tri_step(
                                tri_g,
                                *fragment,
                                hw as int,
                                hh as int,
                                px,
                                py,
                                pre.px_state(px, py),
                            ) by {
                                if bary.inside(px, py) {
                                    bary.lemma_inside_in_box(st, px, py);
                                    assert(false);
                                }
                            }
                        }
                    }
                } else {
                    proof {
                        assert forall|px: int, py: int|
                            0 <= px < old(self).width && 0 <= py < old(self).height
                                implies #[trigger] self.px_state(px, py) == tri_step(
                            tri_g,
                            *fragment,
                            hw as int,
                            hh as int,
                            px,
                            py,
                            pre.px_state(px, py),
                        ) by {}
                    }
                }
            },
            _ => {
                proof {
                    assert(screen_tri(tri_g, hw as int, hh as int) is None);
                    assert forall|px: int, py: int|
                        0 <= px < old(self).width && 0 <= py < old(self).height
                            implies #[trigger] self.px_state(px, py) == tri_step(
                        tri_g,
                        *fragment,
                        hw as int,
                        hh as int,
                        px,
                        py,
                        pre.px_state(px, py),
                    ) by {}
                }
            },
        }
    }

    /// Rasterize a stream of triangles, in order: transform each to screen
    /// space, cull backfaces and degenerate or unprojectable triangles, and
    /// deposit depth-tested shaded fragments into every covered pixel. The
    /// contract is the per-pixel fold of the whole stream.
    #[verifier::loop_isolation(false)]
    pub fn raster<T: Interpolate + FetchPosition + Copy, F: Fragment<T::Out, Color = Color>>(
        &mut self,
        polys: &Vec<Triangle<T>>,
        fragment: &F,
    )
        requires
            old(self).wf(),
            forall|j: int| 0 <= j < polys.len() ==> T::wf_tri(&polys[j]),
        ensures
            final(self).wf(),
            final(self).width == old(self).width,
            final(self).height == old(self).height,
            final(self).background == old(self).background,
            forall|px: int, py: int|
                0 <= px < old(self).width && 0 <= py < old(self).height
                    ==> #[trigger] final(self).px_state(px, py) == raster_pixel(
                    polys@,
                    *fragment,
                    old(self).width as int / 2,
                    old(self).height as int / 2,
                    px,
                    py,
                    old(self).px_state(px, py),
                ),
    {
        let hw = (self.width / 2) as i64;
        let hh = (self.height / 2) as i64;
        let mut n: usize = 0;
        while n < polys.len()
            invariant
                n <= polys.len(),
                self.wf(),
                self.width == old(self).width,
                self.height == old(self).height,
                self.background == old(self).background,
                self.tiles.len() == old(self).tiles.len(),
                forall|px: int, py: int|
                    0 <= px < old(self).width && 0 <= py < old(self).height
                        ==> #[trigger] self.px_state(px, py) == raster_pixel(
                        polys@.take(n as int),
                        *fragment,
                        hw as int,
                        hh as int,
                        px,
                        py,
                        old(self).px_state(px, py),
                    ),
            decreases polys.len() - n,
        {
            let tri = &polys[n];
            let ghost mid = *self;
            self.raster_one(tri, fragment, hw, hh);
            proof {
                assert forall|px: int, py: int|
                    0 <= px < old(self).width && 0 <= py < old(self).height
                        implies #[trigger] self.px_state(px, py) == raster_pixel(
                    polys@.take(n as int + 1),
                    *fragment,
                    hw as int,
                    hh as int,
                    px,
                    py,
                    old(self).px_state(px, py),
                ) by {
                    assert(polys@.take(n as int + 1).drop_last() =~= polys@.take(n as int));
                    assert(polys@.take(n as int + 1).last() == polys@[n as int]);
                }
            }
            n = n + 1;
        }
        proof {
            assert(polys@.take(polys.len() as int) =~= polys@);
        }
    }

    /// Copy the finished frame into a plain row-major color buffer.
    #[verifier::loop_isolation(false)]
    pub fn to_buffer(&self) -> (r: RowBuffer)
        requires
            self.wf(),
        ensures
            r.wf(),
            r.width == self.width,
            r.height == self.height,
            forall|px: int, py: int|
                0 <= px < self.width && 0 <= py < self.height ==> #[trigger] crate::tile::Put::at(
                    &r,
                    px,
                    py,
                ) == self.color_at(px, py),
    {
        let mut buf = RowBuffer::new(self.width, self.height, self.background);
        let tw = (self.width / 64) as usize;
        let n = self.tiles.len();
        proof {
            lemma_frame_grid_bounds(self.width as int, self.height as int);
            vstd::arithmetic::div_mod::lemma_fundamental_div_mod(self.width as int, 64);
            vstd::arithmetic::div_mod::lemma_fundamental_div_mod(self.height as int, 64);
        }
        let mut g: usize = 0;
        while g < n
            invariant
                g <= n,
                n == self.tiles.len(),
                buf.wf(),
                buf.width == self.width,
                buf.height == self.height,
                forall|px: int, py: int|
                    0 <= px < self.width && 0 <= py < self.height && self.group_index(px, py) < g
                        ==> #[trigger] crate::tile::Put::at(&buf, px, py) == self.color_at(px, py),
            decreases n - g,
        {
            let gx = g % tw;
            let gy = g / tw;
            proof {
                vstd::arithmetic::div_mod::lemma_fundamental_div_mod(g as int, tw as int);
                vstd::arithmetic::div_mod::lemma_mod_division_less_than_divisor(g as int, tw as int);
                assert(((g as int) / (tw as int)) * (tw as int) <= (g as int)) by (nonlinear_arith)
                    requires
                        g as int == (tw as int) * ((g as int) / (tw as int)) + ((g as int) % (
                        tw as int)),
                        0 <= ((g as int) % (tw as int)) < (tw as int),
                ;
                assert((g as int) / (tw as int) < self.th()) by (nonlinear_arith)
                    requires
                        ((g as int) / (tw as int)) * (tw as int) <= (g as int),
                        (g as int) < (self.tw()) * (self.th()),
                        tw as int == self.tw(),
                        self.tw() >= 1,
                        (g as int) / (tw as int) >= 0,
                        self.th() >= 1,
                ;
            }
            let ghost prev = buf;
            let tile = &self.tiles[g];
            tile.write((gx as u32) * 64, (gy as u32) * 64, &mut buf);
            proof {
                assert forall|px: int, py: int|
                    0 <= px < self.width && 0 <= py < self.height && self.group_index(px, py) < g
                        + 1 implies #[trigger] crate::tile::Put::at(&buf, px, py) == self.color_at(
                    px,
                    py,
                ) by {
                    lemma_pixel_grid(self.width as int, self.height as int, px, py);
                    vstd::arithmetic::div_mod::lemma_fundamental_div_mod(px, 64);
                    vstd::arithmetic::div_mod::lemma_fundamental_div_mod(py, 64);
                    lemma_row_major_in_bounds(self.tw(), self.th(), px / 64, py / 64);
                    if self.group_index(px, py) == g {
                        assert((gy as int) * (self.tw()) == (self.tw()) * (gy as int))
                            by (nonlinear_arith);
                        assert(px / 64 == gx && py / 64 == gy) by (nonlinear_arith)
                            requires
                                (py / 64) * self.tw() + px / 64 == g as int,
                                g as int == (gy as int) * (self.tw()) + (gx as int),
                                0 <= px / 64 < self.tw(),
                                0 <= (gx as int) < self.tw(),
                                0 <= py / 64,
                                0 <= (gy as int),
                        ;
                    }
                }
            }
            g = g + 1;
        }
        proof {
            assert forall|px: int, py: int|
                0 <= px < self.width && 0 <= py < self.height implies #[trigger] crate::tile::Put::at(
                &buf,
                px,
                py,
            ) == self.color_at(px, py) by {
                lemma_pixel_grid(self.width as int, self.height as int, px, py);
                lemma_row_major_in_bounds(self.tw(), self.th(), px / 64, py / 64);
            }
        }
        buf
    }

    /// Bin a triangle stream into per-macro-tile command queues: the
    /// single-threaded step before parallel dispatch. Queue `g` holds
    /// exactly the front-facing, projectable triangles whose clamped
    /// bounding box overlaps macro-tile `g`, in submission order, so
    /// disjoint tiles can be rasterized concurrently with deterministic
    /// per-tile results.
    #[verifier::loop_isolation(false)]
    #[verifier::rlimit(100)]
    #[verifier::spinoff_prover]
    pub fn bin<T: FetchPosition>(&self, polys: &Vec<Triangle<T>>) -> (r: Vec<
        Vec<ScreenTriangle>,
    >)
        requires
            self.wf(),
        ensures
            r.len() == self.tiles.len(),
            forall|g: int|
                0 <= g < r.len() ==> #[trigger] r[g]@ == bin_filter(
                    polys@,
                    self.width as int / 2,
                    self.height as int / 2,
                    g,
                    self.tw(),
                    self.width as int,
                    self.height as int,
                ),
    {
        let hw = (self.width / 2) as i64;
        let hh = (self.height / 2) as i64;
        let tw = (self.width / 64) as usize;
        let th = (self.height / 64) as usize;
        proof {
            lemma_frame_grid_bounds(self.width as int, self.height as int);
        }
        let total = self.tiles.len();
        let mut r: Vec<Vec<ScreenTriangle>> = Vec::new();
        let mut i: usize = 0;
        while i < total
            invariant
                i <= total,
                r.len() == i,
                forall|g: int| 0 <= g < i ==> (#[trigger] r[g]@).len() == 0,
            decreases total - i,
        {
            r.push(Vec::new());
            i = i + 1;
        }
        let mut n: usize = 0;
        while n < polys.len()
            invariant
                n <= polys.len(),
                r.len() == total,
                total == self.tiles.len(),
                forall|g: int|
                    0 <= g < r.len() ==> #[trigger] r[g]@ == bin_filter(
                        polys@.take(n as int),
                        hw as int,
                        hh as int,
                        g,
                        self.tw(),
                        self.width as int,
                        self.height as int,
                    ),
            decreases polys.len() - n,
        {
            let tri = &polys[n];
            let ghost prer = r;
            let ghost tri_g = polys@[n as int];
            let s0 = to_screen(tri.x.position(), hw, hh);
            let s1 = to_screen(tri.y.position(), hw, hh);
            let s2 = to_screen(tri.z.position(), hw, hh);
            match (s0, s1, s2) {
                (Some(a), Some(b), Some(c)) => {
                    let st = Triangle::new(
                        Vec2i::new(a.0, a.1),
                        Vec2i::new(b.0, b.1),
                        Vec2i::new(c.0, c.1),
                    );
                    let zc = Vec3i::new(a.2, b.2, c.2);
                    proof {
                        assert(screen_tri(tri_g, hw as int, hh as int) == Some((st, zc)));
                    }
                    let e0 = st.y.sub(st.x);
                    let e1 = st.z.sub(st.x);
                    let area2 = e0.cross(e1);
                    proof {
                        assert(area2 == tri_area2(
                            st.x.x as int,
                            st.x.y as int,
                            st.y.x as int,
                            st.y.y as int,
                            st.z.x as int,
                            st.z.y as int,
                        ));
                    }
                    if area2 > 0 {
                        let min_x = crate::vmath::min3e(st.x.x, st.y.x, st.z.x);
                        let max_x = crate::vmath::max3e(st.x.x, st.y.x, st.z.x);
                        let min_y = crate::vmath::min3e(st.x.y, st.y.y, st.z.y);
                        let max_y = crate::vmath::max3e(st.x.y, st.y.y, st.z.y);
                        let wl = self.width as i64;
                        let hl = self.height as i64;
                        if max_x >= 0 && min_x < wl && max_y >= 0 && min_y < hl {
                            let cx0 = if min_x < 0 {
                                0
                            } else {
                                min_x
                            };
                            let cx1 = if max_x > wl - 1 {
                                wl - 1
                            } else {
                                max_x
                            };
                            let cy0 = if min_y < 0 {
                                0
                            } else {
                                min_y
                            };
                            let cy1 = if max_y > hl - 1 {
                                hl - 1
                            } else {
                                max_y
                            };
                            let gx0 = (cx0 / 64) as usize;
                            let gx1 = (cx1 / 64) as usize;
                            let gy0 = (cy0 / 64) as usize;
                            let gy1 = (cy1 / 64) as usize;
                            proof {
                                vstd::arithmetic::div_mod::lemma_div_is_ordered(0, cx0 as int, 64);
                                vstd::arithmetic::div_mod::lemma_div_is_ordered(
                                    cx0 as int,
                                    cx1 as int,
                                    64,
                                );
                                vstd::arithmetic::div_mod::lemma_div_is_ordered(cx1 as int, wl - 1, 64);
                                vstd::arithmetic::div_mod::lemma_div_is_ordered(0, cy0 as int, 64);
                                vstd::arithmetic::div_mod::lemma_div_is_ordered(
                                    cy0 as int,
                                    cy1 as int,
                                    64,
                                );
                                vstd::arithmetic::div_mod::lemma_div_is_ordered(cy1 as int, hl - 1, 64);
                            }
                            let mut gy = gy0;
                            while gy <= gy1
                                invariant
                                    gy0 <= gy <= gy1 + 1,
                                    gx1 < tw,
                                    gy1 < th,
                                    r.len() == total,
                                    forall|g: int|
                                        0 <= g < total && !(gy0 <= g / self.tw() < gy && gx0 <= g
                                            % self.tw() <= gx1) ==> #[trigger] r[g]@ == prer[g]@,
                                    forall|g: int|
                                        0 <= g < total && gy0 <= g / self.tw() < gy && gx0 <= g
                                            % self.tw() <= gx1 ==> #[trigger] r[g]@ == prer[g]@.push(
                                            ScreenTriangle { tri: st, z: zc, index: n },
                                        ),
                                decreases gy1 + 1 - gy,
                            {
                                let mut gx = gx0;
                                while gx <= gx1
                                    invariant
                                        gx0 <= gx <= gx1 + 1,
                                        gy0 <= gy <= gy1,
                                        gx1 < tw,
                                        gy1 < th,
                                        r.len() == total,
                                        forall|g: int|
                                            0 <= g < total && !(gy0 <= g / self.tw() < gy && gx0
                                                <= g % self.tw() <= gx1) && !(g / self.tw() == gy
                                                && gx0 <= g % self.tw() < gx) ==> #[trigger] r[g]@
                                                == prer[g]@,
                                        forall|g: int|
                                            0 <= g < total && ((gy0 <= g / self.tw() < gy && gx0
                                                <= g % self.tw() <= gx1) || (g / self.tw() == gy
                                                && gx0 <= g % self.tw() < gx)) ==> #[trigger] r[g]@
                                                == prer[g]@.push(
                                                ScreenTriangle { tri: st, z: zc, index: n },
                                            ),
                                    decreases gx1 + 1 - gx,
                                {
                                    proof {
                                        assert(256 * 256 == 0x1_0000) by (nonlinear_arith);
                                        lemma_mul_bound(tw as int, th as int, 256);
                                        lemma_row_major_in_bounds(
                                            tw as int,
                                            th as int,
                                            gx as int,
                                            gy as int,
                                        );
                                    }
                                    let g = gy * tw + gx;
                                    proof {
                                        vstd::arithmetic::div_mod::lemma_fundamental_div_mod_converse(
                                            g as int,
                                            tw as int,
                                            gy as int,
                                            gx as int,
                                        );
                                    }
                                    let entry = ScreenTriangle { tri: st, z: zc, index: n };
                                    r[g].push(entry);
                                    proof {
                                        assert forall|g2: int|
                                            #![trigger r[g2]]
                                            0 <= g2 < total && g2 / self.tw() == gy && g2
                                                % self.tw() == gx implies g2 == g by {
                                            vstd::arithmetic::div_mod::lemma_fundamental_div_mod(
                                                g2,
                                                self.tw(),
                                            );
                                            assert(self.tw() * (gy as int) == (gy as int)
                                                * self.tw()) by (nonlinear_arith);
                                        }
                                    }
                                    gx = gx + 1;
                                }
                                gy = gy + 1;
                            }
                            proof {
                                assert forall|g: int|
                                    0 <= g < total implies #[trigger] r[g]@ == bin_filter(
                                    polys@.take(n as int + 1),
                                    hw as int,
                                    hh as int,
                                    g,
                                    self.tw(),
                                    self.width as int,
                                    self.height as int,
                                ) by {
                                    assert(polys@.take(n as int + 1).drop_last() =~= polys@.take(
                                        n as int,
                                    ));
                                    assert(polys@.take(n as int + 1).last() == polys@[n as int]);
                                    vstd::arithmetic::div_mod::lemma_fundamental_div_mod(
                                        g,
                                        self.tw(),
                                    );
                                    vstd::arithmetic::div_mod::lemma_mod_division_less_than_divisor(
                                        g,
                                        self.tw(),
                                    );
                                    assert((g / self.tw()) * self.tw() <= g && g < (self.tw()) * (
                                    self.th()) ==> g / self.tw() < self.th()) by (nonlinear_arith)
                                        requires
                                            self.tw() >= 1,
                                            self.th() >= 1,
                                            g / self.tw() >= 0,
                                            g == (self.tw()) * (g / self.tw()) + (g % self.tw()),
                                            0 <= (g % self.tw()) < self.tw(),
                                    ;
                                    assert((g / self.tw()) * self.tw() <= g) by (nonlinear_arith)
                                        requires
                                            g == (self.tw()) * (g / self.tw()) + (g % self.tw()),
                                            0 <= (g % self.tw()) < self.tw(),
                                    ;
                                }
                            }
                        } else {
                            proof {
                                assert forall|g: int|
                                    0 <= g < total implies #[trigger] r[g]@ == bin_filter(
                                    polys@.take(n as int + 1),
                                    hw as int,
                                    hh as int,
                                    g,
                                    self.tw(),
                                    self.width as int,
                                    self.height as int,
                                ) by {
                                    assert(polys@.take(n as int + 1).drop_last() =~= polys@.take(
                                        n as int,
                                    ));
                                    assert(polys@.take(n as int + 1).last() == polys@[n as int]);
                                }
                            }
                        }
                    } else {
                        proof {
                            assert forall|g: int|
                                0 <= g < total implies #[trigger] r[g]@ == bin_filter(
                                polys@.take(n as int + 1),
                                hw as int,
                                hh as int,
                                g,
                                self.tw(),
                                self.width as int,
                                self.height as int,
                            ) by {
                                assert(polys@.take(n as int + 1).drop_last() =~= polys@.take(
                                    n as int,
                                ));
                                assert(polys@.take(n as int + 1).last() == polys@[n as int]);
                            }
                        }
                    }
                },
                _ => {
                    proof {
                        assert(screen_tri(tri_g, hw as int, hh as int) is None);
                        assert forall|g: int|
                            0 <= g < total implies #[trigger] r[g]@ == bin_filter(
                            polys@.take(n as int + 1),
                            hw as int,
                            hh as int,
                            g,
                            self.tw(),
                            self.width as int,
                            self.height as int,
                        ) by {
                            assert(polys@.take(n as int + 1).drop_last() =~= polys@.take(
                                n as int,
                            ));
                            assert(polys@.take(n as int + 1).last() == polys@[n as int]);
                        }
                    }
                },
            }
            n = n + 1;
        }
        proof {
            assert(polys@.take(polys.len() as int) =~= polys@);
        }
        r
    }
}

/// A cleared frame reads back the background color and the far depth at
/// every pixel.
pub proof fn lemma_cleared_pixels(f: Frame, px: int, py: int)
    requires
        f.wf(),
        f.all_cleared(),
        0 <= px < f.width,
        0 <= py < f.height,
    ensures
        f.color_at(px, py) == f.background,
        f.depth_at(px, py) == crate::tile::DEPTH_FAR,
{
    lemma_pixel_grid(f.width as int, f.height as int, px, py);
    lemma_row_major_in_bounds(f.tw(), f.th(), px / 64, py / 64);
    vstd::arithmetic::div_mod::lemma_mod_division_less_than_divisor(px, 64);
    vstd::arithmetic::div_mod::lemma_mod_division_less_than_divisor(py, 64);
}

/// A point is inside a triangle exactly when all three of its barycentric
/// weights are nonnegative (and the triangle is not degenerate): the inside
/// test is precisely the sign test on the weights.
pub proof fn lemma_inside_iff_weights_nonneg(b: Barycentric, px: int, py: int)
    ensures
        b.inside(px, py) <==> (b.den > 0 && b.w0_num(px, py) >= 0 && b.u_num(px, py) >= 0
            && b.v_num(px, py) >= 0),
{
}

/// Depth-test commutativity: two triangles whose quantized depths at a
/// pixel differ produce the same final pixel in either submission order —
/// the nearer fragment wins regardless. (With exactly equal depths the
/// first writer keeps the pixel, so order can matter only on ties.)
pub proof fn lemma_depth_order_independent<
    T: Interpolate + FetchPosition,
    F: Fragment<T::Out, Color = Color>,
>(
    ta: Triangle<T>,
    tb: Triangle<T>,
    f: F,
    hw: int,
    hh: int,
    px: int,
    py: int,
    s: (int, Color),
)
    requires
        (match (screen_tri(ta, hw, hh), screen_tri(tb, hw, hh)) {
            (Some(pa), Some(pb)) => Barycentric::for_tri(pa.0).depth_q(pa.1, px, py)
                != Barycentric::for_tri(pb.0).depth_q(pb.1, px, py),
            _ => true,
        }),
    ensures
        tri_step(tb, f, hw, hh, px, py, tri_step(ta, f, hw, hh, px, py, s)) == tri_step(
            ta,
            f,
            hw,
            hh,
            px,
            py,
            tri_step(tb, f, hw, hh, px, py, s),
        ),
{
}

/// A pixel of the frame sits in a macro-tile whose row and column are in
/// the grid.
proof fn lemma_pixel_grid(w: int, h: int, px: int, py: int)
    requires
        w % 64 == 0,
        h % 64 == 0,
        64 <= w <= 16384,
        64 <= h <= 16384,
        0 <= px < w,
        0 <= py < h,
    ensures
        0 <= px / 64 < w / 64,
        0 <= py / 64 < h / 64,
{
    lemma_frame_grid_bounds(w, h);
    vstd::arithmetic::div_mod::lemma_div_is_ordered(0, px, 64);
    vstd::arithmetic::div_mod::lemma_div_is_ordered(px, w - 1, 64);
    vstd::arithmetic::div_mod::lemma_div_is_ordered(0, py, 64);
    vstd::arithmetic::div_mod::lemma_div_is_ordered(py, h - 1, 64);
}

/// The grid of a well-formed frame has as many columns and rows as the
/// divided dimensions say, and every clamped coordinate's macro-tile index
/// is in range.
proof fn lemma_frame_grid_bounds(w: int, h: int)
    requires
        w % 64 == 0,
        h % 64 == 0,
        64 <= w <= 16384,
        64 <= h <= 16384,
    ensures
        (w - 1) / 64 == w / 64 - 1,
        (h - 1) / 64 == h / 64 - 1,
        1 <= w / 64 <= 256,
        1 <= h / 64 <= 256,
{
    vstd::arithmetic::div_mod::lemma_fundamental_div_mod(w, 64);
    vstd::arithmetic::div_mod::lemma_fundamental_div_mod_converse(w - 1, 64, w / 64 - 1, 63);
    vstd::arithmetic::div_mod::lemma_fundamental_div_mod(h, 64);
    vstd::arithmetic::div_mod::lemma_fundamental_div_mod_converse(h - 1, 64, h / 64 - 1, 63);
    vstd::arithmetic::div_mod::lemma_div_is_ordered(64, w, 64);
    vstd::arithmetic::div_mod::lemma_div_is_ordered(w, 16384, 64);
    vstd::arithmetic::div_mod::lemma_div_is_ordered(64, h, 64);
    vstd::arithmetic::div_mod::lemma_div_is_ordered(h, 16384, 64);
}

} // verus!
