//! Small integer vector types and the dot/cross products the barycentric
//! engine is built from.

use vstd::prelude::*;

verus! {

/// A dot product between two values.
pub trait Dot<RHS> {
    type Output;

    /// When the product may be taken without overflow.
    spec fn dot_req(self, rhs: RHS) -> bool;

    /// The mathematical value of the product.
    spec fn dot_spec(self, rhs: RHS) -> Self::Output;

    fn dot(self, rhs: RHS) -> (r: Self::Output)
        requires
            self.dot_req(rhs),
        ensures
            r == self.dot_spec(rhs),
    ;
}

/// A 2-D vector of integer screen coordinates.
#[derive(Clone, Copy, Debug, PartialEq, Eq, Structural)]
pub struct Vec2i {
    pub x: i64,
    pub y: i64,
}

/// A 3-D integer vector; used for the three corner depths of a triangle.
#[derive(Clone, Copy, Debug, PartialEq, Eq, Structural)]
pub struct Vec3i {
    pub x: i64,
    pub y: i64,
    pub z: i64,
}

/// The z component of the cross product of two 2-D vectors; twice the signed
/// area of the triangle they span.
pub open spec fn cross2(ax: int, ay: int, bx: int, by: int) -> int {
    ax * by - ay * bx
}

impl Vec2i {
    pub fn new(x: i64, y: i64) -> (r: Vec2i)
        ensures
            r.x == x,
            r.y == y,
    {
        Vec2i { x, y }
    }

    /// Both coordinates bounded in magnitude by `m`.
    pub open spec fn bounded(self, m: int) -> bool {
        -m <= self.x <= m && -m <= self.y <= m
    }

    pub fn sub(self, rhs: Vec2i) -> (r: Vec2i)
        requires
            self.bounded(0x4000_0000),
            rhs.bounded(0x4000_0000),
        ensures
            r.x == self.x - rhs.x,
            r.y == self.y - rhs.y,
            r.bounded(0x8000_0000),
    {
        Vec2i { x: self.x - rhs.x, y: self.y - rhs.y }
    }

    /// The z component of `self x rhs`.
    pub fn cross(self, rhs: Vec2i) -> (r: i64)
        requires
            self.bounded(0x4000_0000),
            rhs.bounded(0x4000_0000),
        ensures
            r == cross2(self.x as int, self.y as int, rhs.x as int, rhs.y as int),
    {
        proof {
            lemma_mul_bound(self.x as int, rhs.y as int, 0x4000_0000);
            lemma_mul_bound(self.y as int, rhs.x as int, 0x4000_0000);
        }
        self.x * rhs.y - self.y * rhs.x
    }
}

impl Vec3i {
    pub fn new(x: i64, y: i64, z: i64) -> (r: Vec3i)
        ensures
            r.x == x,
            r.y == y,
            r.z == z,
    {
        Vec3i { x, y, z }
    }

    /// All three coordinates bounded in magnitude by `m`.
    pub open spec fn bounded(self, m: int) -> bool {
        -m <= self.x <= m && -m <= self.y <= m && -m <= self.z <= m
    }
}

impl Dot<Vec2i> for Vec2i {
    type Output = i64;

    open spec fn dot_req(self, rhs: Vec2i) -> bool {
        self.bounded(0x4000_0000) && rhs.bounded(0x4000_0000)
    }

    open spec fn dot_spec(self, rhs: Vec2i) -> i64 {
        ((self.x * rhs.x) + (self.y * rhs.y)) as i64
    }

    fn dot(self, rhs: Vec2i) -> (r: i64) {
        proof {
            lemma_mul_bound(self.x as int, rhs.x as int, 0x4000_0000);
            lemma_mul_bound(self.y as int, rhs.y as int, 0x4000_0000);
        }
        self.x * rhs.x + self.y * rhs.y
    }
}

/// A 4-D integer vector: a fixed-point clip-space position.
#[derive(Clone, Copy, Debug, PartialEq, Eq, Structural)]
pub struct Vec4i {
    pub x: i64,
    pub y: i64,
    pub z: i64,
    pub w: i64,
}

impl Vec4i {
    pub fn new(x: i64, y: i64, z: i64, w: i64) -> (r: Vec4i)
        ensures
            r.x == x,
            r.y == y,
            r.z == z,
            r.w == w,
    {
        Vec4i { x, y, z, w }
    }

    /// All four coordinates bounded in magnitude by `m`.
    pub open spec fn bounded(self, m: int) -> bool {
        -m <= self.x <= m && -m <= self.y <= m && -m <= self.z <= m && -m <= self.w <= m
    }
}

/// |a| <= m and |b| <= m imply |a * b| <= m * m.
pub proof fn lemma_mul_bound(a: int, b: int, m: int)
    by (nonlinear_arith)
    requires
        -m <= a <= m,
        -m <= b <= m,
    ensures
        -(m * m) <= a * b <= m * m,
{
}

/// Asymmetric product bound.
pub proof fn lemma_mul_bound2(a: int, b: int, ma: int, mb: int)
    by (nonlinear_arith)
    requires
        -ma <= a <= ma,
        -mb <= b <= mb,
        0 <= ma,
        0 <= mb,
    ensures
        -(ma * mb) <= a * b <= ma * mb,
{
}

/// Floor division of a possibly negative numerator by a positive divisor:
/// the result is the mathematical quotient rounded toward negative
/// infinity, matching spec-level integer division.
pub fn floor_div(a: i64, b: i64) -> (r: i64)
    requires
        b > 0,
        -0x4000_0000_0000_0000 <= a <= 0x4000_0000_0000_0000,
    ensures
        r == a as int / (b as int),
        a >= 0 ==> 0 <= r <= a,
        a < 0 ==> a <= r <= 0,
{
    if a >= 0 {
        let r = ((a as u64) / (b as u64)) as i64;
        proof {
            vstd::arithmetic::div_mod::lemma_fundamental_div_mod(a as int, b as int);
            vstd::arithmetic::div_mod::lemma_mod_division_less_than_divisor(a as int, b as int);
            assert(0 <= (a as int / (b as int)) <= a) by (nonlinear_arith)
                requires
                    a >= 0,
                    b > 0,
                    a as int == (b as int) * (a as int / (b as int)) + (a as int % (b as int)),
                    0 <= (a as int % (b as int)) < (b as int),
            ;
        }
        r
    } else {
        let n = (-a) as u64;
        let q = (n + (b as u64) - 1) / (b as u64);
        proof {
            let ni = n as int;
            let bi = b as int;
            vstd::arithmetic::div_mod::lemma_fundamental_div_mod(ni, bi);
            vstd::arithmetic::div_mod::lemma_mod_division_less_than_divisor(ni, bi);
            let qq = ni / bi;
            let m = ni % bi;
            assert(0 <= qq <= ni) by (nonlinear_arith)
                requires
                    ni > 0,
                    bi > 0,
                    ni == bi * qq + m,
                    0 <= m < bi,
            ;
            if m == 0 {
                assert(ni + bi - 1 == qq * bi + (bi - 1)) by (nonlinear_arith)
                    requires
                        ni == bi * qq,
                ;
                vstd::arithmetic::div_mod::lemma_fundamental_div_mod_converse(
                    ni + bi - 1,
                    bi,
                    qq,
                    bi - 1,
                );
                assert(a as int == (-qq) * bi + 0) by (nonlinear_arith)
                    requires
                        ni == bi * qq,
                        a as int == -ni,
                ;
                vstd::arithmetic::div_mod::lemma_fundamental_div_mod_converse(a as int, bi, -qq, 0);
            } else {
                assert(ni + bi - 1 == (qq + 1) * bi + (m - 1)) by (nonlinear_arith)
                    requires
                        ni == bi * qq + m,
                ;
                vstd::arithmetic::div_mod::lemma_fundamental_div_mod_converse(
                    ni + bi - 1,
                    bi,
                    qq + 1,
                    m - 1,
                );
                assert(qq + 1 <= ni) by (nonlinear_arith)
                    requires
                        ni == bi * qq + m,
                        1 <= m,
                        bi >= 1,
                        qq >= 0,
                ;
                assert(a as int == (-(qq + 1)) * bi + (bi - m)) by (nonlinear_arith)
                    requires
                        ni == bi * qq + m,
                        a as int == -ni,
                ;
                vstd::arithmetic::div_mod::lemma_fundamental_div_mod_converse(
                    a as int,
                    bi,
                    -(qq + 1),
                    bi - m,
                );
            }
        }
        -(q as i64)
    }
}

/// Clamp a value into a closed interval.
pub open spec fn clamp_spec(v: int, lo: int, hi: int) -> int {
    if v < lo {
        lo
    } else if v > hi {
        hi
    } else {
        v
    }
}

/// Clamp a wide intermediate into an `i64` interval.
pub fn clamp128(v: i128, lo: i64, hi: i64) -> (r: i64)
    requires
        lo <= hi,
    ensures
        r == clamp_spec(v as int, lo as int, hi as int),
{
    if v < lo as i128 {
        lo
    } else if v > hi as i128 {
        hi
    } else {
        v as i64
    }
}

/// Floor division with wide intermediates, for the clip transform's
/// perspective divide.
pub fn floor_div128(a: i128, b: i128) -> (r: i128)
    requires
        b > 0,
        -0x4000_0000_0000_0000_0000_0000_0000_0000 <= a <= 0x4000_0000_0000_0000_0000_0000_0000_0000,
    ensures
        r == a as int / (b as int),
        a >= 0 ==> 0 <= r <= a,
        a < 0 ==> a <= r <= 0,
{
    if a >= 0 {
        let r = ((a as u128) / (b as u128)) as i128;
        proof {
            vstd::arithmetic::div_mod::lemma_fundamental_div_mod(a as int, b as int);
            vstd::arithmetic::div_mod::lemma_mod_division_less_than_divisor(a as int, b as int);
            assert(0 <= (a as int / (b as int)) <= a) by (nonlinear_arith)
                requires
                    a >= 0,
                    b > 0,
                    a as int == (b as int) * (a as int / (b as int)) + (a as int % (b as int)),
                    0 <= (a as int % (b as int)) < (b as int),
            ;
        }
        r
    } else {
        let n = (-a) as u128;
        let q = (n + (b as u128) - 1) / (b as u128);
        proof {
            let ni = n as int;
            let bi = b as int;
            vstd::arithmetic::div_mod::lemma_fundamental_div_mod(ni, bi);
            vstd::arithmetic::div_mod::lemma_mod_division_less_than_divisor(ni, bi);
            let qq = ni / bi;
            let m = ni % bi;
            assert(0 <= qq <= ni) by (nonlinear_arith)
                requires
                    ni > 0,
                    bi > 0,
                    ni == bi * qq + m,
                    0 <= m < bi,
            ;
            if m == 0 {
                assert(ni + bi - 1 == qq * bi + (bi - 1)) by (nonlinear_arith)
                    requires
                        ni == bi * qq,
                ;
                vstd::arithmetic::div_mod::lemma_fundamental_div_mod_converse(
                    ni + bi - 1,
                    bi,
                    qq,
                    bi - 1,
                );
                assert(a as int == (-qq) * bi + 0) by (nonlinear_arith)
                    requires
                        ni == bi * qq,
                        a as int == -ni,
                ;
                vstd::arithmetic::div_mod::lemma_fundamental_div_mod_converse(a as int, bi, -qq, 0);
            } else {
                assert(ni + bi - 1 == (qq + 1) * bi + (m - 1)) by (nonlinear_arith)
                    requires
                        ni == bi * qq + m,
                ;
                vstd::arithmetic::div_mod::lemma_fundamental_div_mod_converse(
                    ni + bi - 1,
                    bi,
                    qq + 1,
                    m - 1,
                );
                assert(qq + 1 <= ni) by (nonlinear_arith)
                    requires
                        ni == bi * qq + m,
                        1 <= m,
                        bi >= 1,
                        qq >= 0,
                ;
                assert(a as int == (-(qq + 1)) * bi + (bi - m)) by (nonlinear_arith)
                    requires
                        ni == bi * qq + m,
                        a as int == -ni,
                ;
                vstd::arithmetic::div_mod::lemma_fundamental_div_mod_converse(
                    a as int,
                    bi,
                    -(qq + 1),
                    bi - m,
                );
            }
        }
        -(q as i128)
    }
}

/// The least of three values.
pub open spec fn min3(a: int, b: int, c: int) -> int {
    if a <= b && a <= c {
        a
    } else if b <= c {
        b
    } else {
        c
    }
}

/// The greatest of three values.
pub open spec fn max3(a: int, b: int, c: int) -> int {
    if a >= b && a >= c {
        a
    } else if b >= c {
        b
    } else {
        c
    }
}

pub fn min3e(a: i64, b: i64, c: i64) -> (r: i64)
    ensures
        r == min3(a as int, b as int, c as int),
{
    if a <= b && a <= c {
        a
    } else if b <= c {
        b
    } else {
        c
    }
}

pub fn max3e(a: i64, b: i64, c: i64) -> (r: i64)
    ensures
        r == max3(a as int, b as int, c as int),
{
    if a >= b && a >= c {
        a
    } else if b >= c {
        b
    } else {
        c
    }
}

/// An affine function of a screen point, `k + gx * px + gy * py`. The three
/// barycentric weight numerators of a fixed triangle all have this shape.
pub open spec fn affine_at(k: int, gx: int, gy: int, px: int, py: int) -> int {
    k + gx * px + gy * py
}

/// Sign facts about products that the box lemmas below need.
pub proof fn lemma_mul_signs(a: int, b: int)
    by (nonlinear_arith)
    ensures
        a >= 0 && b < 0 ==> a * b <= 0,
        a > 0 && b < 0 ==> a * b < 0,
        a >= 0 && b >= 0 ==> a * b >= 0,
        a > 0 && a * b < 0 ==> b < 0,
        a > 0 && a * b >= 0 ==> b >= 0,
{
}

/// The exact-interpolation identity along a horizontal segment: the value of
/// an affine function at an interior point, scaled by the segment length, is
/// the weighted sum of its values at the segment's ends.
pub proof fn lemma_affine_seg_x(k: int, gx: int, gy: int, x0: int, x1: int, px: int, py: int)
    by (nonlinear_arith)
    ensures
        (x1 - x0) * affine_at(k, gx, gy, px, py) == (x1 - px) * affine_at(k, gx, gy, x0, py)
            + (px - x0) * affine_at(k, gx, gy, x1, py),
{
}

/// The same identity along a vertical segment.
pub proof fn lemma_affine_seg_y(k: int, gx: int, gy: int, y0: int, y1: int, px: int, py: int)
    by (nonlinear_arith)
    ensures
        (y1 - y0) * affine_at(k, gx, gy, px, py) == (y1 - py) * affine_at(k, gx, gy, px, y0)
            + (py - y0) * affine_at(k, gx, gy, px, y1),
{
}

/// The sign of an affine function at one end of a segment carries to the
/// whole segment: this is the one-dimensional convexity step.
proof fn lemma_affine_seg_sign(f0: int, f1: int, fp: int, t0: int, t: int, t1: int)
    requires
        t0 <= t <= t1,
        (t1 - t0) * fp == (t1 - t) * f0 + (t - t0) * f1,
        t0 == t1 ==> fp == f0,
    ensures
        f0 < 0 && f1 < 0 ==> fp < 0,
        f0 >= 0 && f1 >= 0 ==> fp >= 0,
{
    if t0 == t1 {
    } else {
        lemma_mul_signs(t1 - t, f0);
        lemma_mul_signs(t - t0, f1);
        if f0 < 0 && f1 < 0 {
            if t < t1 {
                assert((t1 - t) * f0 < 0);
            } else {
                assert((t - t0) * f1 < 0);
            }
            lemma_mul_signs(t1 - t0, fp);
        }
        if f0 >= 0 && f1 >= 0 {
            lemma_mul_signs(t1 - t0, fp);
        }
    }
}

/// Convexity over an axis-aligned box: an affine function that is negative at
/// all four corners is negative at every point of the box, and one that is
/// nonnegative at all four corners is nonnegative at every point of the box.
pub proof fn lemma_affine_box(
    k: int,
    gx: int,
    gy: int,
    x0: int,
    y0: int,
    x1: int,
    y1: int,
    px: int,
    py: int,
)
    requires
        x0 <= px <= x1,
        y0 <= py <= y1,
    ensures
        affine_at(k, gx, gy, x0, y0) < 0 && affine_at(k, gx, gy, x1, y0) < 0 && affine_at(
            k,
            gx,
            gy,
            x0,
            y1,
        ) < 0 && affine_at(k, gx, gy, x1, y1) < 0 ==> affine_at(k, gx, gy, px, py) < 0,
        affine_at(k, gx, gy, x0, y0) >= 0 && affine_at(k, gx, gy, x1, y0) >= 0 && affine_at(
            k,
            gx,
            gy,
            x0,
            y1,
        ) >= 0 && affine_at(k, gx, gy, x1, y1) >= 0 ==> affine_at(k, gx, gy, px, py) >= 0,
{
    lemma_affine_seg_x(k, gx, gy, x0, x1, px, y0);
    lemma_affine_seg_sign(
        affine_at(k, gx, gy, x0, y0),
        affine_at(k, gx, gy, x1, y0),
        affine_at(k, gx, gy, px, y0),
        x0,
        px,
        x1,
    );
    lemma_affine_seg_x(k, gx, gy, x0, x1, px, y1);
    lemma_affine_seg_sign(
        affine_at(k, gx, gy, x0, y1),
        affine_at(k, gx, gy, x1, y1),
        affine_at(k, gx, gy, px, y1),
        x0,
        px,
        x1,
    );
    lemma_affine_seg_y(k, gx, gy, y0, y1, px, py);
    lemma_affine_seg_sign(
        affine_at(k, gx, gy, px, y0),
        affine_at(k, gx, gy, px, y1),
        affine_at(k, gx, gy, px, py),
        y0,
        py,
        y1,
    );
}

} // verus!
