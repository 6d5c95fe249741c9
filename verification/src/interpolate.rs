//! Barycentric interpolation of vertex payloads: exact rational weights
//! applied to integer payload components.

use vstd::prelude::*;

use crate::vmath::{floor_div, lemma_mul_bound2, Vec3i, Vec4i};
use crate::{Triangle, DEN_LIMIT};

verus! {

/// Largest magnitude of an interpolatable payload component.
pub const PAYLOAD_LIMIT: i64 = 0x10_0000;

/// The exact barycentric weights of one pixel: three numerators over a
/// shared positive denominator, summing to that denominator.
#[derive(Clone, Copy, Debug, PartialEq, Eq, Structural)]
pub struct Weights {
    pub w0: i64,
    pub w1: i64,
    pub w2: i64,
    pub den: i64,
}

impl Weights {
    /// Weights of a pixel inside a triangle: nonnegative, bounded by the
    /// denominator, and summing to it.
    pub open spec fn wf(self) -> bool {
        &&& 0 < self.den <= DEN_LIMIT
        &&& 0 <= self.w0 <= self.den
        &&& 0 <= self.w1 <= self.den
        &&& 0 <= self.w2 <= self.den
        &&& self.w0 + self.w1 + self.w2 == self.den
    }
}

/// Combine a triangle's three scalar payload components with the weights:
/// the exact rational combination, rounded toward negative infinity.
pub open spec fn combine_spec(a: int, b: int, c: int, w: Weights) -> int {
    (a * w.w0 + b * w.w1 + c * w.w2) / (w.den as int)
}

/// One scalar channel of interpolation.
fn combine(a: i64, b: i64, c: i64, w: &Weights) -> (r: i64)
    requires
        w.wf(),
        -PAYLOAD_LIMIT <= a <= PAYLOAD_LIMIT,
        -PAYLOAD_LIMIT <= b <= PAYLOAD_LIMIT,
        -PAYLOAD_LIMIT <= c <= PAYLOAD_LIMIT,
    ensures
        r == combine_spec(a as int, b as int, c as int, *w),
{
    proof {
        assert(0x10_0000 * 0x8_0000_0000 == 0x80_0000_0000_0000) by (nonlinear_arith);
        lemma_mul_bound2(a as int, w.w0 as int, PAYLOAD_LIMIT as int, DEN_LIMIT as int);
        lemma_mul_bound2(b as int, w.w1 as int, PAYLOAD_LIMIT as int, DEN_LIMIT as int);
        lemma_mul_bound2(c as int, w.w2 as int, PAYLOAD_LIMIT as int, DEN_LIMIT as int);
    }
    let num = a * w.w0 + b * w.w1 + c * w.w2;
    floor_div(num, w.den)
}

/// Deterministic interpolation of a payload across a triangle from one
/// weight triple.
pub trait Interpolate: Sized {
    type Out;

    /// When a triangle of this payload may be interpolated (component
    /// bounds, so products with weights stay exact).
    spec fn wf_tri(t: &Triangle<Self>) -> bool;

    /// The interpolated value as a function of triangle and weights.
    spec fn interpolate_spec(t: &Triangle<Self>, w: Weights) -> Self::Out;

    fn interpolate(t: &Triangle<Self>, w: &Weights) -> (r: Self::Out)
        requires
            Self::wf_tri(t),
            w.wf(),
        ensures
            r == Self::interpolate_spec(t, *w),
    ;
}

impl Interpolate for i64 {
    type Out = i64;

    open spec fn wf_tri(t: &Triangle<i64>) -> bool {
        &&& -PAYLOAD_LIMIT <= t.x <= PAYLOAD_LIMIT
        &&& -PAYLOAD_LIMIT <= t.y <= PAYLOAD_LIMIT
        &&& -PAYLOAD_LIMIT <= t.z <= PAYLOAD_LIMIT
    }

    open spec fn interpolate_spec(t: &Triangle<i64>, w: Weights) -> i64 {
        combine_spec(t.x as int, t.y as int, t.z as int, w) as i64
    }

    fn interpolate(t: &Triangle<i64>, w: &Weights) -> (r: i64) {
        combine(t.x, t.y, t.z, w)
    }
}

impl Interpolate for Vec3i {
    type Out = Vec3i;

    open spec fn wf_tri(t: &Triangle<Vec3i>) -> bool {
        &&& t.x.bounded(PAYLOAD_LIMIT as int)
        &&& t.y.bounded(PAYLOAD_LIMIT as int)
        &&& t.z.bounded(PAYLOAD_LIMIT as int)
    }

    open spec fn interpolate_spec(t: &Triangle<Vec3i>, w: Weights) -> Vec3i {
        Vec3i {
            x: combine_spec(t.x.x as int, t.y.x as int, t.z.x as int, w) as i64,
            y: combine_spec(t.x.y as int, t.y.y as int, t.z.y as int, w) as i64,
            z: combine_spec(t.x.z as int, t.y.z as int, t.z.z as int, w) as i64,
        }
    }

    fn interpolate(t: &Triangle<Vec3i>, w: &Weights) -> (r: Vec3i) {
        Vec3i {
            x: combine(t.x.x, t.y.x, t.z.x, w),
            y: combine(t.x.y, t.y.y, t.z.y, w),
            z: combine(t.x.z, t.y.z, t.z.z, w),
        }
    }
}

impl Interpolate for Vec4i {
    type Out = Vec4i;

    open spec fn wf_tri(t: &Triangle<Vec4i>) -> bool {
        &&& t.x.bounded(PAYLOAD_LIMIT as int)
        &&& t.y.bounded(PAYLOAD_LIMIT as int)
        &&& t.z.bounded(PAYLOAD_LIMIT as int)
    }

    open spec fn interpolate_spec(t: &Triangle<Vec4i>, w: Weights) -> Vec4i {
        Vec4i {
            x: combine_spec(t.x.x as int, t.y.x as int, t.z.x as int, w) as i64,
            y: combine_spec(t.x.y as int, t.y.y as int, t.z.y as int, w) as i64,
            z: combine_spec(t.x.z as int, t.y.z as int, t.z.z as int, w) as i64,
            w: combine_spec(t.x.w as int, t.y.w as int, t.z.w as int, w) as i64,
        }
    }

    fn interpolate(t: &Triangle<Vec4i>, w: &Weights) -> (r: Vec4i) {
        Vec4i {
            x: combine(t.x.x, t.y.x, t.z.x, w),
            y: combine(t.x.y, t.y.y, t.z.y, w),
            z: combine(t.x.z, t.y.z, t.z.z, w),
            w: combine(t.x.w, t.y.w, t.z.w, w),
        }
    }
}

/// A payload interpolated by carrying the first vertex's value across the
/// whole triangle: flat shading.
#[derive(Clone, Copy, Debug, PartialEq, Eq, Structural)]
pub struct Flat<T>(pub T);

impl<T: Copy> Interpolate for Flat<T> {
    type Out = T;

    open spec fn wf_tri(t: &Triangle<Flat<T>>) -> bool {
        true
    }

    open spec fn interpolate_spec(t: &Triangle<Flat<T>>, w: Weights) -> T {
        t.x.0
    }

    fn interpolate(t: &Triangle<Flat<T>>, w: &Weights) -> (r: T) {
        t.x.0
    }
}

impl<A: Interpolate + Copy, B: Interpolate + Copy> Interpolate for (A, B) {
    type Out = (A::Out, B::Out);

    open spec fn wf_tri(t: &Triangle<(A, B)>) -> bool {
        &&& A::wf_tri(&(Triangle { x: t.x.0, y: t.y.0, z: t.z.0 }))
        &&& B::wf_tri(&(Triangle { x: t.x.1, y: t.y.1, z: t.z.1 }))
    }

    open spec fn interpolate_spec(t: &Triangle<(A, B)>, w: Weights) -> (A::Out, B::Out) {
        (
            A::interpolate_spec(&(Triangle { x: t.x.0, y: t.y.0, z: t.z.0 }), w),
            B::interpolate_spec(&(Triangle { x: t.x.1, y: t.y.1, z: t.z.1 }), w),
        )
    }

    fn interpolate(t: &Triangle<(A, B)>, w: &Weights) -> (r: (A::Out, B::Out)) {
        let ta = Triangle::new(t.x.0, t.y.0, t.z.0);
        let tb = Triangle::new(t.x.1, t.y.1, t.z.1);
        (A::interpolate(&ta, w), B::interpolate(&tb, w))
    }
}

} // verus!
