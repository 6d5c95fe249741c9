use rusterize::interpolate::{Interpolate, Weights};
use rusterize::vmath::{Vec3i, Vec4i};
use rusterize::Triangle;

fn unit(w0: i64, w1: i64, w2: i64) -> Weights {
    Weights { w0, w1, w2, den: 1 }
}

#[test]
fn test_f32() {
    let v001: Triangle<i64> = Triangle::new(0, 0, 1);
    let v010: Triangle<i64> = Triangle::new(0, 1, 0);
    let v100: Triangle<i64> = Triangle::new(1, 0, 0);

    let s001 = unit(0, 0, 1);
    let s010 = unit(0, 1, 0);
    let s100 = unit(1, 0, 0);

    assert_eq!(Interpolate::interpolate(&v001, &s001), 1);
    assert_eq!(Interpolate::interpolate(&v001, &s010), 0);
    assert_eq!(Interpolate::interpolate(&v001, &s100), 0);

    assert_eq!(Interpolate::interpolate(&v010, &s001), 0);
    assert_eq!(Interpolate::interpolate(&v010, &s010), 1);
    assert_eq!(Interpolate::interpolate(&v010, &s100), 0);

    assert_eq!(Interpolate::interpolate(&v100, &s001), 0);
    assert_eq!(Interpolate::interpolate(&v100, &s010), 0);
    assert_eq!(Interpolate::interpolate(&v100, &s100), 1);
}

#[test]
fn test_f32_2() {
    let v001: Triangle<(i64, i64)> = Triangle::new((0, 0), (0, 0), (1, 2));
    let v010: Triangle<(i64, i64)> = Triangle::new((0, 0), (1, 2), (0, 0));
    let v100: Triangle<(i64, i64)> = Triangle::new((1, 2), (0, 0), (0, 0));

    let s001 = unit(0, 0, 1);
    let s010 = unit(0, 1, 0);
    let s100 = unit(1, 0, 0);

    assert_eq!(Interpolate::interpolate(&v001, &s001), (1, 2));
    assert_eq!(Interpolate::interpolate(&v001, &s010), (0, 0));
    assert_eq!(Interpolate::interpolate(&v001, &s100), (0, 0));

    assert_eq!(Interpolate::interpolate(&v010, &s001), (0, 0));
    assert_eq!(Interpolate::interpolate(&v010, &s010), (1, 2));
    assert_eq!(Interpolate::interpolate(&v010, &s100), (0, 0));

    assert_eq!(Interpolate::interpolate(&v100, &s001), (0, 0));
    assert_eq!(Interpolate::interpolate(&v100, &s010), (0, 0));
    assert_eq!(Interpolate::interpolate(&v100, &s100), (1, 2));
}

#[test]
fn test_f32_3() {
    let zero = Vec3i { x: 0, y: 0, z: 0 };
    let val = Vec3i { x: 1, y: 2, z: 3 };
    let v001 = Triangle::new(zero, zero, val);
    let v010 = Triangle::new(zero, val, zero);
    let v100 = Triangle::new(val, zero, zero);

    let s001 = unit(0, 0, 1);
    let s010 = unit(0, 1, 0);
    let s100 = unit(1, 0, 0);

    assert_eq!(Interpolate::interpolate(&v001, &s001), val);
    assert_eq!(Interpolate::interpolate(&v001, &s010), zero);
    assert_eq!(Interpolate::interpolate(&v001, &s100), zero);

    assert_eq!(Interpolate::interpolate(&v010, &s001), zero);
    assert_eq!(Interpolate::interpolate(&v010, &s010), val);
    assert_eq!(Interpolate::interpolate(&v010, &s100), zero);

    assert_eq!(Interpolate::interpolate(&v100, &s001), zero);
    assert_eq!(Interpolate::interpolate(&v100, &s010), zero);
    assert_eq!(Interpolate::interpolate(&v100, &s100), val);
}

#[test]
fn test_f32_4() {
    let zero = Vec4i { x: 0, y: 0, z: 0, w: 0 };
    let val = Vec4i { x: 1, y: 2, z: 3, w: 4 };
    let v001 = Triangle::new(zero, zero, val);
    let v010 = Triangle::new(zero, val, zero);
    let v100 = Triangle::new(val, zero, zero);

    let s001 = unit(0, 0, 1);
    let s010 = unit(0, 1, 0);
    let s100 = unit(1, 0, 0);

    assert_eq!(Interpolate::interpolate(&v001, &s001), val);
    assert_eq!(Interpolate::interpolate(&v001, &s010), zero);
    assert_eq!(Interpolate::interpolate(&v001, &s100), zero);

    assert_eq!(Interpolate::interpolate(&v010, &s001), zero);
    assert_eq!(Interpolate::interpolate(&v010, &s010), val);
    assert_eq!(Interpolate::interpolate(&v010, &s100), zero);

    assert_eq!(Interpolate::interpolate(&v100, &s001), zero);
    assert_eq!(Interpolate::interpolate(&v100, &s010), zero);
    assert_eq!(Interpolate::interpolate(&v100, &s100), val);
}

#[test]
fn interpolate_midpoint() {
    let tri: Triangle<i64> = Triangle::new(0, 300, 600);
    let w = Weights { w0: 1, w1: 1, w2: 1, den: 3 };
    assert_eq!(Interpolate::interpolate(&tri, &w), 300);
    let w2 = Weights { w0: 2, w1: 1, w2: 1, den: 4 };
    assert_eq!(Interpolate::interpolate(&tri, &w2), 225);
}

#[test]
fn interpolate_flat() {
    let tri = Triangle::new(
        rusterize::Flat(7i64),
        rusterize::Flat(8i64),
        rusterize::Flat(9i64),
    );
    let w = Weights { w0: 0, w1: 0, w2: 1, den: 1 };
    assert_eq!(Interpolate::interpolate(&tri, &w), 7);
}
