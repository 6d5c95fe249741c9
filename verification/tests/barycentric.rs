use rusterize::tile::{TileIndex, TileMask};
use rusterize::vmath::{floor_div, max3e, min3e, Vec2i, Vec3i};
use rusterize::vmath::Dot;
use rusterize::{is_backface, to_screen, Barycentric, Triangle};

fn tri2(ax: i64, ay: i64, bx: i64, by: i64, cx: i64, cy: i64) -> Triangle<Vec2i> {
    Triangle::new(Vec2i::new(ax, ay), Vec2i::new(bx, by), Vec2i::new(cx, cy))
}

#[test]
fn weights_sum_and_corners() {
    let t = tri2(0, 0, 4, 0, 0, 4);
    let b = Barycentric::new(&t);
    assert_eq!(b.den, 16);

    // At the three corners the weights are exactly (1,0,0), (0,1,0), (0,0,1).
    let ca = b.coordinate(Vec2i::new(0, 0));
    assert_eq!((ca.u_num, ca.v_num), (0, 0));
    let wa = ca.weights();
    assert_eq!((wa.w0, wa.w1, wa.w2, wa.den), (16, 0, 0, 16));

    let cb = b.coordinate(Vec2i::new(4, 0));
    assert_eq!((cb.u_num, cb.v_num), (16, 0));
    let cc = b.coordinate(Vec2i::new(0, 4));
    assert_eq!((cc.u_num, cc.v_num), (0, 16));

    // The three weights always sum to the denominator: weights sum to one.
    for px in -3i64..8 {
        for py in -3i64..8 {
            let c = b.coordinate(Vec2i::new(px, py));
            let w = c.weights();
            assert_eq!(w.w0 + w.w1 + w.w2, w.den);
        }
    }
}

#[test]
fn inside_iff_nonnegative_weights() {
    let t = tri2(0, 0, 4, 0, 0, 4);
    let b = Barycentric::new(&t);
    for px in -3i64..8 {
        for py in -3i64..8 {
            let c = b.coordinate(Vec2i::new(px, py));
            let w = c.weights();
            let expect = w.w0 >= 0 && w.w1 >= 0 && w.w2 >= 0;
            assert_eq!(c.inside(), expect);
        }
    }
    // A point strictly outside one edge is rejected.
    assert!(!b.coordinate(Vec2i::new(-1, 2)).inside());
    assert!(!b.coordinate(Vec2i::new(3, 2)).inside());
    assert!(b.coordinate(Vec2i::new(1, 1)).inside());
}

#[test]
fn degenerate_triangle_contains_nothing() {
    let t = tri2(5, 5, 5, 5, 5, 5);
    let b = Barycentric::new(&t);
    assert_eq!(b.den, 0);
    assert!(!b.coordinate(Vec2i::new(5, 5)).inside());
}

#[test]
fn fast_reject_never_loses_a_pixel() {
    // Random-ish boxes against a fixed triangle: a rejected box must hold
    // no inside pixel.
    let t = tri2(3, 1, 17, 6, 5, 19);
    let b = Barycentric::new(&t);
    let mut rejected = 0;
    for bx in -10i64..25 {
        for by in -10i64..25 {
            let s = ((bx * 7 + by * 13).rem_euclid(9)) as i64;
            if b.tile_fast_check(Vec2i::new(bx, by), s) {
                rejected += 1;
                for px in bx..=bx + s {
                    for py in by..=by + s {
                        assert!(!b.coordinate(Vec2i::new(px, py)).inside());
                    }
                }
            }
        }
    }
    assert!(rejected > 0);
}

#[test]
fn fully_covered_never_invents_a_pixel() {
    let t = tri2(-20, -20, 40, -20, -20, 40);
    let b = Barycentric::new(&t);
    let mut covered = 0;
    for bx in -24i64..20 {
        for by in -24i64..20 {
            let s = ((bx * 5 + by * 11).rem_euclid(7)) as i64;
            if b.tile_covered(Vec2i::new(bx, by), s) {
                covered += 1;
                for px in bx..=bx + s {
                    for py in by..=by + s {
                        assert!(b.coordinate(Vec2i::new(px, py)).inside());
                    }
                }
            }
        }
    }
    assert!(covered > 0);
}

#[test]
fn block_weights_match_scalar_weights() {
    let t = tri2(1, 2, 30, 5, 4, 28);
    let b = Barycentric::new(&t);
    let (ub, vb) = b.coordinate_block(2, 3);
    for i in 0..64usize {
        let px = 2 + (i % 8) as i64;
        let py = 3 + (i / 8) as i64;
        let c = b.coordinate(Vec2i::new(px, py));
        assert_eq!(ub.lane(i), c.u_num);
        assert_eq!(vb.lane(i), c.v_num);
    }
}

#[test]
fn mask_visits_each_covered_pixel_once_ascending() {
    let t = tri2(0, 0, 12, 0, 0, 12);
    let b = Barycentric::new(&t);
    let m = TileMask::new(0, 0, &b);
    let mut it = m.iter();
    let mut seen = [false; 64];
    let mut last: i64 = -1;
    loop {
        match it.next() {
            None => break,
            Some((idx, w)) => {
                let i = idx.0 as usize;
                assert!(i < 64);
                assert!((i as i64) > last);
                last = i as i64;
                assert!(!seen[i]);
                seen[i] = true;
                assert!(w.w0 >= 0 && w.w1 >= 0 && w.w2 >= 0);
                assert_eq!(w.w0 + w.w1 + w.w2, w.den);
            },
        }
    }
    for i in 0..64usize {
        let px = (i % 8) as i64;
        let py = (i / 8) as i64;
        let inside = b.coordinate(Vec2i::new(px, py)).inside();
        assert_eq!(seen[i], inside);
    }
}

#[test]
fn tile_index_round_trip() {
    let idx = TileIndex::from_xy(3, 5);
    assert_eq!(idx.0, 43);
    assert_eq!(idx.x(), 3);
    assert_eq!(idx.y(), 5);
    assert_eq!(idx.x8(), 24);
    assert_eq!(idx.y8(), 40);
}

#[test]
fn backface_pair() {
    let t = Triangle::new(Vec3i::new(0, 0, 0), Vec3i::new(8, 0, 0), Vec3i::new(0, 8, 0));
    let rev = Triangle::new(t.x, t.z, t.y);
    let a = is_backface(&t);
    let b = is_backface(&rev);
    assert!(a != b);

    let degen = Triangle::new(Vec3i::new(1, 1, 0), Vec3i::new(1, 1, 0), Vec3i::new(1, 1, 0));
    let degen_rev = Triangle::new(degen.x, degen.z, degen.y);
    assert!(is_backface(&degen) && is_backface(&degen_rev));
}

#[test]
fn floor_division_rounds_down() {
    assert_eq!(floor_div(7, 2), 3);
    assert_eq!(floor_div(-7, 2), -4);
    assert_eq!(floor_div(-8, 2), -4);
    assert_eq!(floor_div(0, 5), 0);
    assert_eq!(floor_div(-1, 1048576), -1);
}

#[test]
fn min_max_of_three() {
    assert_eq!(min3e(3, -2, 7), -2);
    assert_eq!(max3e(3, -2, 7), 7);
    assert_eq!(min3e(5, 5, 5), 5);
}

#[test]
fn screen_transform() {
    // Center of clip space lands at the viewport center.
    let p = rusterize::vmath::Vec4i::new(0, 0, 0, 65536);
    assert_eq!(to_screen(p, 32, 32), Some((32, 32, 0)));
    // x/w == 1 lands at the right edge, y flipped.
    let p2 = rusterize::vmath::Vec4i::new(65536, 65536, 0, 65536);
    assert_eq!(to_screen(p2, 32, 32), Some((64, 0, 0)));
    // w == 0 has no screen position.
    let p3 = rusterize::vmath::Vec4i::new(1, 2, 3, 0);
    assert_eq!(to_screen(p3, 32, 32), None);
    // Negative w mirrors through the origin consistently.
    let p4 = rusterize::vmath::Vec4i::new(-65536, 0, 0, -65536);
    assert_eq!(to_screen(p4, 32, 32), Some((64, 32, 0)));
}

#[test]
fn dot_product() {
    assert_eq!(Vec2i::new(3, 4).dot(Vec2i::new(2, 5)), 26);
}
