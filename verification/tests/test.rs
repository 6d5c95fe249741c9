use rusterize::pipeline::{ChannelShade, SetColor};
use rusterize::vmath::{Vec3i, Vec4i};
use rusterize::{Color, Flat, Frame, Triangle};

const SIZE: u32 = 64;
const S: i64 = 65536;

const WHITE: Color = Color { r: 255, g: 255, b: 255, a: 255 };
const GRAY: Color = Color { r: 128, g: 128, b: 128, a: 255 };
const BG: Color = Color { r: 0, g: 0, b: 0, a: 255 };

/// Two front-facing triangles covering the clip-space square
/// `[-hx, hx] x [-hy, hy]` at depth `z`, with clip scale `s`.
fn square(hx: i64, hy: i64, z: i64, s: i64) -> Vec<Triangle<Vec4i>> {
    let a = Vec4i::new(-hx, -hy, z, s);
    let b = Vec4i::new(hx, -hy, z, s);
    let c = Vec4i::new(hx, hy, z, s);
    let d = Vec4i::new(-hx, hy, z, s);
    vec![Triangle::new(a, d, c), Triangle::new(a, c, b)]
}

fn solid(c: Color) -> SetColor {
    SetColor { color: c }
}

#[test]
fn plane_simple() {
    let mut frame = Frame::new(SIZE, SIZE);
    let plane = square(S / 2, S / 2, 0, S);
    frame.raster(&plane, &solid(WHITE));
    let buf = frame.to_buffer();
    // The plane covers the screen square [16, 48] x [16, 48].
    assert_eq!(buf.get(32, 32), WHITE);
    assert_eq!(buf.get(16, 16), WHITE);
    assert_eq!(buf.get(48, 48), WHITE);
    assert_eq!(buf.get(15, 15), BG);
    assert_eq!(buf.get(49, 49), BG);
    assert_eq!(buf.get(0, 0), BG);
}

#[test]
fn plane_backface() {
    let mut frame = Frame::new(SIZE, SIZE);
    // Reverse each triangle's winding: everything is culled.
    let plane: Vec<Triangle<Vec4i>> = square(S / 2, S / 2, 0, S)
        .iter()
        .map(|t| Triangle::new(t.x, t.z, t.y))
        .collect();
    frame.raster(&plane, &solid(WHITE));
    let buf = frame.to_buffer();
    for y in 0..SIZE {
        for x in 0..SIZE {
            assert_eq!(buf.get(x, y), BG);
        }
    }
}

#[test]
fn plane_fill() {
    let mut frame = Frame::new(SIZE, SIZE);
    let plane = square(S, S, 0, S);
    frame.raster(&plane, &solid(WHITE));
    let buf = frame.to_buffer();
    for y in 0..SIZE {
        for x in 0..SIZE {
            assert_eq!(buf.get(x, y), WHITE);
        }
    }
}

#[test]
fn plane_overfill() {
    let mut frame = Frame::new(SIZE, SIZE);
    // A plane a hundred times the frustum still fills the whole frame.
    let plane = square(100 * 1024, 100 * 1024, 0, 1024);
    frame.raster(&plane, &solid(WHITE));
    let buf = frame.to_buffer();
    for y in 0..SIZE {
        for x in 0..SIZE {
            assert_eq!(buf.get(x, y), WHITE);
        }
    }
}

#[test]
fn plane_back_front() {
    let mut frame = Frame::new(SIZE, SIZE);
    frame.raster(&square(S, S, 0, S), &solid(WHITE));
    frame.raster(&square(S, S, S / 2, S), &solid(GRAY));
    let buf = frame.to_buffer();
    // The nearer (first) plane keeps every pixel.
    for y in 0..SIZE {
        for x in 0..SIZE {
            assert_eq!(buf.get(x, y), WHITE);
        }
    }
}

#[test]
fn plane_front_back() {
    let mut frame = Frame::new(SIZE, SIZE);
    frame.raster(&square(S, S, S / 2, S), &solid(WHITE));
    frame.raster(&square(S, S, 0, S), &solid(GRAY));
    let buf = frame.to_buffer();
    // The nearer (second) plane overwrites every pixel.
    for y in 0..SIZE {
        for x in 0..SIZE {
            assert_eq!(buf.get(x, y), GRAY);
        }
    }
}

#[test]
fn depth_commutes_across_order() {
    // The same two planes with the same colors, submitted in both orders,
    // give identical images: the nearer one wins either way.
    let near = square(S, S, 0, S);
    let far = square(S, S, S / 2, S);

    let mut f1 = Frame::new(SIZE, SIZE);
    f1.raster(&near, &solid(WHITE));
    f1.raster(&far, &solid(GRAY));
    let b1 = f1.to_buffer();

    let mut f2 = Frame::new(SIZE, SIZE);
    f2.raster(&far, &solid(GRAY));
    f2.raster(&near, &solid(WHITE));
    let b2 = f2.to_buffer();

    for y in 0..SIZE {
        for x in 0..SIZE {
            assert_eq!(b1.get(x, y), b2.get(x, y));
        }
    }
}

#[test]
fn triangle() {
    let mut frame = Frame::new(SIZE, SIZE);
    let a = (Vec4i::new(-S / 2, -S / 2, 0, S), Vec3i::new(255, 0, 0));
    let b = (Vec4i::new(S / 2, -S / 2, 0, S), Vec3i::new(0, 255, 0));
    let c = (Vec4i::new(0, S / 2, 0, S), Vec3i::new(0, 0, 255));
    let tris = vec![Triangle::new(a, c, b)];
    frame.raster(&tris, &ChannelShade);
    let buf = frame.to_buffer();
    // Screen corners: a -> (16, 48), b -> (48, 48), c -> (32, 16).
    let near_a = buf.get(17, 47);
    assert!(near_a.r > 200 && near_a.g < 60 && near_a.b < 60);
    let near_b = buf.get(47, 47);
    assert!(near_b.g > 200 && near_b.r < 60 && near_b.b < 60);
    let near_c = buf.get(32, 17);
    assert!(near_c.b > 200 && near_c.r < 60 && near_c.g < 60);
    // Interpolated channels always sum close to one corner's worth.
    let mid = buf.get(32, 38);
    let sum = mid.r as i32 + mid.g as i32 + mid.b as i32;
    assert!(252 <= sum && sum <= 255);
    assert_eq!(buf.get(2, 2), BG);
}

#[test]
fn triangle_flat() {
    let mut frame = Frame::new(SIZE, SIZE);
    let color = Vec3i::new(200, 10, 10);
    let a = (Vec4i::new(-S / 2, -S / 2, 0, S), Flat(color));
    let b = (Vec4i::new(S / 2, -S / 2, 0, S), Flat(color));
    let c = (Vec4i::new(0, S / 2, 0, S), Flat(color));
    let tris = vec![Triangle::new(a, c, b)];
    frame.raster(&tris, &ChannelShade);
    let buf = frame.to_buffer();
    let expected = Color { r: 200, g: 10, b: 10, a: 255 };
    assert_eq!(buf.get(32, 32), expected);
    assert_eq!(buf.get(17, 47), expected);
    assert_eq!(buf.get(2, 2), BG);
}

#[test]
fn full_tile_coverage() {
    // A triangle with screen corners (0,0), (256,0), (0,256) covers every
    // one of the 4096 pixels of the 64x64 frame.
    let mut frame = Frame::new(SIZE, SIZE);
    let a = Vec4i::new(-S, S, 0, S);
    let b = Vec4i::new(7 * S, S, 0, S);
    let c = Vec4i::new(-S, -7 * S, 0, S);
    let tris = vec![Triangle::new(a, b, c)];
    frame.raster(&tris, &solid(WHITE));
    let buf = frame.to_buffer();
    for y in 0..SIZE {
        for x in 0..SIZE {
            assert_eq!(buf.get(x, y), WHITE);
        }
    }
}

#[test]
fn subpixel_triangle() {
    // A triangle smaller than a pixel collapses to a degenerate screen
    // triangle and produces no fragment at all.
    let mut frame = Frame::new(SIZE, SIZE);
    let s = 640 * S;
    let a = Vec4i::new(-s, s, 0, s);
    let b = Vec4i::new(-s + S, s - S, 0, s);
    let c = Vec4i::new(-s, s - S, 0, s);
    let tris = vec![Triangle::new(a, b, c)];
    frame.raster(&tris, &solid(WHITE));
    let buf = frame.to_buffer();
    for y in 0..SIZE {
        for x in 0..SIZE {
            assert_eq!(buf.get(x, y), BG);
        }
    }
}

#[test]
fn buffer_clear() {
    let mut frame = Frame::new(SIZE, SIZE);
    frame.raster(&square(S, S, 0, S), &solid(WHITE));
    frame.clear();
    let buf = frame.to_buffer();
    for y in 0..SIZE {
        for x in 0..SIZE {
            assert_eq!(buf.get(x, y), BG);
        }
    }
    // The depth state was reset too: a far plane is visible again.
    frame.raster(&square(S, S, S / 2, S), &solid(GRAY));
    let buf2 = frame.to_buffer();
    assert_eq!(buf2.get(32, 32), GRAY);
}

#[test]
fn binning_routes_triangles_to_overlapped_tiles() {
    // A 128x128 frame has a 2x2 grid of macro-tiles; a triangle confined
    // to the top-left tile must be queued there and nowhere else.
    let frame = Frame::new(128, 128);
    let a = Vec4i::new(-S, S, 0, S);
    let b = Vec4i::new(-S / 4, S, 0, S);
    let c = Vec4i::new(-S, S / 4, 0, S);
    let tris = vec![Triangle::new(a, b, c)];
    let queues = frame.bin(&tris);
    assert_eq!(queues.len(), 4);
    assert_eq!(queues[0].len(), 1);
    assert_eq!(queues[0][0].index, 0);
    assert_eq!(queues[0][0].tri.x.x, 0);
    assert_eq!(queues[0][0].tri.x.y, 0);
    assert_eq!(queues[0][0].tri.y.x, 48);
    assert_eq!(queues[0][0].tri.z.y, 48);
    assert!(queues[1].is_empty() && queues[2].is_empty() && queues[3].is_empty());

    // A backface is queued nowhere.
    let rev = vec![Triangle::new(a, c, b)];
    let queues2 = frame.bin(&rev);
    for q in &queues2 {
        assert!(q.is_empty());
    }
}
