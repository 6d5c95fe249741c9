//! The 8x8 leaf tile and its occupancy/depth mask, and the 64x64 tile group
//! that culls coarse boxes before descending to leaves.

use vstd::prelude::*;

use crate::interpolate::{Interpolate, Weights};
use crate::lanes::{
    bit64, lemma_bit64_and, lemma_bit64_clear, lemma_bit64_clear_decreases, lemma_bit64_lowest,
    lemma_bit64_not, lemma_bit64_or, lemma_bit64_zero, Block64,
};
use crate::pipeline::Fragment;
use crate::vmath::{floor_div, lemma_mul_bound2, Vec2i, Vec3i};
use crate::{Barycentric, Triangle, DEN_LIMIT, EVAL_LIMIT, NUM_LIMIT};

verus! {

/// The depth a cleared buffer holds: the far plane, behind every accepted
/// fragment.
pub const DEPTH_FAR: i64 = 0x10_0000;

/// Largest magnitude of a triangle's corner depth.
pub const Z_LIMIT: i64 = 0x20_0000;

/// The occupancy/depth mask of one 8x8 tile for one triangle: the two free
/// weight numerators of all 64 pixels, the shared denominator, and a 64-bit
/// mask of the pixels still in play.
pub struct TileMask {
    pub u: Block64,
    pub v: Block64,
    pub den: i64,
    pub mask: u64,
}

impl TileMask {
    pub open spec fn wf(self) -> bool {
        &&& self.u.wf()
        &&& self.v.wf()
        &&& self.u.bounded(NUM_LIMIT as int)
        &&& self.v.bounded(NUM_LIMIT as int)
        &&& 0 <= self.den <= DEN_LIMIT
        &&& forall|i: int|
            0 <= i < 64 && #[trigger] bit64(self.mask, i) ==> self.den > 0 && self.u.view()[i] >= 0
                && self.v.view()[i] >= 0 && self.u.view()[i] + self.v.view()[i] <= self.den
    }

    /// The lanes hold the weight numerators of `b` at the 8x8 block whose
    /// top-left pixel is `(x, y)`.
    pub open spec fn is_block_of(self, b: Barycentric, x: int, y: int) -> bool {
        &&& self.den == b.den
        &&& forall|i: int|
            0 <= i < 64 ==> #[trigger] self.u.view()[i] == b.u_num(x + i % 8, y + i / 8)
        &&& forall|i: int|
            0 <= i < 64 ==> #[trigger] self.v.view()[i] == b.v_num(x + i % 8, y + i / 8)
    }

    /// The quantized interpolated depth of lane `i` against corner depths
    /// `z`, over this mask's own lanes.
    pub open spec fn lane_depth_q(self, z: Vec3i, i: int) -> int {
        ((self.den - self.u.view()[i] - self.v.view()[i]) * z.x + self.u.view()[i] * z.y
            + self.v.view()[i] * z.z) / (self.den as int)
    }

    /// Build the occupancy mask for one tile: evaluate both free weights
    /// over the block, derive the third, and pack "all three nonnegative"
    /// into one bit per pixel.
    pub fn new(x: i64, y: i64, bary: &Barycentric) -> (r: TileMask)
        requires
            bary.wf(),
            -EVAL_LIMIT <= x,
            x + 7 <= EVAL_LIMIT,
            -EVAL_LIMIT <= y,
            y + 7 <= EVAL_LIMIT,
        ensures
            r.wf(),
            r.is_block_of(*bary, x as int, y as int),
            forall|i: int|
                0 <= i < 64 ==> #[trigger] bit64(r.mask, i) == bary.inside(x + i % 8, y + i / 8),
    {
        let (u, v) = bary.coordinate_block(x, y);
        if bary.den == 0 {
            proof {
                assert forall|i: int| 0 <= i < 64 implies !#[trigger] bit64(0u64, i) by {
                    lemma_bit64_zero(i);
                }
            }
            return TileMask { u, v, den: 0, mask: 0 };
        }
        let w0 = Block64::broadcast(bary.den).minus(&u).minus(&v);
        let su = u.sign_mask();
        let sv = v.sign_mask();
        let sw = w0.sign_mask();
        let mask = !(su | sv | sw);
        proof {
            assert forall|i: int| 0 <= i < 64 implies #[trigger] bit64(mask, i) == bary.inside(
                x + i % 8,
                y + i / 8,
            ) by {
                lemma_bit64_or(su, sv, i);
                lemma_bit64_or(su | sv, sw, i);
                lemma_bit64_not(su | sv | sw, i);
            }
        }
        TileMask { u, v, den: bary.den, mask }
    }

    /// Intersect the occupancy mask with the depth test and update the
    /// stored depths: a lane survives when it was occupied, its quantized
    /// depth is nonnegative, and it is strictly nearer than the stored
    /// depth; exactly the surviving lanes get the new depth.
    pub fn mask_with_depth(&mut self, z: &Vec3i, d: &mut Block64)
        requires
            old(self).wf(),
            z.bounded(Z_LIMIT as int),
            old(d).wf(),
            old(d).bounded(Z_LIMIT as int),
        ensures
            final(self).wf(),
            final(self).u == old(self).u,
            final(self).v == old(self).v,
            final(self).den == old(self).den,
            final(d).wf(),
            forall|i: int|
                0 <= i < 64 ==> #[trigger] bit64(final(self).mask, i) == (bit64(old(self).mask, i)
                    && 0 <= old(self).lane_depth_q(*z, i) < old(d).view()[i]),
            forall|i: int|
                0 <= i < 64 ==> #[trigger] final(d).view()[i] == if bit64(final(self).mask, i) {
                    old(self).lane_depth_q(*z, i)
                } else {
                    old(d).view()[i]
                },
            forall|i: int|
                0 <= i < 64 ==> 0 <= #[trigger] final(d).view()[i] <= Z_LIMIT || final(d).view()[i]
                    == old(d).view()[i],
    {
        if self.mask == 0 {
            proof {
                assert forall|i: int| 0 <= i < 64 implies !#[trigger] bit64(self.mask, i) by {
                    lemma_bit64_zero(i);
                }
            }
            return ;
        }
        proof {
            lemma_bit64_lowest(self.mask);
        }
        let mut qs: Vec<i64> = Vec::new();
        let mut i: usize = 0;
        while i < 64
            invariant
                i <= 64,
                qs.len() == i,
                self.wf(),
                self.den > 0,
                z.bounded(Z_LIMIT as int),
                forall|j: int| 0 <= j < i ==> #[trigger] qs[j] == self.lane_depth_q(*z, j),
                forall|j: int|
                    0 <= j < i ==> -0x2000_0000_0000_0000 <= #[trigger] qs[j]
                        <= 0x2000_0000_0000_0000,
            decreases 64 - i,
        {
            proof {
                assert(0x10_0000_0000 * 2 + 0x8_0000_0000 <= 0x40_0000_0000) by (nonlinear_arith);
                assert(0x40_0000_0000 * 0x20_0000 == 0x800_0000_0000_0000) by (nonlinear_arith);
                lemma_mul_bound2(
                    self.den - self.u.view()[i as int] - self.v.view()[i as int],
                    z.x as int,
                    0x40_0000_0000,
                    Z_LIMIT as int,
                );
                lemma_mul_bound2(self.u.view()[i as int], z.y as int, 0x40_0000_0000, Z_LIMIT as int);
                lemma_mul_bound2(self.v.view()[i as int], z.z as int, 0x40_0000_0000, Z_LIMIT as int);
            }
            let ui = self.u.lane(i);
            let vi = self.v.lane(i);
            let num = (self.den - ui - vi) * z.x + ui * z.y + vi * z.z;
            let q = floor_div(num, self.den);
            qs.push(q);
            i = i + 1;
        }
        let qb = Block64 { lanes: qs };
        proof {
            assert(qb.wf());
            assert forall|j: int| 0 <= j < 64 implies -0x2000_0000_0000_0000
                <= #[trigger] qb.view()[j] <= 0x2000_0000_0000_0000 by {}
            assert forall|j: int| 0 <= j < 64 implies -0x2000_0000_0000_0000
                <= #[trigger] d.view()[j] <= 0x2000_0000_0000_0000 by {}
        }
        let diff = qb.minus(d);
        let sd = diff.sign_mask();
        let sq = qb.sign_mask();
        let accept = self.mask & sd & !sq;
        proof {
            assert forall|i: int| 0 <= i < 64 implies #[trigger] bit64(accept, i) == (bit64(
                old(self).mask,
                i,
            ) && 0 <= old(self).lane_depth_q(*z, i) < old(d).view()[i]) by {
                lemma_bit64_and(self.mask, sd, i);
                lemma_bit64_and(self.mask & sd, !sq, i);
                lemma_bit64_not(sq, i);
            }
        }
        d.replace(&qb, accept);
        self.mask = accept;
    }

    /// Hand the mask off for fragment enumeration.
    pub fn iter(self) -> (r: TileMaskIter)
        requires
            self.wf(),
        ensures
            r.wf(),
            r.u == self.u,
            r.v == self.v,
            r.den == self.den,
            r.mask == self.mask,
    {
        TileMaskIter { u: self.u, v: self.v, den: self.den, mask: self.mask }
    }
}

/// Index of one pixel within an 8x8 tile: bit position `y * 8 + x`.
#[derive(Clone, Copy, Debug, PartialEq, Eq, Structural)]
pub struct TileIndex(pub u32);

impl TileIndex {
    pub fn from_xy(x: u32, y: u32) -> (r: TileIndex)
        requires
            x < 8,
            y < 8,
        ensures
            r.0 == y * 8 + x,
    {
        TileIndex(y * 8 + x)
    }

    /// The pixel's x offset within the tile.
    pub fn x(self) -> (r: u32)
        requires
            self.0 < 64,
        ensures
            r == self.0 % 8,
    {
        let v = self.0;
        proof {
            assert(v < 64 ==> v & 0x7 == v % 8) by (bit_vector);
        }
        v & 0x7
    }

    /// The pixel's y offset within the tile.
    pub fn y(self) -> (r: u32)
        requires
            self.0 < 64,
        ensures
            r == self.0 / 8,
    {
        let v = self.0;
        proof {
            assert(v < 64 ==> v >> 3 == v / 8) by (bit_vector);
        }
        v >> 3
    }

    pub fn x8(self) -> (r: u32)
        requires
            self.0 < 64,
        ensures
            r == (self.0 % 8) * 8,
    {
        self.x() * 8
    }

    pub fn y8(self) -> (r: u32)
        requires
            self.0 < 64,
        ensures
            r == (self.0 / 8) * 8,
    {
        self.y() * 8
    }
}

/// Drains a tile mask in ascending lane order, yielding each surviving
/// pixel exactly once with its weight triple.
pub struct TileMaskIter {
    pub u: Block64,
    pub v: Block64,
    pub den: i64,
    pub mask: u64,
}

impl TileMaskIter {
    pub open spec fn wf(self) -> bool {
        &&& self.u.wf()
        &&& self.v.wf()
        &&& self.u.bounded(NUM_LIMIT as int)
        &&& self.v.bounded(NUM_LIMIT as int)
        &&& 0 <= self.den <= DEN_LIMIT
        &&& forall|i: int|
            0 <= i < 64 && #[trigger] bit64(self.mask, i) ==> self.den > 0 && self.u.view()[i] >= 0
                && self.v.view()[i] >= 0 && self.u.view()[i] + self.v.view()[i] <= self.den
    }

    /// The weight triple of lane `i`.
    pub open spec fn lane_weights(self, i: int) -> Weights {
        Weights {
            w0: (self.den - self.u.view()[i] - self.v.view()[i]) as i64,
            w1: self.u.view()[i] as i64,
            w2: self.v.view()[i] as i64,
            den: self.den,
        }
    }

    /// Take the lowest surviving pixel out of the mask. Yields each set bit
    /// exactly once, in ascending lane order, and terminates because the
    /// mask strictly shrinks.
    pub fn next(&mut self) -> (r: Option<(TileIndex, Weights)>)
        requires
            old(self).wf(),
        ensures
            final(self).wf(),
            final(self).u == old(self).u,
            final(self).v == old(self).v,
            final(self).den == old(self).den,
            old(self).mask == 0 ==> r is None && final(self).mask == old(self).mask,
            old(self).mask != 0 ==> match r {
                Some(p) => {
                    let i = p.0.0 as int;
                    &&& 0 <= i < 64
                    &&& bit64(old(self).mask, i)
                    &&& forall|j: int| 0 <= j < i ==> !bit64(old(self).mask, j)
                    &&& p.1 == old(self).lane_weights(i)
                    &&& p.1.wf()
                    &&& final(self).mask < old(self).mask
                    &&& forall|j: int|
                        0 <= j < 64 ==> #[trigger] bit64(final(self).mask, j) == (j != i && bit64(
                            old(self).mask,
                            j,
                        ))
                },
                None => false,
            },
    {
        if self.mask == 0 {
            return None;
        }
        proof {
            lemma_bit64_lowest(self.mask);
        }
        let next = self.mask.trailing_zeros();
        proof {
            lemma_bit64_clear_decreases(self.mask, next as int);
            assert forall|j: int| 0 <= j < 64 implies #[trigger] bit64(
                self.mask & !(1u64 << (next as u64)),
                j,
            ) == (j != next as int && bit64(self.mask, j)) by {
                lemma_bit64_clear(self.mask, next as int, j);
            }
        }
        let ghost old_mask = self.mask;
        self.mask = self.mask & !(1u64 << (next as u64));
        let i = next as usize;
        let ui = self.u.lane(i);
        let vi = self.v.lane(i);
        let w = Weights { w0: self.den - ui - vi, w1: ui, w2: vi, den: self.den };
        Some((TileIndex(next), w))
    }
}

/// The color a triangle contributes at a pixel: the fragment shader applied
/// to the payload interpolated with the pixel's exact weights.
pub open spec fn shade_at<T: Interpolate, F: Fragment<T::Out>>(
    b: Barycentric,
    t: Triangle<T>,
    f: F,
    px: int,
    py: int,
) -> F::Color {
    f.fragment_spec(T::interpolate_spec(&t, b.weights_at(px, py)))
}

/// An 8x8 leaf tile: the persistent depth state and stored colors of its 64
/// pixels.
pub struct Tile<P> {
    pub depth: Block64,
    pub color: Vec<P>,
}

impl<P> Tile<P> {
    pub open spec fn wf(self) -> bool {
        &&& self.depth.wf()
        &&& self.color.len() == 64
        &&& forall|i: int| 0 <= i < 64 ==> 0 <= #[trigger] self.depth.view()[i] <= Z_LIMIT
    }

    /// Freshly cleared: far depth everywhere, background color everywhere.
    pub open spec fn cleared(self, p: P) -> bool {
        &&& forall|i: int| 0 <= i < 64 ==> #[trigger] self.depth.view()[i] == DEPTH_FAR
        &&& forall|i: int| 0 <= i < 64 ==> #[trigger] self.color[i] == p
    }
}

/// What one triangle does to one tile whose top-left pixel is `(x, y)`:
/// exactly the pixels the triangle accepts get the quantized depth and the
/// shaded color; every other pixel keeps its state.
pub open spec fn tile_rastered<T: Interpolate, F: Fragment<T::Out>>(
    pre: Tile<F::Color>,
    post: Tile<F::Color>,
    b: Barycentric,
    z: Vec3i,
    t: Triangle<T>,
    f: F,
    x: int,
    y: int,
) -> bool {
    &&& post.color.len() == 64
    &&& forall|i: int|
        0 <= i < 64 ==> #[trigger] post.depth.view()[i] == if b.accepts(
            z,
            pre.depth.view()[i],
            x + i % 8,
            y + i / 8,
        ) {
            b.depth_q(z, x + i % 8, y + i / 8)
        } else {
            pre.depth.view()[i]
        }
    &&& forall|i: int|
        0 <= i < 64 ==> #[trigger] post.color[i] == if b.accepts(
            z,
            pre.depth.view()[i],
            x + i % 8,
            y + i / 8,
        ) {
            shade_at(b, t, f, x + i % 8, y + i / 8)
        } else {
            pre.color[i]
        }
}

impl<P: Copy> Tile<P> {
    pub fn new(p: P) -> (r: Tile<P>)
        ensures
            r.wf(),
            r.cleared(p),
    {
        let mut color: Vec<P> = Vec::new();
        let mut i: usize = 0;
        while i < 64
            invariant
                i <= 64,
                color.len() == i,
                forall|j: int| 0 <= j < i ==> #[trigger] color[j] == p,
            decreases 64 - i,
        {
            color.push(p);
            i = i + 1;
        }
        Tile { depth: Block64::broadcast(DEPTH_FAR), color }
    }

    /// Reset to far depth and background color.
    pub fn clear(&mut self, p: P)
        ensures
            final(self).wf(),
            final(self).cleared(p),
    {
        let fresh: Tile<P> = Tile::new(p);
        *self = fresh;
    }

    /// Rasterize one triangle into this tile: reject the whole tile if its
    /// box is provably outside, otherwise build the occupancy/depth mask
    /// and shade exactly the surviving pixels.
    #[verifier::loop_isolation(false)]
    pub fn raster<T: Interpolate, F: Fragment<T::Out, Color = P>>(
        &mut self,
        x: i64,
        y: i64,
        z: &Vec3i,
        bary: &Barycentric,
        t: &Triangle<T>,
        fragment: &F,
    )
        requires
            old(self).wf(),
            bary.wf(),
            T::wf_tri(t),
            z.bounded(Z_LIMIT as int),
            -EVAL_LIMIT <= x,
            x + 7 <= EVAL_LIMIT,
            -EVAL_LIMIT <= y,
            y + 7 <= EVAL_LIMIT,
        ensures
            final(self).wf(),
            tile_rastered(*old(self), *final(self), *bary, *z, *t, *fragment, x as int, y as int),
    {
        if bary.tile_fast_check(Vec2i::new(x, y), 7) {
            proof {
                assert forall|px: int, py: int|
                    x <= px <= x + 7 && y <= py <= y + 7 implies !#[trigger] bary.inside(
                    px,
                    py,
                ) by {}
            }
            return ;
        }
        let mut m = TileMask::new(x, y, bary);
        m.mask_with_depth(z, &mut self.depth);
        proof {
            assert forall|i: int| 0 <= i < 64 implies #[trigger] bit64(m.mask, i) == bary.accepts(
                *z,
                old(self).depth.view()[i],
                x + i % 8,
                y + i / 8,
            ) by {
                assert(m.lane_depth_q(*z, i) == bary.depth_q(*z, x + i % 8, y + i / 8));
            }
            assert forall|i: int| 0 <= i < 64 implies #[trigger] self.depth.view()[i] == if bary.accepts(
                *z,
                old(self).depth.view()[i],
                x + i % 8,
                y + i / 8,
            ) {
                bary.depth_q(*z, x + i % 8, y + i / 8)
            } else {
                old(self).depth.view()[i]
            } by {
                assert(m.lane_depth_q(*z, i) == bary.depth_q(*z, x + i % 8, y + i / 8));
            }
        }
        let ghost gm = m;
        let ghost dsnap = self.depth;
        let mut it = m.iter();
        while it.mask != 0
            invariant
                it.wf(),
                it.u == gm.u,
                it.v == gm.v,
                it.den == gm.den,
                self.depth == dsnap,
                self.color.len() == 64,
                forall|j: int| 0 <= j < 64 && #[trigger] bit64(it.mask, j) ==> bit64(gm.mask, j),
                forall|j: int|
                    0 <= j < 64 ==> #[trigger] self.color[j] == if bit64(gm.mask, j) && !bit64(
                        it.mask,
                        j,
                    ) {
                        shade_at(*bary, *t, *fragment, x + j % 8, y + j / 8)
                    } else {
                        old(self).color[j]
                    },
            decreases it.mask,
        {
            if let Some((idx, w)) = it.next() {
                proof {
                    let i = idx.0 as int;
                    assert(w == bary.weights_at(x + i % 8, y + i / 8)) by {
                        bary.lemma_num_bounds(x + i % 8, y + i / 8);
                    }
                }
                let o = T::interpolate(t, &w);
                let c = fragment.fragment(o);
                let xi = idx.0 as usize;
                self.color.set(xi, c);
            }
        }
        proof {
            assert forall|j: int| 0 <= j < 64 implies !#[trigger] bit64(it.mask, j) by {
                lemma_bit64_zero(j);
            }
        }
    }
}

/// What `group_rastered` says about one pixel, read through the group's
/// tile/lane indexing: the bridge from per-tile contracts to per-pixel
/// statements about a frame.
pub proof fn lemma_group_pixel<T: Interpolate, F: Fragment<T::Out>>(
    pre: TileGroup<F::Color>,
    post: TileGroup<F::Color>,
    b: Barycentric,
    z: Vec3i,
    t: Triangle<T>,
    f: F,
    x0: int,
    y0: int,
    px: int,
    py: int,
)
    requires
        group_rastered(pre, post, b, z, t, f, x0, y0),
        pre.wf(),
        x0 <= px < x0 + 64,
        y0 <= py < y0 + 64,
    ensures
        ({
            let lx = px - x0;
            let ly = py - y0;
            let k = (ly / 8) * 8 + lx / 8;
            let i = (ly % 8) * 8 + lx % 8;
            &&& post.tiles[k].depth.view()[i] == if b.accepts(
                z,
                pre.tiles[k].depth.view()[i],
                px,
                py,
            ) {
                b.depth_q(z, px, py)
            } else {
                pre.tiles[k].depth.view()[i]
            }
            &&& post.tiles[k].color[i] == if b.accepts(z, pre.tiles[k].depth.view()[i], px, py) {
                shade_at(b, t, f, px, py)
            } else {
                pre.tiles[k].color[i]
            }
        }),
{
    let lx = px - x0;
    let ly = py - y0;
    let k = (ly / 8) * 8 + lx / 8;
    let i = (ly % 8) * 8 + lx % 8;
    vstd::arithmetic::div_mod::lemma_fundamental_div_mod(lx, 8);
    vstd::arithmetic::div_mod::lemma_fundamental_div_mod(ly, 8);
    vstd::arithmetic::div_mod::lemma_mod_division_less_than_divisor(lx, 8);
    vstd::arithmetic::div_mod::lemma_mod_division_less_than_divisor(ly, 8);
    vstd::arithmetic::div_mod::lemma_fundamental_div_mod_converse(k, 8, ly / 8, lx / 8);
    vstd::arithmetic::div_mod::lemma_fundamental_div_mod_converse(i, 8, ly % 8, lx % 8);
    assert(0 <= k < 64);
    assert(tile_rastered(
        pre.tiles[k],
        post.tiles[k],
        b,
        z,
        t,
        f,
        x0 + (k % 8) * 8,
        y0 + (k / 8) * 8,
    ));
    assert(x0 + (k % 8) * 8 + i % 8 == px);
    assert(y0 + (k / 8) * 8 + i / 8 == py);
}

/// A bounded two-dimensional pixel sink that finished colors are written
/// into, one pixel at a time.
pub trait Put<P> {
    /// The sink's own well-formedness, preserved by every write.
    spec fn inv(&self) -> bool;

    /// The sink's dimensions and current contents, as the contracts see
    /// them.
    spec fn width(&self) -> int;

    spec fn height(&self) -> int;

    spec fn at(&self, px: int, py: int) -> P;

    /// Store one pixel, leaving every other pixel and the dimensions
    /// unchanged.
    fn put(&mut self, x: u32, y: u32, v: P)
        requires
            old(self).inv(),
            x < old(self).width(),
            y < old(self).height(),
        ensures
            final(self).inv(),
            final(self).width() == old(self).width(),
            final(self).height() == old(self).height(),
            final(self).at(x as int, y as int) == v,
            forall|px: int, py: int|
                0 <= px < old(self).width() && 0 <= py < old(self).height() && !(px == x && py
                    == y) ==> #[trigger] final(self).at(px, py) == old(self).at(px, py),
    ;
}

/// A tile whose 8x8 box contains no point of the triangle satisfies the
/// raster contract unchanged: nothing is accepted there.
proof fn lemma_tile_unchanged<T: Interpolate, F: Fragment<T::Out>>(
    tile: Tile<F::Color>,
    b: Barycentric,
    z: Vec3i,
    t: Triangle<T>,
    f: F,
    x: int,
    y: int,
)
    requires
        b.box_empty(x, y, 7),
        tile.color.len() == 64,
    ensures
        tile_rastered(tile, tile, b, z, t, f, x, y),
{
    assert forall|i: int| 0 <= i < 64 implies !b.accepts(z, tile.depth.view()[i], x + i % 8, y + i
        / 8) by {
        assert(0 <= i % 8 <= 7 && 0 <= i / 8 <= 7);
        assert(!b.inside(x + i % 8, y + i / 8));
    }
}

impl<P: Copy> Tile<P> {
    /// Copy this tile's 64 stored colors to a pixel sink, with the tile's
    /// top-left pixel landing at `(x, y)`.
    #[verifier::loop_isolation(false)]
    pub fn write<W: Put<P>>(&self, x: u32, y: u32, sink: &mut W)
        requires
            self.wf(),
            old(sink).inv(),
            x <= 0xFFFF_0000,
            y <= 0xFFFF_0000,
            x + 8 <= old(sink).width(),
            y + 8 <= old(sink).height(),
        ensures
            final(sink).inv(),
            final(sink).width() == old(sink).width(),
            final(sink).height() == old(sink).height(),
            forall|px: int, py: int|
                0 <= px < old(sink).width() && 0 <= py < old(sink).height()
                    ==> #[trigger] final(sink).at(px, py) == if x <= px < x + 8 && y <= py < y
                    + 8 {
                    self.color[(py - y) * 8 + (px - x)]
                } else {
                    old(sink).at(px, py)
                },
    {
        let mut ly: usize = 0;
        while ly < 8
            invariant
                ly <= 8,
                sink.inv(),
                sink.width() == old(sink).width(),
                sink.height() == old(sink).height(),
                forall|px: int, py: int|
                    0 <= px < old(sink).width() && 0 <= py < old(sink).height()
                        ==> #[trigger] sink.at(px, py) == if x <= px < x + 8 && y <= py < y
                        + ly {
                        self.color[(py - y) * 8 + (px - x)]
                    } else {
                        old(sink).at(px, py)
                    },
            decreases 8 - ly,
        {
            let mut lx: usize = 0;
            while lx < 8
                invariant
                    lx <= 8,
                    ly < 8,
                    sink.inv(),
                    sink.width() == old(sink).width(),
                    sink.height() == old(sink).height(),
                    forall|px: int, py: int|
                        0 <= px < old(sink).width() && 0 <= py < old(sink).height()
                            ==> #[trigger] sink.at(px, py) == if x <= px < x + 8 && (y <= py < y
                            + ly || (py == y + ly && x <= px < x + lx)) {
                            self.color[(py - y) * 8 + (px - x)]
                        } else {
                            old(sink).at(px, py)
                        },
                decreases 8 - lx,
            {
                let c = self.color[ly * 8 + lx];
                sink.put(x + (lx as u32), y + (ly as u32), c);
                lx = lx + 1;
            }
            ly = ly + 1;
        }
    }
}

/// A 64x64 tile group: 64 leaf tiles in row-major order, tile `k` covering
/// the 8x8 block whose top-left pixel is `(x + (k % 8) * 8, y + (k / 8) * 8)`
/// relative to the group origin `(x, y)`.
pub struct TileGroup<P> {
    pub tiles: Vec<Tile<P>>,
}

/// What one triangle does to a whole group: each leaf tile behaves as if
/// rasterized on its own.
pub open spec fn group_rastered<T: Interpolate, F: Fragment<T::Out>>(
    pre: TileGroup<F::Color>,
    post: TileGroup<F::Color>,
    b: Barycentric,
    z: Vec3i,
    t: Triangle<T>,
    f: F,
    x: int,
    y: int,
) -> bool {
    &&& post.tiles.len() == 64
    &&& forall|k: int|
        0 <= k < 64 ==> tile_rastered(
            pre.tiles[k],
            #[trigger] post.tiles[k],
            b,
            z,
            t,
            f,
            x + (k % 8) * 8,
            y + (k / 8) * 8,
        )
}

impl<P> TileGroup<P> {
    pub open spec fn wf(self) -> bool {
        &&& self.tiles.len() == 64
        &&& forall|k: int| 0 <= k < 64 ==> (#[trigger] self.tiles[k]).wf()
    }

    pub open spec fn cleared(self, p: P) -> bool {
        forall|k: int| 0 <= k < 64 ==> (#[trigger] self.tiles[k]).cleared(p)
    }
}

impl<P: Copy> TileGroup<P> {
    pub fn new(p: P) -> (r: TileGroup<P>)
        ensures
            r.wf(),
            r.cleared(p),
    {
        let mut tiles: Vec<Tile<P>> = Vec::new();
        let mut i: usize = 0;
        while i < 64
            invariant
                i <= 64,
                tiles.len() == i,
                forall|j: int| 0 <= j < i ==> (#[trigger] tiles[j]).wf() && tiles[j].cleared(p),
            decreases 64 - i,
        {
            tiles.push(Tile::new(p));
            i = i + 1;
        }
        TileGroup { tiles }
    }

    /// Rasterize one triangle into the group, rejecting whole sub-boxes
    /// coarse-to-fine: the 64x64 box first, then the four 32x32 quads, then
    /// the sixteen 16x16 quads, and only then the leaf tiles, which run
    /// their own 8x8 check.
    #[verifier::loop_isolation(false)]
    pub fn raster<T: Interpolate, F: Fragment<T::Out, Color = P>>(
        &mut self,
        x: i64,
        y: i64,
        z: &Vec3i,
        bary: &Barycentric,
        t: &Triangle<T>,
        fragment: &F,
    )
        requires
            old(self).wf(),
            bary.wf(),
            T::wf_tri(t),
            z.bounded(Z_LIMIT as int),
            -EVAL_LIMIT <= x,
            x + 63 <= EVAL_LIMIT,
            -EVAL_LIMIT <= y,
            y + 63 <= EVAL_LIMIT,
        ensures
            final(self).wf(),
            group_rastered(*old(self), *final(self), *bary, *z, *t, *fragment, x as int, y as int),
    {
        if bary.tile_fast_check(Vec2i::new(x, y), 63) {
            proof {
                assert(bary.box_empty(x as int, y as int, 63));
                assert forall|kk: int| 0 <= kk < 64 implies tile_rastered(
                    self.tiles[kk],
                    #[trigger] self.tiles[kk],
                    *bary,
                    *z,
                    *t,
                    *fragment,
                    x + (kk % 8) * 8,
                    y + (kk / 8) * 8,
                ) by {
                    assert(0 <= kk % 8 <= 7 && 0 <= kk / 8 <= 7);
                    assert forall|px: int, py: int|
                        x + (kk % 8) * 8 <= px <= x + (kk % 8) * 8 + 7 && y + (kk / 8) * 8 <= py
                            <= y + (kk / 8) * 8 + 7 implies !#[trigger] bary.inside(px, py) by {}
                    assert(bary.box_empty(x + (kk % 8) * 8, y + (kk / 8) * 8, 7));
                    lemma_tile_unchanged(
                        self.tiles[kk],
                        *bary,
                        *z,
                        *t,
                        *fragment,
                        x + (kk % 8) * 8,
                        y + (kk / 8) * 8,
                    );
                }
            }
            return ;
        }
        let mut r32: Vec<bool> = Vec::new();
        let mut q: usize = 0;
        while q < 4
            invariant
                q <= 4,
                r32.len() == q,
                forall|j: int|
                    0 <= j < q && #[trigger] r32[j] ==> bary.box_empty(
                        x + (j % 2) * 32,
                        y + (j / 2) * 32,
                        31,
                    ),
            decreases 4 - q,
        {
            let bx = x + ((q % 2) as i64) * 32;
            let by = y + ((q / 2) as i64) * 32;
            let rej = bary.tile_fast_check(Vec2i::new(bx, by), 31);
            proof {
                if rej {
                    assert(bary.box_empty(bx as int, by as int, 31));
                }
            }
            r32.push(rej);
            q = q + 1;
        }
        let mut r16: Vec<bool> = Vec::new();
        let mut j: usize = 0;
        while j < 16
            invariant
                j <= 16,
                r16.len() == j,
                r32.len() == 4,
                forall|jj: int|
                    0 <= jj < 4 && #[trigger] r32[jj] ==> bary.box_empty(
                        x + (jj % 2) * 32,
                        y + (jj / 2) * 32,
                        31,
                    ),
                forall|jj: int|
                    0 <= jj < j && #[trigger] r16[jj] ==> bary.box_empty(
                        x + (jj % 4) * 16,
                        y + (jj / 4) * 16,
                        15,
                    ),
            decreases 16 - j,
        {
            let a = j % 4;
            let b = j / 4;
            let parent = a / 2 + 2 * (b / 2);
            let bx = x + (a as i64) * 16;
            let by = y + (b as i64) * 16;
            let rej: bool;
            if r32[parent] {
                rej = true;
                proof {
                    assert(bary.box_empty(x + ((parent as int) % 2) * 32, y + ((parent as int) / 2) * 32, 31));
                    assert((parent as int) % 2 == (a as int) / 2 && (parent as int) / 2 == (b as int) / 2);
                    assert forall|px: int, py: int|
                        bx <= px <= bx + 15 && by <= py <= by + 15 implies !#[trigger] bary.inside(
                        px,
                        py,
                    ) by {
                        assert(((a as int) / 2) * 32 <= (a as int) * 16 && (a as int) * 16 + 15 <= (
                        (a as int) / 2) * 32 + 31);
                        assert(((b as int) / 2) * 32 <= (b as int) * 16 && (b as int) * 16 + 15 <= (
                        (b as int) / 2) * 32 + 31);
                    }
                }
            } else {
                rej = bary.tile_fast_check(Vec2i::new(bx, by), 15);
                proof {
                    if rej {
                        assert(bary.box_empty(bx as int, by as int, 15));
                    }
                }
            }
            r16.push(rej);
            j = j + 1;
        }
        let mut k: usize = 0;
        while k < 64
            invariant
                k <= 64,
                self.tiles.len() == 64,
                r16.len() == 16,
                forall|jj: int|
                    0 <= jj < 16 && #[trigger] r16[jj] ==> bary.box_empty(
                        x + (jj % 4) * 16,
                        y + (jj / 4) * 16,
                        15,
                    ),
                forall|kk: int|
                    0 <= kk < k ==> tile_rastered(
                        old(self).tiles[kk],
                        #[trigger] self.tiles[kk],
                        *bary,
                        *z,
                        *t,
                        *fragment,
                        x + (kk % 8) * 8,
                        y + (kk / 8) * 8,
                    ),
                forall|kk: int| 0 <= kk < k ==> (#[trigger] self.tiles[kk]).wf(),
                forall|kk: int| k <= kk < 64 ==> #[trigger] self.tiles[kk] == old(self).tiles[kk],
            decreases 64 - k,
        {
            let a = k % 8;
            let b = k / 8;
            let parent = a / 2 + 4 * (b / 2);
            let tx = x + (a as i64) * 8;
            let ty = y + (b as i64) * 8;
            if r16[parent] {
                proof {
                    assert(bary.box_empty(
                        x + ((parent as int) % 4) * 16,
                        y + ((parent as int) / 4) * 16,
                        15,
                    ));
                    assert((parent as int) % 4 == (a as int) / 2 && (parent as int) / 4 == (
                    b as int) / 2);
                    assert forall|px: int, py: int|
                        tx <= px <= tx + 7 && ty <= py <= ty + 7 implies !#[trigger] bary.inside(
                        px,
                        py,
                    ) by {
                        assert(((a as int) / 2) * 16 <= (a as int) * 8 && (a as int) * 8 + 7 <= ((
                        a as int) / 2) * 16 + 15);
                        assert(((b as int) / 2) * 16 <= (b as int) * 8 && (b as int) * 8 + 7 <= ((
                        b as int) / 2) * 16 + 15);
                    }
                    assert(bary.box_empty(tx as int, ty as int, 7));
                    assert(a as int == k as int % 8 && b as int == k as int / 8);
                    lemma_tile_unchanged(
                        self.tiles[k as int],
                        *bary,
                        *z,
                        *t,
                        *fragment,
                        tx as int,
                        ty as int,
                    );
                }
            } else {
                self.tiles[k].raster(tx, ty, z, bary, t, fragment);
            }
            k = k + 1;
        }
    }

    /// The stored color of the group pixel `(lx, ly)`, both in `[0, 64)`.
    pub open spec fn color_at(self, lx: int, ly: int) -> P {
        self.tiles[(ly / 8) * 8 + lx / 8].color[(ly % 8) * 8 + lx % 8]
    }

    /// Copy all 4096 stored colors to a pixel sink, with the group's
    /// top-left pixel landing at `(x, y)`.
    #[verifier::loop_isolation(false)]
    pub fn write<W: Put<P>>(&self, x: u32, y: u32, sink: &mut W)
        requires
            self.wf(),
            old(sink).inv(),
            x <= 0xFFFF_0000,
            y <= 0xFFFF_0000,
            x + 64 <= old(sink).width(),
            y + 64 <= old(sink).height(),
        ensures
            final(sink).inv(),
            final(sink).width() == old(sink).width(),
            final(sink).height() == old(sink).height(),
            forall|px: int, py: int|
                0 <= px < old(sink).width() && 0 <= py < old(sink).height()
                    ==> #[trigger] final(sink).at(px, py) == if x <= px < x + 64 && y <= py < y
                    + 64 {
                    self.color_at(px - x, py - y)
                } else {
                    old(sink).at(px, py)
                },
    {
        let mut ly: usize = 0;
        while ly < 64
            invariant
                ly <= 64,
                sink.inv(),
                sink.width() == old(sink).width(),
                sink.height() == old(sink).height(),
                forall|px: int, py: int|
                    0 <= px < old(sink).width() && 0 <= py < old(sink).height()
                        ==> #[trigger] sink.at(px, py) == if x <= px < x + 64 && y <= py < y
                        + ly {
                        self.color_at(px - x, py - y)
                    } else {
                        old(sink).at(px, py)
                    },
            decreases 64 - ly,
        {
            let mut lx: usize = 0;
            while lx < 64
                invariant
                    lx <= 64,
                    ly < 64,
                    sink.inv(),
                    sink.width() == old(sink).width(),
                    sink.height() == old(sink).height(),
                    forall|px: int, py: int|
                        0 <= px < old(sink).width() && 0 <= py < old(sink).height()
                            ==> #[trigger] sink.at(px, py) == if x <= px < x + 64 && (y <= py < y
                            + ly || (py == y + ly && x <= px < x + lx)) {
                            self.color_at(px - x, py - y)
                        } else {
                            old(sink).at(px, py)
                        },
                decreases 64 - lx,
            {
                let k = (ly / 8) * 8 + lx / 8;
                let i = (ly % 8) * 8 + lx % 8;
                let c = self.tiles[k].color[i];
                sink.put(x + (lx as u32), y + (ly as u32), c);
                lx = lx + 1;
            }
            ly = ly + 1;
        }
    }

    /// Clear every leaf tile.
    pub fn clear(&mut self, p: P)
        requires
            old(self).wf(),
        ensures
            final(self).wf(),
            final(self).cleared(p),
    {
        let mut i: usize = 0;
        while i < 64
            invariant
                i <= 64,
                self.tiles.len() == 64,
                forall|j: int|
                    0 <= j < i ==> (#[trigger] self.tiles[j]).wf() && self.tiles[j].cleared(p),
            decreases 64 - i,
        {
            self.tiles[i].clear(p);
            i = i + 1;
        }
    }
}

} // verus!
