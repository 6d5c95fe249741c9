//! The lane substrate: fixed 64-lane blocks of integers, one lane per pixel
//! of an 8x8 tile, with elementwise arithmetic, a sign-bit mask extraction,
//! and a mask-driven lane select. Lane `i` of a block belongs to the pixel
//! `(i % 8, i / 8)` of the tile.

use vstd::prelude::*;

verus! {

/// Bit `i` of a 64-bit lane mask.
pub open spec fn bit64(m: u64, i: int) -> bool {
    (m >> (i as u64)) & 1u64 == 1u64
}

/// No bit of zero is set.
pub proof fn lemma_bit64_zero(j: int)
    requires
        0 <= j < 64,
    ensures
        !bit64(0u64, j),
{
    let ju = j as u64;
    assert(ju < 64 ==> (0u64 >> ju) & 1u64 == 0u64) by (bit_vector);
}

/// Setting one bit leaves every other bit alone.
pub proof fn lemma_bit64_set(m: u64, i: int, j: int)
    requires
        0 <= i < 64,
        0 <= j < 64,
    ensures
        bit64(m | (1u64 << (i as u64)), j) == (i == j || bit64(m, j)),
{
    let iu = i as u64;
    let ju = j as u64;
    assert(iu < 64 && ju < 64 ==> (((m | (1u64 << iu)) >> ju) & 1u64 == 1u64) == (iu == ju || (m
        >> ju) & 1u64 == 1u64)) by (bit_vector);
}

/// Clearing one bit leaves every other bit alone.
pub proof fn lemma_bit64_clear(m: u64, i: int, j: int)
    requires
        0 <= i < 64,
        0 <= j < 64,
    ensures
        bit64(m & !(1u64 << (i as u64)), j) == (i != j && bit64(m, j)),
{
    let iu = i as u64;
    let ju = j as u64;
    assert(iu < 64 && ju < 64 ==> (((m & !(1u64 << iu)) >> ju) & 1u64 == 1u64) == (iu != ju && (m
        >> ju) & 1u64 == 1u64)) by (bit_vector);
}

/// Clearing a set bit strictly shrinks the mask, which bounds mask-draining
/// loops.
pub proof fn lemma_bit64_clear_decreases(m: u64, i: int)
    requires
        0 <= i < 64,
        bit64(m, i),
    ensures
        (m & !(1u64 << (i as u64))) < m,
{
    let iu = i as u64;
    assert(iu < 64 && (m >> iu) & 1u64 == 1u64 ==> (m & !(1u64 << iu)) < m) by (bit_vector);
}

/// A bit of a union is a bit of either part.
pub proof fn lemma_bit64_or(a: u64, b: u64, j: int)
    requires
        0 <= j < 64,
    ensures
        bit64(a | b, j) == (bit64(a, j) || bit64(b, j)),
{
    let ju = j as u64;
    assert(ju < 64 ==> (((a | b) >> ju) & 1u64 == 1u64) == ((a >> ju) & 1u64 == 1u64 || (b >> ju)
        & 1u64 == 1u64)) by (bit_vector);
}

/// A bit of an intersection is a bit of both parts.
pub proof fn lemma_bit64_and(a: u64, b: u64, j: int)
    requires
        0 <= j < 64,
    ensures
        bit64(a & b, j) == (bit64(a, j) && bit64(b, j)),
{
    let ju = j as u64;
    assert(ju < 64 ==> (((a & b) >> ju) & 1u64 == 1u64) == ((a >> ju) & 1u64 == 1u64 && (b >> ju)
        & 1u64 == 1u64)) by (bit_vector);
}

/// A bit of a complement is an unset bit.
pub proof fn lemma_bit64_not(a: u64, j: int)
    requires
        0 <= j < 64,
    ensures
        bit64(!a, j) == !bit64(a, j),
{
    let ju = j as u64;
    assert(ju < 64 ==> (((!a) >> ju) & 1u64 == 1u64) == !((a >> ju) & 1u64 == 1u64))
        by (bit_vector);
}

/// A nonzero mask has its lowest set bit at `trailing_zeros`, and no set bit
/// below it.
pub proof fn lemma_bit64_lowest(m: u64)
    requires
        m != 0,
    ensures
        0 <= vstd::std_specs::bits::u64_trailing_zeros(m) < 64,
        bit64(m, vstd::std_specs::bits::u64_trailing_zeros(m) as int),
        forall|j: int|
            0 <= j < vstd::std_specs::bits::u64_trailing_zeros(m) ==> !bit64(m, j),
{
    vstd::std_specs::bits::axiom_u64_trailing_zeros(m);
    let t = vstd::std_specs::bits::u64_trailing_zeros(m);
    assert(bit64(m, t as int) == ((m >> (t as u64)) & 1u64 == 1u64));
    assert forall|j: int| 0 <= j < t implies !bit64(m, j) by {
        assert((m >> (j as u64)) & 1u64 == 0u64);
    }
}

/// A 64-lane block of integers: the value vector every 8x8 tile operation
/// works on.
#[derive(Clone, Debug)]
pub struct Block64 {
    pub lanes: Vec<i64>,
}

impl Block64 {
    pub open spec fn wf(self) -> bool {
        self.lanes.len() == 64
    }

    pub open spec fn view(self) -> Seq<int> {
        Seq::new(64, |i: int| self.lanes[i] as int)
    }

    /// Every lane within `[-m, m]`.
    pub open spec fn bounded(self, m: int) -> bool {
        forall|i: int| 0 <= i < 64 ==> -m <= #[trigger] self.view()[i] <= m
    }

    /// Read one lane.
    pub fn lane(&self, i: usize) -> (r: i64)
        requires
            self.wf(),
            i < 64,
        ensures
            r == self.view()[i as int],
    {
        self.lanes[i]
    }

    /// The same value in every lane.
    pub fn broadcast(v: i64) -> (r: Block64)
        ensures
            r.wf(),
            forall|i: int| 0 <= i < 64 ==> #[trigger] r.view()[i] == v,
    {
        let mut lanes: Vec<i64> = Vec::new();
        let mut i: usize = 0;
        while i < 64
            invariant
                i <= 64,
                lanes.len() == i,
                forall|j: int| 0 <= j < i ==> #[trigger] lanes[j] == v,
            decreases 64 - i,
        {
            lanes.push(v);
            i = i + 1;
        }
        Block64 { lanes }
    }

    /// Lane `i` holds its pixel's x offset within the tile, `i % 8`.
    pub fn range_x() -> (r: Block64)
        ensures
            r.wf(),
            forall|i: int| 0 <= i < 64 ==> #[trigger] r.view()[i] == i % 8,
    {
        let mut lanes: Vec<i64> = Vec::new();
        let mut i: usize = 0;
        while i < 64
            invariant
                i <= 64,
                lanes.len() == i,
                forall|j: int| 0 <= j < i ==> #[trigger] lanes[j] == j % 8,
            decreases 64 - i,
        {
            lanes.push((i % 8) as i64);
            i = i + 1;
        }
        Block64 { lanes }
    }

    /// Lane `i` holds its pixel's y offset within the tile, `i / 8`.
    pub fn range_y() -> (r: Block64)
        ensures
            r.wf(),
            forall|i: int| 0 <= i < 64 ==> #[trigger] r.view()[i] == i / 8,
    {
        let mut lanes: Vec<i64> = Vec::new();
        let mut i: usize = 0;
        while i < 64
            invariant
                i <= 64,
                lanes.len() == i,
                forall|j: int| 0 <= j < i ==> #[trigger] lanes[j] == j / 8,
            decreases 64 - i,
        {
            lanes.push((i / 8) as i64);
            i = i + 1;
        }
        Block64 { lanes }
    }

    /// Elementwise sum.
    pub fn plus(&self, other: &Block64) -> (r: Block64)
        requires
            self.wf(),
            other.wf(),
            self.bounded(0x2000_0000_0000_0000),
            other.bounded(0x2000_0000_0000_0000),
        ensures
            r.wf(),
            forall|i: int|
                0 <= i < 64 ==> #[trigger] r.view()[i] == self.view()[i] + other.view()[i],
    {
        let mut lanes: Vec<i64> = Vec::new();
        let mut i: usize = 0;
        while i < 64
            invariant
                i <= 64,
                lanes.len() == i,
                self.wf(),
                other.wf(),
                self.bounded(0x2000_0000_0000_0000),
                other.bounded(0x2000_0000_0000_0000),
                forall|j: int|
                    0 <= j < i ==> #[trigger] lanes[j] == self.view()[j] + other.view()[j],
            decreases 64 - i,
        {
            proof {
                assert(-0x2000_0000_0000_0000 <= self.view()[i as int] <= 0x2000_0000_0000_0000);
                assert(-0x2000_0000_0000_0000 <= other.view()[i as int] <= 0x2000_0000_0000_0000);
            }
            lanes.push(self.lanes[i] + other.lanes[i]);
            i = i + 1;
        }
        Block64 { lanes }
    }

    /// Elementwise difference.
    pub fn minus(&self, other: &Block64) -> (r: Block64)
        requires
            self.wf(),
            other.wf(),
            self.bounded(0x2000_0000_0000_0000),
            other.bounded(0x2000_0000_0000_0000),
        ensures
            r.wf(),
            forall|i: int|
                0 <= i < 64 ==> #[trigger] r.view()[i] == self.view()[i] - other.view()[i],
    {
        let mut lanes: Vec<i64> = Vec::new();
        let mut i: usize = 0;
        while i < 64
            invariant
                i <= 64,
                lanes.len() == i,
                self.wf(),
                other.wf(),
                self.bounded(0x2000_0000_0000_0000),
                other.bounded(0x2000_0000_0000_0000),
                forall|j: int|
                    0 <= j < i ==> #[trigger] lanes[j] == self.view()[j] - other.view()[j],
            decreases 64 - i,
        {
            proof {
                assert(-0x2000_0000_0000_0000 <= self.view()[i as int] <= 0x2000_0000_0000_0000);
                assert(-0x2000_0000_0000_0000 <= other.view()[i as int] <= 0x2000_0000_0000_0000);
            }
            lanes.push(self.lanes[i] - other.lanes[i]);
            i = i + 1;
        }
        Block64 { lanes }
    }

    /// Elementwise product; bounds on both sides keep it exact.
    pub fn times(&self, other: &Block64) -> (r: Block64)
        requires
            self.wf(),
            other.wf(),
            self.bounded(0x4000_0000),
            other.bounded(0x4000_0000),
        ensures
            r.wf(),
            forall|i: int|
                0 <= i < 64 ==> #[trigger] r.view()[i] == self.view()[i] * other.view()[i],
    {
        let mut lanes: Vec<i64> = Vec::new();
        let mut i: usize = 0;
        while i < 64
            invariant
                i <= 64,
                lanes.len() == i,
                self.wf(),
                other.wf(),
                self.bounded(0x4000_0000),
                other.bounded(0x4000_0000),
                forall|j: int|
                    0 <= j < i ==> #[trigger] lanes[j] == self.view()[j] * other.view()[j],
            decreases 64 - i,
        {
            proof {
                crate::vmath::lemma_mul_bound(
                    self.view()[i as int],
                    other.view()[i as int],
                    0x4000_0000,
                );
            }
            lanes.push(self.lanes[i] * other.lanes[i]);
            i = i + 1;
        }
        Block64 { lanes }
    }

    /// Pack each lane's sign into one 64-bit mask: bit `i` is set exactly
    /// when lane `i` is negative. This is the one place the rasterizer turns
    /// numeric values into occupancy bits.
    pub fn sign_mask(&self) -> (r: u64)
        requires
            self.wf(),
        ensures
            forall|i: int| 0 <= i < 64 ==> #[trigger] bit64(r, i) == (self.view()[i] < 0),
    {
        let mut m: u64 = 0;
        let mut i: usize = 0;
        proof {
            assert forall|j: int| 0 <= j < 64 implies !bit64(0u64, j) by {
                lemma_bit64_zero(j);
            }
        }
        while i < 64
            invariant
                i <= 64,
                self.wf(),
                forall|j: int| 0 <= j < i ==> #[trigger] bit64(m, j) == (self.view()[j] < 0),
                forall|j: int| i <= j < 64 ==> !#[trigger] bit64(m, j),
            decreases 64 - i,
        {
            let ghost old_m = m;
            if self.lanes[i] < 0 {
                m = m | (1u64 << (i as u64));
                proof {
                    assert forall|j: int| 0 <= j < 64 implies #[trigger] bit64(m, j) == (j
                        == i || bit64(old_m, j)) by {
                        lemma_bit64_set(old_m, i as int, j);
                    }
                }
            }
            i = i + 1;
        }
        m
    }

    /// Replace the lanes selected by `mask` with the lanes of `other`,
    /// leaving the rest untouched.
    pub fn replace(&mut self, other: &Block64, mask: u64)
        requires
            old(self).wf(),
            other.wf(),
        ensures
            final(self).wf(),
            forall|i: int|
                0 <= i < 64 ==> #[trigger] final(self).view()[i] == if bit64(mask, i) {
                    other.view()[i]
                } else {
                    old(self).view()[i]
                },
    {
        let mut i: usize = 0;
        while i < 64
            invariant
                i <= 64,
                self.wf(),
                other.wf(),
                forall|j: int|
                    0 <= j < i ==> #[trigger] self.view()[j] == if bit64(mask, j) {
                        other.view()[j]
                    } else {
                        old(self).view()[j]
                    },
                forall|j: int| i <= j < 64 ==> #[trigger] self.view()[j] == old(self).view()[j],
            decreases 64 - i,
        {
            proof {
                assert(i as int as u64 == i as u64);
                assert(bit64(mask, i as int) == ((mask >> (i as u64)) & 1u64 == 1u64));
            }
            let ghost prev = *self;
            if (mask >> (i as u64)) & 1u64 == 1u64 {
                let v = other.lanes[i];
                self.lanes.set(i, v);
            }
            proof {
                assert forall|j: int| 0 <= j < 64 implies #[trigger] self.view()[j] == if j
                    == i && bit64(mask, j) {
                    other.view()[j]
                } else {
                    prev.view()[j]
                } by {
                    assert(self.view()[j] == self.lanes[j] as int);
                    assert(prev.view()[j] == prev.lanes[j] as int);
                }
            }
            i = i + 1;
        }
    }
}

} // verus!
