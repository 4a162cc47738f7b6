//! A chunk: a fixed-size square tile of field samples. Local coordinates
//! wrap into the tile by masking with the edge length (a documented quirk:
//! out-of-range input is not rejected), accumulation saturates instead of
//! overflowing, and the error metric is the tile's sum of squared samples.
use crate::geom::IPoint;
use crate::geom::mul64;
use crate::geom::sat_add;
use crate::geom::sat_add_i64;
use vstd::prelude::*;

verus! {

/// Cells in one chunk: the square of the edge length.
pub const CHUNK_CELLS: usize = 64;

/// The cell a local coordinate selects: each axis wrapped into the tile
/// (out-of-range input is not rejected), row-major.
pub open spec fn cell_index(p: IPoint) -> int {
    p.x % 8 + (p.y % 8) * 8
}

pub proof fn lemma_cell_index_range(p: IPoint)
    ensures
        0 <= cell_index(p) < 64,
{
}

/// One accumulation step on a tile's cells: add into the selected cell,
/// saturating.
pub open spec fn acc_cell(s: Seq<i64>, p: IPoint, v: i64) -> Seq<i64> {
    s.update(cell_index(p), sat_add(s[cell_index(p)] as int, v as int) as i64)
}

/// Addition capped at the top of the `i128` range; the terms the error
/// metric sums are non-negative, so no lower cap is needed.
pub open spec fn cap_add(a: int, b: int) -> int {
    if a + b > i128::MAX {
        i128::MAX as int
    } else {
        a + b
    }
}

/// The error metric of a tile: the capped sum of its squared samples.
pub open spec fn sq_sum(s: Seq<i64>) -> int
    decreases s.len(),
{
    if s.len() == 0 {
        0
    } else {
        cap_add(sq_sum(s.drop_last()), s.last() * s.last())
    }
}

pub proof fn lemma_sq_sum_nonneg(s: Seq<i64>)
    ensures
        0 <= sq_sum(s) <= i128::MAX,
    decreases s.len(),
{
    if s.len() > 0 {
        lemma_sq_sum_nonneg(s.drop_last());
        let l = s.last() as int;
        assert(l * l >= 0) by (nonlinear_arith);
    }
}

/// A square tile of accumulated field samples.
#[derive(Debug)]
pub struct Chunk {
    field: Vec<i64>,
}

impl View for Chunk {
    type V = Seq<i64>;

    closed spec fn view(&self) -> Seq<i64> {
        self.field@
    }
}

impl Clone for Chunk {
    fn clone(&self) -> (r: Self)
        ensures
            r@ == self@,
    {
        let f = self.field.clone();
        proof {
            assert(f@ =~= self.field@);
        }
        Chunk { field: f }
    }
}

impl Chunk {
    /// The tile holds exactly one sample per cell.
    pub open spec fn wf(&self) -> bool {
        self@.len() == 64
    }

    /// A fresh tile: every cell zero.
    pub fn new() -> (r: Self)
        ensures
            r.wf(),
            forall|i: int| 0 <= i < 64 ==> r@[i] == 0,
    {
        let mut field: Vec<i64> = Vec::new();
        let mut i: usize = 0;
        while i < 64
            invariant
                i <= 64,
                field@.len() == i,
                forall|j: int| 0 <= j < i ==> field@[j] == 0,
            decreases 64 - i,
        {
            field.push(0);
            i = i + 1;
        }
        Chunk { field }
    }

    /// Read the cell the (wrapped) local coordinate selects.
    pub fn getFieldValue(&self, pt: &IPoint) -> (r: i64)
        requires
            self.wf(),
        ensures
            r == self@[cell_index(*pt)],
    {
        let mx = pt.x & 7;
        let my = pt.y & 7;
        proof {
            let x = pt.x;
            let y = pt.y;
            assert((x & 7i32) == x % 8i32) by (bit_vector);
            assert((y & 7i32) == y % 8i32) by (bit_vector);
        }
        let ix: usize = (mx as usize) + (my as usize) * 8;
        self.field[ix]
    }

    /// Add `v` into the cell the (wrapped) local coordinate selects,
    /// saturating at the sample range.
    pub fn addFieldValue(&mut self, pt: &IPoint, v: i64)
        requires
            old(self).wf(),
        ensures
            final(self).wf(),
            final(self)@ == acc_cell(old(self)@, *pt, v),
    {
        let mx = pt.x & 7;
        let my = pt.y & 7;
        proof {
            let x = pt.x;
            let y = pt.y;
            assert((x & 7i32) == x % 8i32) by (bit_vector);
            assert((y & 7i32) == y % 8i32) by (bit_vector);
        }
        let ix: usize = (mx as usize) + (my as usize) * 8;
        let cur = self.field[ix];
        self.field[ix] = sat_add_i64(cur, v);
    }

    /// Presentation bytes: one opaque-alpha grey pixel per cell, the sample
    /// clamped to the display range and scaled linearly.
    pub fn getData(&self) -> (r: Vec<u8>)
        requires
            self.wf(),
        ensures
            r@ == quantize_seq(self@),
            r@.len() == 256,
    {
        let mut res: Vec<u8> = Vec::new();
        let mut i: usize = 0;
        proof {
            assert(res@ =~= quantize_seq(self@).subrange(0, 0));
        }
        while i < 64
            invariant
                self.wf(),
                i <= 64,
                res@.len() == 4 * i,
                res@ == quantize_seq(self@).subrange(0, 4 * i as int),
            decreases 64 - i,
        {
            let v = self.field[i];
            let q: u8 = if v > 655360 {
                255
            } else if v < 0 {
                0
            } else {
                proof {
                    vstd::arithmetic::div_mod::lemma_div_is_ordered(
                        v * 255,
                        655360int * 255,
                        655360int,
                    );
                    vstd::arithmetic::div_mod::lemma_div_multiples_vanish(255int, 655360int);
                    vstd::arithmetic::div_mod::lemma_div_pos_is_pos(v * 255, 655360int);
                }
                ((v as u64) * 255 / 655360) as u8
            };
            proof {
                assert(q as int == quantize_cell(self@[i as int] as int));
            }
            res.push(255);
            res.push(q);
            res.push(q);
            res.push(q);
            proof {
                assert(res@ =~= quantize_seq(self@).subrange(0, 4 * (i + 1)));
            }
            i = i + 1;
        }
        proof {
            assert(quantize_seq(self@).subrange(0, 256) =~= quantize_seq(self@));
        }
        res
    }

    /// The tile's error metric: the capped sum of squared samples. It is
    /// never negative.
    pub fn mse(&self) -> (r: i128)
        requires
            self.wf(),
        ensures
            r == sq_sum(self@),
            r >= 0,
    {
        let mut acc: i128 = 0;
        let mut i: usize = 0;
        proof {
            assert(self@.subrange(0, 0) =~= Seq::<i64>::empty());
        }
        while i < 64
            invariant
                self.wf(),
                i <= 64,
                acc == sq_sum(self@.subrange(0, i as int)),
                acc >= 0,
            decreases 64 - i,
        {
            let c = self.field[i];
            let sq: i128 = mul64(c, c);
            proof {
                assert((c as int) * (c as int) >= 0) by (nonlinear_arith);
                let pre = self@.subrange(0, i as int);
                let post = self@.subrange(0, i + 1);
                assert(post.drop_last() =~= pre);
                assert(post.last() == self@[i as int]);
            }
            acc = match acc.checked_add(sq) {
                Some(s) => s,
                None => i128::MAX,
            };
            i = i + 1;
        }
        proof {
            assert(self@.subrange(0, 64) =~= self@);
        }
        acc
    }
}

/// The presentation bytes of a whole tile: four bytes per cell, an opaque
/// alpha then the quantized sample three times.
pub open spec fn quantize_seq(s: Seq<i64>) -> Seq<u8> {
    Seq::new(
        (4 * s.len()) as nat,
        |k: int|
            if k % 4 == 0 {
                255u8
            } else {
                quantize_cell(s[k / 4] as int) as u8
            },
    )
}

/// Map a sample to a display byte: saturate above the presentation ceiling
/// and below zero, linear in between.
pub open spec fn quantize_cell(v: int) -> int {
    if v > 655360 {
        255
    } else if v < 0 {
        0
    } else {
        v * 255 / 655360
    }
}

/// A contribution's magnitude.
pub open spec fn abs1(v: i64) -> int {
    if v < 0 {
        -(v as int)
    } else {
        v as int
    }
}

/// The total magnitude of a batch of point contributions.
pub open spec fn abs_sum(cs: Seq<(IPoint, i64)>) -> int
    decreases cs.len(),
{
    if cs.len() == 0 {
        0
    } else {
        abs_sum(cs.drop_last()) + abs1(cs.last().1)
    }
}

/// Accumulate a batch of point contributions into a tile, in order.
pub open spec fn apply_all(s: Seq<i64>, cs: Seq<(IPoint, i64)>) -> Seq<i64>
    decreases cs.len(),
{
    if cs.len() == 0 {
        s
    } else {
        acc_cell(apply_all(s, cs.drop_last()), cs.last().0, cs.last().1)
    }
}

/// What a batch contributes to one cell, independent of any order.
pub open spec fn cell_sum(cs: Seq<(IPoint, i64)>, k: int) -> int
    decreases cs.len(),
{
    if cs.len() == 0 {
        0
    } else {
        cell_sum(cs.drop_last(), k) + if cell_index(cs.last().0) == k {
            cs.last().1 as int
        } else {
            0
        }
    }
}

proof fn lemma_cell_sum_bounded(cs: Seq<(IPoint, i64)>, k: int)
    ensures
        0 <= abs_sum(cs),
        -abs_sum(cs) <= cell_sum(cs, k) <= abs_sum(cs),
    decreases cs.len(),
{
    if cs.len() > 0 {
        lemma_cell_sum_bounded(cs.drop_last(), k);
    }
}

/// Accumulation is commutative and associative across calls: applying a
/// batch of point contributions in its given order (and hence in any order)
/// yields, in each cell, the starting value plus the batch's order-free sum
/// for that cell — whenever the tile's values stay within the sample range.
pub proof fn lemma_accumulate_order_free(s: Seq<i64>, cs: Seq<(IPoint, i64)>)
    requires
        s.len() == 64,
        forall|k: int|
            0 <= k < 64 ==> i64::MIN <= #[trigger] s[k] - abs_sum(cs) && s[k] + abs_sum(cs)
                <= i64::MAX,
    ensures
        apply_all(s, cs) == Seq::new(64, |k: int| (s[k] + cell_sum(cs, k)) as i64),
    decreases cs.len(),
{
    if cs.len() == 0 {
        assert forall|k: int| 0 <= k < 64 implies cell_sum(cs, k) == 0 by {}
        assert(apply_all(s, cs) =~= Seq::new(64, |k: int| (s[k] + cell_sum(cs, k)) as i64));
    } else {
        let cs2 = cs.drop_last();
        let p = cs.last().0;
        let v = cs.last().1;
        assert(abs1(v) >= 0);
        assert forall|k: int|
            0 <= k < 64 implies i64::MIN <= #[trigger] s[k] - abs_sum(cs2) && s[k] + abs_sum(cs2)
            <= i64::MAX by {
            assert(i64::MIN <= s[k] - abs_sum(cs) && s[k] + abs_sum(cs) <= i64::MAX);
        }
        lemma_accumulate_order_free(s, cs2);
        let mid = apply_all(s, cs2);
        let i0 = cell_index(p);
        lemma_cell_index_range(p);
        assert forall|k: int| 0 <= k < 64 implies apply_all(s, cs)[k] == (s[k] + cell_sum(
            cs,
            k,
        )) as i64 by {
            lemma_cell_sum_bounded(cs2, k);
            assert(i64::MIN <= s[k] - abs_sum(cs) && s[k] + abs_sum(cs) <= i64::MAX);
            if k == i0 {
                assert(mid[k] == (s[k] + cell_sum(cs2, k)) as i64);
                assert(apply_all(s, cs)[k] == sat_add(mid[k] as int, v as int) as i64);
                assert(sat_add(s[k] + cell_sum(cs2, k), v as int) == s[k] + cell_sum(cs, k));
            } else {
                assert(apply_all(s, cs)[k] == mid[k]);
                assert(cell_sum(cs, k) == cell_sum(cs2, k));
            }
        }
        assert(apply_all(s, cs) =~= Seq::new(64, |k: int| (s[k] + cell_sum(cs, k)) as i64));
    }
}

/// Accumulating two contributions into a tile gives the same cells in either
/// order, whenever neither order saturates.
pub proof fn lemma_accumulate_commutes(s: Seq<i64>, p1: IPoint, v1: i64, p2: IPoint, v2: i64)
    requires
        s.len() == 64,
        cell_index(p1) == cell_index(p2) ==> i64::MIN <= s[cell_index(p1)] + v1 <= i64::MAX
            && i64::MIN <= s[cell_index(p1)] + v2 <= i64::MAX && i64::MIN <= s[cell_index(p1)] + v1
            + v2 <= i64::MAX,
        cell_index(p1) != cell_index(p2) ==> i64::MIN <= s[cell_index(p1)] + v1 <= i64::MAX
            && i64::MIN <= s[cell_index(p2)] + v2 <= i64::MAX,
    ensures
        acc_cell(acc_cell(s, p1, v1), p2, v2) == acc_cell(acc_cell(s, p2, v2), p1, v1),
{
    lemma_cell_index_range(p1);
    lemma_cell_index_range(p2);
    let i1 = cell_index(p1);
    let i2 = cell_index(p2);
    if i1 == i2 {
        assert(acc_cell(acc_cell(s, p1, v1), p2, v2) =~= acc_cell(acc_cell(s, p2, v2), p1, v1));
    } else {
        assert(acc_cell(acc_cell(s, p1, v1), p2, v2) =~= acc_cell(acc_cell(s, p2, v2), p1, v1));
    }
}

} // verus!
