//! Field sources ("blops") and the field they stamp into a chunk: a source
//! contributes `strength` scaled by the kernel's falloff at the integer
//! squared distance between source and sample point, and nothing at or past
//! the kernel cutoff.
use crate::chunk::Chunk;
use crate::chunk::acc_cell;
use crate::chunk::cell_index;
use crate::geom::IPoint;
use crate::geom::Point;
use crate::geom::chunkCoord;
use crate::geom::clamp;
use crate::geom::div_scale;
use crate::geom::lemma_align_aligned;
use crate::geom::spec_align;
use crate::geom::tdiv;
use crate::geom::fx_mul;
use crate::geom::fx_mul_i64;
use crate::geom::sat_add;
use crate::transform::Transform;
use crate::transform::spec_transform_pt;
use crate::transform::transform_pt;
use crate::transform::wf;
use vstd::prelude::*;

verus! {

/// A radially symmetric field emitter: a fixed-point position in its
/// object's local space and a fixed-point strength.
#[derive(Debug, Clone, Copy, PartialEq, Eq, Structural)]
pub struct Blop {
    pub at: Point,
    pub strength: i64,
}

/// A source's contribution at a point: the kernel entry for the integer
/// squared distance, scaled by the strength; zero past the table's end.
pub open spec fn spec_field_at(table: Seq<i64>, b: Blop, p: Point) -> int {
    let dx = b.at.x - p.x;
    let dy = b.at.y - p.y;
    let d2 = (dx * dx + dy * dy) / 0x100000000;
    if d2 < table.len() {
        fx_mul(b.strength as int, table[d2] as int)
    } else {
        0
    }
}

impl Blop {
    pub fn new(pt: Point, strength: i64) -> (r: Self)
        ensures
            r == (Blop { at: pt, strength }),
    {
        Blop { at: pt, strength }
    }

    /// The source carried into world space by a transform.
    pub fn transform_by(&self, tx: &Transform) -> (r: Self)
        requires
            wf(*tx),
        ensures
            r == (Blop { at: spec_transform_pt(*tx, self.at), strength: self.strength }),
    {
        Blop { at: transform_pt(tx, &self.at), strength: self.strength }
    }

    /// This source's field contribution at `pt`.
    pub fn field_at(&self, field_ref: &Vec<i64>, pt: &Point) -> (r: i64)
        requires
            field_ref@.len() == 256,
        ensures
            r == spec_field_at(field_ref@, *self, *pt),
    {
        let dx: i128 = self.at.x as i128 - pt.x as i128;
        let dy: i128 = self.at.y as i128 - pt.y as i128;
        if dx >= 0x10000000 || dx <= -0x10000000 || dy >= 0x10000000 || dy <= -0x10000000 {
            proof {
                lemma_far_sources_vanish(field_ref@, *self, *pt);
            }
            return 0;
        }
        proof {
            assert(dx * dx >= 0 && dx * dx < 0x100000000000000) by (nonlinear_arith)
                requires
                    -0x10000000 < dx < 0x10000000,
            ;
            assert(dy * dy >= 0 && dy * dy < 0x100000000000000) by (nonlinear_arith)
                requires
                    -0x10000000 < dy < 0x10000000,
            ;
        }
        let sq: i128 = dx * dx + dy * dy;
        let d2: u128 = (sq as u128) / 0x100000000u128;
        if d2 < 256 {
            fx_mul_i64(self.strength, field_ref[d2 as usize])
        } else {
            0
        }
    }
}

/// Past the cutoff window on either axis, the squared-distance bucket lies
/// at or beyond the table's end, so the contribution is zero.
proof fn lemma_far_sources_vanish(table: Seq<i64>, b: Blop, p: Point)
    requires
        table.len() == 256,
        (b.at.x - p.x >= 0x10000000) || (b.at.x - p.x <= -0x10000000) || (b.at.y - p.y
            >= 0x10000000) || (b.at.y - p.y <= -0x10000000),
    ensures
        spec_field_at(table, b, p) == 0,
{
    let dx = b.at.x - p.x;
    let dy = b.at.y - p.y;
    assert(dx * dx + dy * dy >= 0x100000000000000) by (nonlinear_arith)
        requires
            dx >= 0x10000000 || dx <= -0x10000000 || dy >= 0x10000000 || dy <= -0x10000000,
    ;
    assert((dx * dx + dy * dy) / 0x100000000 >= 0x1000000) by {
        vstd::arithmetic::div_mod::lemma_div_is_ordered(
            0x100000000000000,
            dx * dx + dy * dy,
            0x100000000,
        );
        assert(0x100000000000000int / 0x100000000int == 0x1000000) by {
            vstd::arithmetic::div_mod::lemma_div_multiples_vanish(0x1000000, 0x100000000);
        }
    }
}

/// The world-space sample point of cell `k` of the chunk anchored at `pt`.
pub open spec fn spec_cell_world(pt: IPoint, k: int) -> Point {
    Point { x: ((k % 8 + pt.x) * 65536) as i64, y: ((k / 8 + pt.y) * 65536) as i64 }
}

/// Fold a whole source list into one cell value, saturating step by step.
pub open spec fn acc_blops(table: Seq<i64>, blops: Seq<Blop>, c0: int, p: Point) -> int
    decreases blops.len(),
{
    if blops.len() == 0 {
        c0
    } else {
        sat_add(acc_blops(table, blops.drop_last(), c0, p), spec_field_at(table, blops.last(), p))
    }
}

/// The cells of a chunk anchored at `pt` after every source in `blops` has
/// contributed to every cell.
pub open spec fn spec_add_field(
    table: Seq<i64>,
    pt: IPoint,
    blops: Seq<Blop>,
    cells: Seq<i64>,
) -> Seq<i64> {
    Seq::new(cells.len(), |k: int| acc_blops(table, blops, cells[k] as int, spec_cell_world(pt, k)) as i64)
}

/// Accumulate every source's contribution into every cell of the chunk
/// anchored at world chunk coordinate `pt`.
pub fn add_field(field_ref: &Vec<i64>, pt: &IPoint, blorps: &Vec<Blop>, chunk: &mut Chunk)
    requires
        field_ref@.len() == 256,
        old(chunk).wf(),
    ensures
        final(chunk).wf(),
        final(chunk)@ == spec_add_field(field_ref@, *pt, blorps@, old(chunk)@),
{
    let ghost cells0 = chunk@;
    let nb = blorps.len();
    let mut k: usize = 0;
    while k < 64
        invariant
            field_ref@.len() == 256,
            chunk.wf(),
            nb == blorps@.len(),
            k <= 64,
            cells0.len() == 64,
            forall|m: int|
                0 <= m < k ==> chunk@[m] == acc_blops(
                    field_ref@,
                    blorps@,
                    cells0[m] as int,
                    spec_cell_world(*pt, m),
                ) as i64,
            forall|m: int| k <= m < 64 ==> chunk@[m] == cells0[m],
        decreases 64 - k,
    {
        let kx: i32 = (k % 8) as i32;
        let ky: i32 = (k / 8) as i32;
        let fpt = IPoint { x: kx, y: ky };
        let wx: i64 = ((kx as i64) + (pt.x as i64)) * 65536;
        let wy: i64 = ((ky as i64) + (pt.y as i64)) * 65536;
        let world = Point { x: wx, y: wy };
        proof {
            assert(world == spec_cell_world(*pt, k as int));
            assert(cell_index(fpt) == k as int) by {
                vstd::arithmetic::div_mod::lemma_small_mod((k % 8) as nat, 8);
                vstd::arithmetic::div_mod::lemma_small_mod((k / 8) as nat, 8);
            }
        }
        let mut b: usize = 0;
        while b < nb
            invariant
                field_ref@.len() == 256,
                chunk.wf(),
                nb == blorps@.len(),
                k < 64,
                b <= nb,
                cells0.len() == 64,
                cell_index(fpt) == k as int,
                world == spec_cell_world(*pt, k as int),
                forall|m: int|
                    0 <= m < k ==> chunk@[m] == acc_blops(
                        field_ref@,
                        blorps@,
                        cells0[m] as int,
                        spec_cell_world(*pt, m),
                    ) as i64,
                forall|m: int| k < m < 64 ==> chunk@[m] == cells0[m],
                chunk@[k as int] == acc_blops(
                    field_ref@,
                    blorps@.subrange(0, b as int),
                    cells0[k as int] as int,
                    world,
                ) as i64,
            decreases nb - b,
        {
            let fval = blorps[b].field_at(field_ref, &world);
            let ghost pre = chunk@;
            chunk.addFieldValue(&fpt, fval);
            proof {
                assert(chunk@ == acc_cell(pre, fpt, fval));
                let prefix1 = blorps@.subrange(0, b + 1);
                assert(prefix1.drop_last() =~= blorps@.subrange(0, b as int));
                assert(prefix1.last() == blorps@[b as int]);
            }
            b = b + 1;
        }
        proof {
            assert(blorps@.subrange(0, nb as int) =~= blorps@);
        }
        k = k + 1;
    }
    proof {
        assert(chunk@ =~= spec_add_field(field_ref@, *pt, blorps@, cells0));
    }
}

/// The integer grid cell a world-space source falls in: the fixed-point
/// coordinate truncated toward zero and saturated at the grid range.
pub open spec fn blop_cell(b: Blop) -> IPoint {
    IPoint {
        x: clamp(tdiv(b.at.x as int, 65536), i32::MIN as int, i32::MAX as int) as i32,
        y: clamp(tdiv(b.at.y as int, 65536), i32::MIN as int, i32::MAX as int) as i32,
    }
}

/// A chunk coordinate shifted by whole chunks, saturated at the grid range
/// and re-aligned.
pub open spec fn halo_add(c: IPoint, dx: int, dy: int) -> IPoint {
    spec_align(
        IPoint {
            x: clamp(c.x + dx * 8, i32::MIN as int, i32::MAX as int) as i32,
            y: clamp(c.y + dy * 8, i32::MIN as int, i32::MAX as int) as i32,
        },
    )
}

/// Neighbor `d` (of nine) of the chunk containing source `i`.
pub open spec fn halo_at(blops: Seq<Blop>, i: int, d: int) -> IPoint {
    halo_add(spec_align(blop_cell(blops[i])), d % 3 - 1, d / 3 - 1)
}

/// Whether `p` is one of the nine chunk-aligned neighbors of the chunk
/// containing some source of the list.
pub open spec fn halo_member(blops: Seq<Blop>, p: IPoint) -> bool {
    exists|i: int, d: int| 0 <= i < blops.len() && 0 <= d < 9 && p == halo_at(blops, i, d)
}

/// A fresh tile's cells.
pub open spec fn zero_cells() -> Seq<i64> {
    Seq::new(64, |i: int| 0i64)
}

/// The cells stamping starts from at `p`: the chunk already there, or a
/// fresh zero tile.
pub open spec fn base_cells(u: crate::universe::Universe, p: IPoint) -> Seq<i64> {
    if u.has_chunk(p) {
        u.chunk_at(p)
    } else {
        zero_cells()
    }
}

/// A source list carried into world space by one transform.
pub open spec fn spec_transform_blops(blops: Seq<Blop>, t: Transform) -> Seq<Blop> {
    blops.map_values(|b: Blop| Blop { at: spec_transform_pt(t, b.at), strength: b.strength })
}

/// Truncate a fixed-point coordinate to its integer grid cell.
fn fx_to_grid(v: i64) -> (r: i32)
    ensures
        r as int == clamp(tdiv(v as int, 65536), i32::MIN as int, i32::MAX as int),
{
    let q = div_scale(v as i128);
    if q > i32::MAX as i128 {
        i32::MAX
    } else if q < i32::MIN as i128 {
        i32::MIN
    } else {
        q as i32
    }
}

/// Scan for a coordinate by value.
fn contains_pt(v: &Vec<IPoint>, p: &IPoint) -> (r: bool)
    ensures
        r == v@.contains(*p),
{
    let n = v.len();
    let mut i: usize = 0;
    while i < n
        invariant
            n == v@.len(),
            i <= n,
            forall|j: int| 0 <= j < i ==> v@[j] != *p,
        decreases n - i,
    {
        if v[i].x == p.x && v[i].y == p.y {
            proof {
                assert(v@[i as int] == *p);
            }
            return true;
        }
        i = i + 1;
    }
    proof {
        assert(forall|j: int| 0 <= j < v@.len() ==> v@[j] != *p);
    }
    false
}

/// The set of chunk coordinates the sources can influence: for each source,
/// the chunk containing it and its eight neighbors, without duplicates.
pub fn identify_chunks(blops: &Vec<Blop>) -> (r: Vec<IPoint>)
    ensures
        forall|a: int, b: int| 0 <= a < b < r@.len() ==> r@[a] != r@[b],
        forall|j: int| 0 <= j < r@.len() ==> halo_member(blops@, #[trigger] r@[j]),
        forall|i: int, d: int|
            0 <= i < blops@.len() && 0 <= d < 9 ==> r@.contains(#[trigger] halo_at(blops@, i, d)),
        forall|j: int| 0 <= j < r@.len() ==> spec_align(#[trigger] r@[j]) == r@[j],
{
    let mut res: Vec<IPoint> = Vec::new();
    let nb = blops.len();
    let mut bi: usize = 0;
    while bi < nb
        invariant
            nb == blops@.len(),
            bi <= nb,
            forall|a: int, b: int| 0 <= a < b < res@.len() ==> res@[a] != res@[b],
            forall|j: int| 0 <= j < res@.len() ==> halo_member(blops@, #[trigger] res@[j]),
            forall|i2: int, d2: int|
                0 <= i2 < bi && 0 <= d2 < 9 ==> res@.contains(#[trigger] halo_at(blops@, i2, d2)),
            forall|j: int| 0 <= j < res@.len() ==> spec_align(#[trigger] res@[j]) == res@[j],
        decreases nb - bi,
    {
        let cell = IPoint { x: fx_to_grid(blops[bi].at.x), y: fx_to_grid(blops[bi].at.y) };
        let c = chunkCoord(&cell);
        proof {
            assert(cell == blop_cell(blops@[bi as int]));
            assert(c == spec_align(blop_cell(blops@[bi as int])));
        }
        let mut d: usize = 0;
        while d < 9
            invariant
                nb == blops@.len(),
                bi < nb,
                d <= 9,
                c == spec_align(blop_cell(blops@[bi as int])),
                forall|a: int, b: int| 0 <= a < b < res@.len() ==> res@[a] != res@[b],
                forall|j: int| 0 <= j < res@.len() ==> halo_member(blops@, #[trigger] res@[j]),
                forall|i2: int, d2: int|
                    0 <= i2 < bi && 0 <= d2 < 9 ==> res@.contains(
                        #[trigger] halo_at(blops@, i2, d2),
                    ),
                forall|d2: int|
                    0 <= d2 < d ==> res@.contains(#[trigger] halo_at(blops@, bi as int, d2)),
                forall|j: int| 0 <= j < res@.len() ==> spec_align(#[trigger] res@[j]) == res@[j],
            decreases 9 - d,
        {
            let dx: i32 = (d % 3) as i32 - 1;
            let dy: i32 = (d / 3) as i32 - 1;
            let sx: i64 = (c.x as i64) + (dx as i64) * 8;
            let sy: i64 = (c.y as i64) + (dy as i64) * 8;
            let ux: i32 = if sx > i32::MAX as i64 {
                i32::MAX
            } else if sx < i32::MIN as i64 {
                i32::MIN
            } else {
                sx as i32
            };
            let uy: i32 = if sy > i32::MAX as i64 {
                i32::MAX
            } else if sy < i32::MIN as i64 {
                i32::MIN
            } else {
                sy as i32
            };
            let q = chunkCoord(&IPoint { x: ux, y: uy });
            proof {
                assert(q == halo_at(blops@, bi as int, d as int));
                lemma_align_aligned(IPoint { x: ux, y: uy });
                assert(spec_align(q) == q);
            }
            if !contains_pt(&res, &q) {
                let ghost pre = res@;
                res.push(q);
                proof {
                    assert(forall|j: int| 0 <= j < pre.len() ==> res@[j] == pre[j]);
                    assert(res@[pre.len() as int] == q);
                    assert forall|i2: int, d2: int| 0 <= i2 < bi && 0 <= d2 < 9 implies res@
                        .contains(#[trigger] halo_at(blops@, i2, d2)) by {
                        assert(pre.contains(halo_at(blops@, i2, d2)));
                        let w = choose|w: int| 0 <= w < pre.len() && pre[w] == halo_at(
                            blops@,
                            i2,
                            d2,
                        );
                        assert(res@[w] == halo_at(blops@, i2, d2));
                    }
                    assert forall|d2: int| 0 <= d2 < d + 1 implies res@.contains(
                        #[trigger] halo_at(blops@, bi as int, d2),
                    ) by {
                        if d2 < d {
                            assert(pre.contains(halo_at(blops@, bi as int, d2)));
                            let w = choose|w: int|
                                0 <= w < pre.len() && pre[w] == halo_at(blops@, bi as int, d2);
                            assert(res@[w] == halo_at(blops@, bi as int, d2));
                        } else {
                            assert(res@[pre.len() as int] == halo_at(blops@, bi as int, d2));
                        }
                    }
                }
            } else {
                proof {
                    assert forall|d2: int| 0 <= d2 < d + 1 implies res@.contains(
                        #[trigger] halo_at(blops@, bi as int, d2),
                    ) by {}
                }
            }
            d = d + 1;
        }
        bi = bi + 1;
    }
    res
}

} // verus!
