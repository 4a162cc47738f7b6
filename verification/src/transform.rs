//! Affine plane transforms in fixed point: rotation about the origin,
//! translation, composition, and application to a point. A transform is the
//! matrix `[[a, b, c], [d, e, f], [0, 0, SCALE]]` with every entry a
//! fixed-point scalar; composition rescales each entry and saturates it into
//! `[-TLIM, TLIM]`.
use crate::geom::Point;
use crate::geom::SCALE;
use crate::geom::clamp;
use crate::geom::div_scale;
use crate::geom::mul64;
use crate::geom::sat64;
use crate::geom::sat_narrow;
use crate::geom::tdiv;
use crate::trig::cos_fx;
use crate::trig::fx_cos;
use crate::trig::fx_sin;
use crate::trig::sin_fx;
use vstd::arithmetic::div_mod::lemma_div_multiples_vanish;
use vstd::prelude::*;

verus! {

/// Magnitude bound kept on every transform entry.
pub const TLIM: i64 = 0x4000000000000000;

/// Rows `[[a, b, c], [d, e, f], [0, 0, SCALE]]`; `c` and `f` carry the
/// translation, all entries fixed-point.
#[derive(Debug, Clone, Copy, PartialEq, Eq, Structural)]
pub struct Transform {
    pub a: i64,
    pub b: i64,
    pub c: i64,
    pub d: i64,
    pub e: i64,
    pub f: i64,
}

/// Every entry within the saturation bound.
pub open spec fn wf(t: Transform) -> bool {
    &&& -TLIM <= t.a <= TLIM
    &&& -TLIM <= t.b <= TLIM
    &&& -TLIM <= t.c <= TLIM
    &&& -TLIM <= t.d <= TLIM
    &&& -TLIM <= t.e <= TLIM
    &&& -TLIM <= t.f <= TLIM
}

/// Clamp a composed entry into the transform range.
pub open spec fn satt(v: int) -> int {
    clamp(v, -TLIM as int, TLIM as int)
}

pub open spec fn spec_identity() -> Transform {
    Transform { a: SCALE, b: 0, c: 0, d: 0, e: SCALE, f: 0 }
}

pub open spec fn spec_rotmatrix(v: int) -> Transform {
    Transform {
        a: cos_fx(v) as i64,
        b: (-sin_fx(v)) as i64,
        c: 0,
        d: sin_fx(v) as i64,
        e: cos_fx(v) as i64,
        f: 0,
    }
}

pub open spec fn spec_txmatrix(x: int, y: int) -> Transform {
    Transform {
        a: SCALE,
        b: 0,
        c: satt(x) as i64,
        d: 0,
        e: SCALE,
        f: satt(y) as i64,
    }
}

/// One entry of a composed transform: the fixed-point dot product, saturated.
pub open spec fn comp2(p: int, q: int, r: int, s: int) -> int {
    satt(tdiv(p * q + r * s, SCALE as int))
}

/// An entry of the translation column: the dot product plus the carried
/// offset, saturated.
pub open spec fn comp3(p: int, q: int, r: int, s: int, t: int) -> int {
    satt(tdiv(p * q + r * s + t * SCALE, SCALE as int))
}

pub open spec fn spec_matmult(m1: Transform, m2: Transform) -> Transform {
    Transform {
        a: comp2(m1.a as int, m2.a as int, m1.b as int, m2.d as int) as i64,
        b: comp2(m1.a as int, m2.b as int, m1.b as int, m2.e as int) as i64,
        c: comp3(m1.a as int, m2.c as int, m1.b as int, m2.f as int, m1.c as int) as i64,
        d: comp2(m1.d as int, m2.a as int, m1.e as int, m2.d as int) as i64,
        e: comp2(m1.d as int, m2.b as int, m1.e as int, m2.e as int) as i64,
        f: comp3(m1.d as int, m2.c as int, m1.e as int, m2.f as int, m1.f as int) as i64,
    }
}

/// Where the transform sends a point: the fixed-point affine map, saturated
/// into the `i64` range.
pub open spec fn spec_transform_pt(t: Transform, p: Point) -> Point {
    Point {
        x: sat64(tdiv(t.a * p.x + t.b * p.y + t.c * SCALE, SCALE as int)) as i64,
        y: sat64(tdiv(t.d * p.x + t.e * p.y + t.f * SCALE, SCALE as int)) as i64,
    }
}

/// The identity transform.
pub fn identity() -> (r: Transform)
    ensures
        r == spec_identity(),
        wf(r),
{
    Transform { a: SCALE, b: 0, c: 0, d: 0, e: SCALE, f: 0 }
}

/// Rotation about the origin by the fixed-point angle `v` (radians).
pub fn rotmatrix(v: i64) -> (r: Transform)
    ensures
        r == spec_rotmatrix(v as int),
        wf(r),
{
    let s = fx_sin(v);
    let c = fx_cos(v);
    Transform { a: c, b: -s, c: 0, d: s, e: c, f: 0 }
}

/// Translation by `(x, y)`, saturated into the entry range.
pub fn txmatrix(x: i64, y: i64) -> (r: Transform)
    ensures
        r == spec_txmatrix(x as int, y as int),
        wf(r),
{
    let cx = if x > TLIM {
        TLIM
    } else if x < -TLIM {
        -TLIM
    } else {
        x
    };
    let cy = if y > TLIM {
        TLIM
    } else if y < -TLIM {
        -TLIM
    } else {
        y
    };
    Transform { a: SCALE, b: 0, c: cx, d: 0, e: SCALE, f: cy }
}

/// A wide product whose left factor is a transform entry.
fn mulb(a: i64, b: i64) -> (r: i128)
    requires
        -TLIM <= a <= TLIM,
    ensures
        r == (a as int) * (b as int),
        -0x20000000000000000000000000000000 <= r <= 0x20000000000000000000000000000000,
{
    proof {
        assert(-0x20000000000000000000000000000000 <= (a as int) * (b as int)
            <= 0x20000000000000000000000000000000) by (nonlinear_arith)
            requires
                -0x4000000000000000 <= a as int <= 0x4000000000000000,
                -0x8000000000000000 <= b as int <= 0x7fffffffffffffff,
        ;
    }
    (a as i128) * (b as i128)
}

/// Saturate a rescaled entry into the transform range.
fn satt_exec(v: i128) -> (r: i64)
    ensures
        r == satt(v as int),
{
    if v > TLIM as i128 {
        TLIM
    } else if v < -TLIM as i128 {
        -TLIM
    } else {
        v as i64
    }
}

/// Compose two transforms: the matrix product, each entry rescaled and
/// saturated.
pub fn matmult(m1: &Transform, m2: &Transform) -> (r: Transform)
    requires
        wf(*m1),
        wf(*m2),
    ensures
        r == spec_matmult(*m1, *m2),
        wf(r),
{
    let ra = satt_exec(div_scale(mulb(m1.a, m2.a) + mulb(m1.b, m2.d)));
    let rb = satt_exec(div_scale(mulb(m1.a, m2.b) + mulb(m1.b, m2.e)));
    let rc = satt_exec(div_scale(mulb(m1.a, m2.c) + mulb(m1.b, m2.f) + mulb(m1.c, SCALE)));
    let rd = satt_exec(div_scale(mulb(m1.d, m2.a) + mulb(m1.e, m2.d)));
    let re = satt_exec(div_scale(mulb(m1.d, m2.b) + mulb(m1.e, m2.e)));
    let rf = satt_exec(div_scale(mulb(m1.d, m2.c) + mulb(m1.e, m2.f) + mulb(m1.f, SCALE)));
    Transform { a: ra, b: rb, c: rc, d: rd, e: re, f: rf }
}

/// Apply a transform to a point.
pub fn transform_pt(v: &Transform, pt: &Point) -> (r: Point)
    requires
        wf(*v),
    ensures
        r == spec_transform_pt(*v, *pt),
{
    let x = sat_narrow(div_scale(mulb(v.a, pt.x) + mulb(v.b, pt.y) + mulb(v.c, SCALE)));
    let y = sat_narrow(div_scale(mulb(v.d, pt.x) + mulb(v.e, pt.y) + mulb(v.f, SCALE)));
    Point { x, y }
}

/// Rescaling an entry that is a whole multiple of `SCALE` recovers the
/// multiplier exactly.
pub proof fn lemma_tdiv_scale(x: int)
    ensures
        tdiv(65536 * x, 65536) == x,
{
    if 65536 * x >= 0 {
        lemma_div_multiples_vanish(x, 65536);
    } else {
        assert(-(65536 * x) == 65536 * (-x));
        lemma_div_multiples_vanish(-x, 65536);
    }
}

/// Composing with the identity on the left changes nothing.
pub proof fn lemma_matmult_identity_left(m: Transform)
    requires
        wf(m),
    ensures
        spec_matmult(spec_identity(), m) == m,
{
    lemma_tdiv_scale(m.a as int);
    lemma_tdiv_scale(m.b as int);
    lemma_tdiv_scale(m.c as int);
    lemma_tdiv_scale(m.d as int);
    lemma_tdiv_scale(m.e as int);
    lemma_tdiv_scale(m.f as int);
}

/// Composing with the identity on the right changes nothing.
pub proof fn lemma_matmult_identity_right(m: Transform)
    requires
        wf(m),
    ensures
        spec_matmult(m, spec_identity()) == m,
{
    lemma_tdiv_scale(m.a as int);
    lemma_tdiv_scale(m.b as int);
    lemma_tdiv_scale(m.c as int);
    lemma_tdiv_scale(m.d as int);
    lemma_tdiv_scale(m.e as int);
    lemma_tdiv_scale(m.f as int);
}

/// A pure translation moves every point by exactly its offset, when nothing
/// saturates.
pub proof fn lemma_transform_pt_translate(x0: int, y0: int, p: Point)
    requires
        -TLIM <= x0 <= TLIM,
        -TLIM <= y0 <= TLIM,
        i64::MIN <= p.x + x0 <= i64::MAX,
        i64::MIN <= p.y + y0 <= i64::MAX,
    ensures
        spec_transform_pt(spec_txmatrix(x0, y0), p) == (Point {
            x: (p.x + x0) as i64,
            y: (p.y + y0) as i64,
        }),
{
    assert(65536 * p.x + 0 * p.y + x0 * 65536 == 65536 * (p.x + x0));
    assert(65536 * p.y + 0 * p.x + y0 * 65536 == 65536 * (p.y + y0));
    lemma_tdiv_scale(p.x + x0);
    lemma_tdiv_scale(p.y + y0);
}

} // verus!
