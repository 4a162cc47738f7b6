//! Geometry primitives: continuous positions as fixed-point pairs, discrete
//! grid coordinates, chunk alignment, and the saturating fixed-point
//! arithmetic the whole engine is built on.
#![allow(non_snake_case)]
use vstd::prelude::*;

verus! {

/// Number of fixed-point units per whole unit: every continuous scalar in the
/// engine is an `i64` holding its value times `SCALE`.
pub const SCALE: i64 = 65536;

/// Edge length of a chunk in cells; a power of two, so grid coordinates can
/// be aligned and wrapped with bit masks.
pub const CHUNK_SIZE: i32 = 8;

/// A continuous position: `x` and `y` are fixed-point scalars.
#[derive(Debug, Clone, Copy, PartialEq, Eq, Structural)]
pub struct Point {
    pub x: i64,
    pub y: i64,
}

/// A discrete chunk or cell coordinate; compared and used as a key by value.
#[derive(Debug, Clone, Copy, PartialEq, Eq, Hash, Structural)]
pub struct IPoint {
    pub x: i32,
    pub y: i32,
}

impl Point {
    pub fn new(x: i64, y: i64) -> (r: Self)
        ensures
            r == (Point { x, y }),
    {
        Point { x, y }
    }
}

impl IPoint {
    pub fn new(x: i32, y: i32) -> (r: Self)
        ensures
            r == (IPoint { x, y }),
    {
        IPoint { x, y }
    }

    pub fn add(&self, pt: IPoint) -> (r: IPoint)
        requires
            i32::MIN <= self.x + pt.x <= i32::MAX,
            i32::MIN <= self.y + pt.y <= i32::MAX,
        ensures
            r.x == self.x + pt.x,
            r.y == self.y + pt.y,
    {
        IPoint { x: self.x + pt.x, y: self.y + pt.y }
    }
}

/// Clamp an unbounded integer into `[lo, hi]`.
pub open spec fn clamp(v: int, lo: int, hi: int) -> int {
    if v < lo {
        lo
    } else if v > hi {
        hi
    } else {
        v
    }
}

/// Clamp into the `i64` range: the saturation the engine's arithmetic uses.
pub open spec fn sat64(v: int) -> int {
    clamp(v, i64::MIN as int, i64::MAX as int)
}

/// Division truncating toward zero (for a positive divisor), as a binary
/// fixed-point scaling step behaves.
pub open spec fn tdiv(a: int, b: int) -> int {
    if a >= 0 {
        a / b
    } else {
        -((-a) / b)
    }
}

/// Saturating addition of two fixed-point scalars.
pub open spec fn sat_add(a: int, b: int) -> int {
    sat64(a + b)
}

/// Saturating subtraction of two fixed-point scalars.
pub open spec fn sat_sub(a: int, b: int) -> int {
    sat64(a - b)
}

/// Fixed-point product: scale the wide product back down, saturating.
pub open spec fn fx_mul(a: int, b: int) -> int {
    sat64(tdiv(a * b, SCALE as int))
}

/// Saturating addition on `i64`, exact whenever the true sum fits.
pub fn sat_add_i64(a: i64, b: i64) -> (r: i64)
    ensures
        r == sat_add(a as int, b as int),
{
    let s: i128 = a as i128 + b as i128;
    if s > i64::MAX as i128 {
        i64::MAX
    } else if s < i64::MIN as i128 {
        i64::MIN
    } else {
        s as i64
    }
}

/// Saturating subtraction on `i64`, exact whenever the true difference fits.
pub fn sat_sub_i64(a: i64, b: i64) -> (r: i64)
    ensures
        r == sat_sub(a as int, b as int),
{
    let s: i128 = a as i128 - b as i128;
    if s > i64::MAX as i128 {
        i64::MAX
    } else if s < i64::MIN as i128 {
        i64::MIN
    } else {
        s as i64
    }
}

/// Divide by `SCALE`, truncating toward zero.
pub fn div_scale(v: i128) -> (r: i128)
    requires
        v > i128::MIN,
    ensures
        r == tdiv(v as int, SCALE as int),
{
    if v >= 0 {
        ((v as u128) / 65536u128) as i128
    } else {
        -((((-v) as u128) / 65536u128) as i128)
    }
}

/// The wide product of two `i64` values, which always fits an `i128`.
pub fn mul64(a: i64, b: i64) -> (r: i128)
    ensures
        r == (a as int) * (b as int),
        -0x40000000000000000000000000000000 <= r <= 0x40000000000000000000000000000000,
{
    proof {
        assert(-0x40000000000000000000000000000000 <= (a as int) * (b as int)
            <= 0x40000000000000000000000000000000) by (nonlinear_arith)
            requires
                -0x8000000000000000 <= a as int <= 0x7fffffffffffffff,
                -0x8000000000000000 <= b as int <= 0x7fffffffffffffff,
        ;
    }
    (a as i128) * (b as i128)
}

/// Narrow a wide intermediate back to `i64`, saturating.
pub fn sat_narrow(v: i128) -> (r: i64)
    ensures
        r == sat64(v as int),
{
    if v > i64::MAX as i128 {
        i64::MAX
    } else if v < i64::MIN as i128 {
        i64::MIN
    } else {
        v as i64
    }
}

/// Fixed-point multiplication on `i64`.
pub fn fx_mul_i64(a: i64, b: i64) -> (r: i64)
    ensures
        r == fx_mul(a as int, b as int),
{
    let p: i128 = mul64(a, b);
    let q = div_scale(p);
    sat_narrow(q)
}

/// The chunk-aligned coordinate covering a grid point: each axis rounded
/// down to a multiple of the chunk edge.
pub open spec fn spec_align(p: IPoint) -> IPoint {
    IPoint { x: (p.x - p.x % 8) as i32, y: (p.y - p.y % 8) as i32 }
}

/// Alignment lands on a multiple of the edge and is idempotent.
pub proof fn lemma_align_aligned(p: IPoint)
    ensures
        spec_align(p).x % 8 == 0,
        spec_align(p).y % 8 == 0,
        spec_align(spec_align(p)) == spec_align(p),
{
    let x = p.x as int;
    let y = p.y as int;
    vstd::arithmetic::div_mod::lemma_fundamental_div_mod(x, 8);
    vstd::arithmetic::div_mod::lemma_fundamental_div_mod(y, 8);
    assert(x - x % 8 == 8 * (x / 8));
    assert(y - y % 8 == 8 * (y / 8));
    vstd::arithmetic::div_mod::lemma_mod_multiples_basic(x / 8, 8);
    vstd::arithmetic::div_mod::lemma_mod_multiples_basic(y / 8, 8);
}

/// The chunk-aligned coordinate covering `pt`: each axis rounded down to a
/// multiple of `CHUNK_SIZE` by masking away the low bits.
pub fn chunkCoord(pt: &IPoint) -> (r: IPoint)
    ensures
        r == spec_align(*pt),
        r.x == pt.x - pt.x % 8,
        r.y == pt.y - pt.y % 8,
        r.x % 8 == 0,
        r.y % 8 == 0,
        r.x <= pt.x < r.x + 8,
        r.y <= pt.y < r.y + 8,
{
    let x = pt.x & !(CHUNK_SIZE - 1);
    let y = pt.y & !(CHUNK_SIZE - 1);
    proof {
        let px = pt.x;
        let py = pt.y;
        assert((px & !7i32) == px - px % 8i32) by (bit_vector);
        assert((py & !7i32) == py - py % 8i32) by (bit_vector);
        lemma_align_aligned(*pt);
    }
    IPoint { x, y }
}

} // verus!
