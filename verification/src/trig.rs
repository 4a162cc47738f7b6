//! Fixed-point circular functions for the rotation degree of freedom.
//!
//! An angle is a fixed-point scalar in radians. It is first quantized to the
//! nearest of `65536` equal divisions of a full turn ("binary angle units"),
//! then folded into the first quadrant, where a rational approximation of the
//! sine is evaluated exactly in integers. Whole quarter turns are exact: a
//! quantized quarter turn yields exactly `(cos, sin) == (0, SCALE)`.
use vstd::arithmetic::div_mod::lemma_hoist_over_denominator;
use vstd::arithmetic::div_mod::lemma_mod_multiples_vanish;
use vstd::prelude::*;

verus! {

/// One full turn, in binary angle units.
pub const TURN: i64 = 65536;

/// A quarter turn, in binary angle units.
pub const QUARTER: i64 = 16384;

/// Two pi in fixed point, rounded to the nearest unit.
pub const TWO_PI_FX: i64 = 411775;

/// The binary angle unit count nearest to the fixed-point angle `a`.
pub open spec fn bam_of(a: int) -> int {
    (a * 65536 + 205887) / 411775
}

/// `bam_of` wrapped into a single turn, `0 <= .. < 65536`.
pub open spec fn bam_norm(a: int) -> int {
    bam_of(a) % 65536
}

/// Sine on the first quadrant, `0 <= u <= 16384` binary angle units, as a
/// fixed-point value in `[0, SCALE]`: the rational approximation
/// `16 u (h - u) / (5 h^2 - 4 u (h - u))` of `sin(pi u / h)` with `h` a half
/// turn, evaluated in integers and exact at `u == 0` and `u == 16384`.
pub open spec fn half_sin(u: int) -> int {
    16 * u * (32768 - u) * 65536 / (5 * 32768 * 32768 - 4 * u * (32768 - u))
}

/// Sine of a whole-turn binary angle, by quadrant folding.
pub open spec fn sin_bam(b: int) -> int {
    let q = b / 16384;
    let r = b % 16384;
    if q == 0 {
        half_sin(r)
    } else if q == 1 {
        half_sin(16384 - r)
    } else if q == 2 {
        -half_sin(r)
    } else {
        -half_sin(16384 - r)
    }
}

/// Sine of a fixed-point angle in radians, as a fixed-point value.
pub open spec fn sin_fx(a: int) -> int {
    sin_bam(bam_norm(a))
}

/// Cosine of a fixed-point angle in radians, as a fixed-point value.
pub open spec fn cos_fx(a: int) -> int {
    sin_bam((bam_norm(a) + 16384) % 65536)
}

/// Quantize a fixed-point angle to binary angle units within one turn.
fn bam_norm_exec(a: i64) -> (b: u64)
    ensures
        b == bam_norm(a as int),
        b < 65536,
{
    let n: i128 = (a as i128) * 65536 + 205887;
    let shifted: u128 = (n + 411775i128 * 0x10000000000000000i128) as u128;
    let q: u128 = shifted / 411775u128;
    let m: u128 = q % 65536u128;
    proof {
        lemma_hoist_over_denominator(n as int, 0x10000000000000000int, 411775nat);
        assert(shifted as int == n + 0x10000000000000000int * 411775int);
        assert(q == bam_of(a as int) + 0x10000000000000000int);
        assert(q as int == 65536int * 0x1000000000000int + bam_of(a as int));
        lemma_mod_multiples_vanish(0x1000000000000int, bam_of(a as int), 65536int);
        assert(m == bam_norm(a as int));
    }
    m as u64
}

/// First-quadrant sine, exact integer evaluation of `half_sin`.
fn half_sin_exec(u: u64) -> (r: i64)
    requires
        u <= 16384,
    ensures
        r == half_sin(u as int),
        0 <= r <= 65536,
{
    proof {
        assert((u as int) * (32768 - u as int) <= 0x10000000) by (nonlinear_arith)
            requires
                0 <= u as int <= 16384,
        ;
        assert((u as int) * (32768 - u as int) >= 0) by (nonlinear_arith)
            requires
                0 <= u as int <= 16384,
        ;
    }
    let s: u128 = (u as u128) * (32768 - u as u128);
    let num: u128 = 16 * s * 65536;
    let den: u128 = 5 * 32768 * 32768 - 4 * s;
    let r: u128 = num / den;
    proof {
        let ui = u as int;
        let si = ui * (32768 - ui);
        assert(num as int == 16 * si * 65536);
        assert(den as int == 5 * 32768 * 32768 - 4 * si);
        assert(16 * ui * (32768 - ui) * 65536 == 16 * (ui * (32768 - ui)) * 65536) by (nonlinear_arith);
        assert(4 * ui * (32768 - ui) == 4 * (ui * (32768 - ui))) by (nonlinear_arith);
        assert(half_sin(ui) == (num as int) / (den as int));
        assert(16 * si * 65536 <= 65536 * (5 * 32768 * 32768 - 4 * si)) by (nonlinear_arith)
            requires
                0 <= si <= 0x10000000,
        ;
        assert(65536 * (den as int) == (den as int) * 65536);
        vstd::arithmetic::div_mod::lemma_div_is_ordered(
            num as int,
            (den as int) * 65536,
            den as int,
        );
        vstd::arithmetic::div_mod::lemma_div_multiples_vanish(65536int, den as int);
        vstd::arithmetic::div_mod::lemma_div_pos_is_pos(num as int, den as int);
        assert(0 <= r <= 65536);
    }
    r as i64
}

/// Sine of a whole-turn binary angle.
fn sin_bam_exec(b: u64) -> (r: i64)
    requires
        b < 65536,
    ensures
        r == sin_bam(b as int),
        -65536 <= r <= 65536,
{
    let q: u64 = b / 16384;
    let rem: u64 = b % 16384;
    if q == 0 {
        half_sin_exec(rem)
    } else if q == 1 {
        half_sin_exec(16384 - rem)
    } else if q == 2 {
        -half_sin_exec(rem)
    } else {
        proof {
            assert(b as int / 16384 == 3);
        }
        -half_sin_exec(16384 - rem)
    }
}

/// Sine of a fixed-point angle in radians.
pub fn fx_sin(a: i64) -> (r: i64)
    ensures
        r == sin_fx(a as int),
        -65536 <= r <= 65536,
{
    let b = bam_norm_exec(a);
    sin_bam_exec(b)
}

/// Cosine of a fixed-point angle in radians.
pub fn fx_cos(a: i64) -> (r: i64)
    ensures
        r == cos_fx(a as int),
        -65536 <= r <= 65536,
{
    let b = bam_norm_exec(a);
    let shifted: u64 = (b + 16384) % 65536;
    proof {
        vstd::arithmetic::div_mod::lemma_mod_bound((b + 16384) as int, 65536int);
    }
    sin_bam_exec(shifted)
}

/// The rational first-quadrant sine is exact at its two endpoints.
pub proof fn lemma_half_sin_ends()
    ensures
        half_sin(0) == 0,
        half_sin(16384) == 65536,
{
    assert(16 * 0int * (32768 - 0int) * 65536 == 0) by (nonlinear_arith);
    assert(4 * 0int * (32768 - 0int) == 0) by (nonlinear_arith);
    assert(half_sin(0) == 0int / 0x140000000int);
    assert(16 * 16384int * (32768 - 16384int) * 65536 == 0x1000000000000) by (nonlinear_arith);
    assert(5 * 32768int * 32768 - 4 * 16384int * (32768 - 16384int) == 0x100000000)
        by (nonlinear_arith);
    assert(half_sin(16384) == 0x1000000000000int / 0x100000000int);
}

/// An angle of zero has an exact sine of zero and cosine of one.
pub proof fn lemma_trig_at_zero()
    ensures
        sin_fx(0) == 0,
        cos_fx(0) == 65536,
{
    lemma_half_sin_ends();
    assert(bam_of(0) == 205887int / 411775int);
    assert(bam_of(0) == 0);
    assert(bam_norm(0) == 0int % 65536int);
    assert(bam_norm(0) == 0);
    assert(sin_bam(0) == half_sin(0int % 16384int));
    assert(sin_fx(0) == 0);
    assert(cos_fx(0) == sin_bam(16384int % 65536int));
    assert(16384int % 65536int == 16384);
    assert(sin_bam(16384) == half_sin(16384 - 16384int % 16384int));
}

/// The fixed-point angle nearest to a quarter turn (pi over two radians)
/// quantizes to an exact quarter turn: sine one, cosine zero.
pub proof fn lemma_trig_at_quarter_turn()
    ensures
        sin_fx(102944) == 65536,
        cos_fx(102944) == 0,
{
    lemma_half_sin_ends();
    assert(bam_of(102944) == 6746743871int / 411775int);
    assert(bam_of(102944) == 16384);
    assert(bam_norm(102944) == 16384int % 65536int);
    assert(bam_norm(102944) == 16384);
    assert(sin_bam(16384) == half_sin(16384 - 16384int % 16384int));
    assert(sin_fx(102944) == 65536);
    assert(cos_fx(102944) == sin_bam((16384int + 16384int) % 65536int));
    assert((16384int + 16384int) % 65536int == 32768);
    assert(sin_bam(32768) == -half_sin(32768int % 16384int));
    assert(32768int % 16384int == 0);
}

} // verus!
