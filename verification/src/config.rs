//! Configurations: a dense vector of fixed-point scalars, one per registry
//! slot, index-aligned with the registry's object order. A configuration is
//! realized into a fresh sparse universe by resolving every object's
//! transform and stamping its sources; the optimizer's search variable is a
//! configuration.
use crate::error::SimError;
use crate::geom::IPoint;
use crate::geom::sat_add;
use crate::geom::sat_add_i64;
use crate::geom::sat_sub;
use crate::geom::sat_sub_i64;
use crate::geom::fx_mul_i64;
use crate::object::halo_member;
use crate::object::spec_add_field;
use crate::object::spec_transform_blops;
use crate::object::zero_cells;
use crate::registry::ObjectUniverse;
use crate::registry::Object;
use crate::registry::resolve_transform;
use crate::registry::spec_resolve;
use crate::universe::Universe;
use vstd::prelude::*;

verus! {

/// Relies on rand::random: an unconstrained value drawn from the process
/// random source; nothing is promised of it.
pub assume_specification<T>[ rand::random::<T> ]() -> (r: T)
    where
        rand::distributions::Standard: rand::distributions::Distribution<T>,
;

/// The map a universe denotes: its chunk cells keyed by aligned coordinate.
pub open spec fn uni_map(u: Universe) -> Map<IPoint, Seq<i64>> {
    Map::new(|p: IPoint| u.has_chunk(p), |p: IPoint| u.chunk_at(p))
}

/// One object's stamping at the map level: every halo chunk accumulates the
/// transformed sources over what was there (or a fresh zero tile); other
/// chunks are untouched.
pub open spec fn stamp_map(
    table: Seq<i64>,
    m: Map<IPoint, Seq<i64>>,
    tb: Seq<crate::object::Blop>,
) -> Map<IPoint, Seq<i64>> {
    Map::new(
        |p: IPoint| m.dom().contains(p) || halo_member(tb, p),
        |p: IPoint|
            if halo_member(tb, p) {
                spec_add_field(
                    table,
                    p,
                    tb,
                    if m.dom().contains(p) {
                        m[p]
                    } else {
                        zero_cells()
                    },
                )
            } else {
                m[p]
            },
    )
}

/// The universe denoted by realizing the first `n` objects in order.
pub open spec fn realize_map(
    table: Seq<i64>,
    objs: Seq<Object>,
    cfg: Seq<i64>,
    n: int,
) -> Map<IPoint, Seq<i64>>
    decreases n,
{
    if n <= 0 {
        Map::empty()
    } else {
        let t = spec_resolve(objs, cfg, n - 1, objs.len())->Ok_0;
        stamp_map(
            table,
            realize_map(table, objs, cfg, n - 1),
            spec_transform_blops(objs[n - 1].blops@, t),
        )
    }
}

/// Elementwise saturating sum of two scalar vectors.
pub open spec fn spec_plus(a: Seq<i64>, b: Seq<i64>) -> Seq<i64> {
    Seq::new(a.len(), |i: int| sat_add(a[i] as int, b[i] as int) as i64)
}

/// Elementwise saturating difference of two scalar vectors.
pub open spec fn spec_minus(a: Seq<i64>, b: Seq<i64>) -> Seq<i64> {
    Seq::new(a.len(), |i: int| sat_sub(a[i] as int, b[i] as int) as i64)
}

/// Half the magnitude of a perturbation amplitude: the largest offset one
/// draw can produce.
pub open spec fn half_mag(p: int) -> int {
    (if p < 0 {
        -p
    } else {
        p
    }) / 2
}

/// A dense vector of degree-of-freedom scalars, one per registry slot.
#[derive(Debug)]
pub struct ObjectConfiguration {
    pub positions: Vec<i64>,
}

impl Clone for ObjectConfiguration {
    fn clone(&self) -> (r: Self)
        ensures
            r.positions@ == self.positions@,
    {
        let p = self.positions.clone();
        proof {
            assert(p@ =~= self.positions@);
        }
        ObjectConfiguration { positions: p }
    }
}

impl ObjectConfiguration {
    /// The all-zero configuration for a registry: one scalar per object.
    pub fn new(ou: &ObjectUniverse) -> (r: Self)
        ensures
            r.positions@.len() == ou.objs().len(),
            forall|i: int| 0 <= i < r.positions@.len() ==> r.positions@[i] == 0,
    {
        let n = ou.len();
        let mut positions: Vec<i64> = Vec::new();
        let mut i: usize = 0;
        while i < n
            invariant
                i <= n,
                positions@.len() == i,
                forall|j: int| 0 <= j < i ==> positions@[j] == 0,
            decreases n - i,
        {
            positions.push(0);
            i = i + 1;
        }
        ObjectConfiguration { positions }
    }

    /// The scalar at a registry slot.
    pub fn getPosition(&self, idx: usize) -> (r: i64)
        requires
            idx < self.positions@.len(),
        ensures
            r == self.positions@[idx as int],
    {
        self.positions[idx]
    }

    /// A copy with every scalar nudged by an independent random offset of
    /// magnitude at most half the amplitude. The configuration itself is
    /// unchanged.
    pub fn perturb(&mut self, perturb: i64) -> (r: ObjectConfiguration)
        ensures
            final(self).positions@ == old(self).positions@,
            r.positions@.len() == old(self).positions@.len(),
            forall|i: int|
                0 <= i < r.positions@.len() ==> -half_mag(perturb as int) <= #[trigger] r.positions@[i]
                    - old(self).positions@[i] <= half_mag(perturb as int),
    {
        let n = self.positions.len();
        let mut next: Vec<i64> = Vec::new();
        let mut i: usize = 0;
        while i < n
            invariant
                self.positions@ == old(self).positions@,
                n == self.positions@.len(),
                i <= n,
                next@.len() == i,
                forall|j: int|
                    0 <= j < i ==> -half_mag(perturb as int) <= #[trigger] next@[j]
                        - old(self).positions@[j] <= half_mag(perturb as int),
            decreases n - i,
        {
            let rv: u64 = rand::random::<u64>();
            let q: i64 = (rv % 65536) as i64 - 32768;
            let d: i64 = fx_mul_i64(q, perturb);
            proof {
                lemma_offset_bounded(q as int, perturb as int);
            }
            next.push(sat_add_i64(self.positions[i], d));
            proof {
                let x = old(self).positions@[i as int] as int;
                assert(next@[i as int] == sat_add(x, d as int) as i64);
                assert(-half_mag(perturb as int) <= sat_add(x, d as int) - x <= half_mag(
                    perturb as int,
                ));
            }
            i = i + 1;
        }
        ObjectConfiguration { positions: next }
    }

    /// The elementwise saturating sum with another configuration of the
    /// same dimension.
    pub fn plus(&self, other: &ObjectConfiguration) -> (r: ObjectConfiguration)
        requires
            other.positions@.len() == self.positions@.len(),
        ensures
            r.positions@ == spec_plus(self.positions@, other.positions@),
    {
        let n = self.positions.len();
        let mut t: Vec<i64> = Vec::new();
        let mut i: usize = 0;
        while i < n
            invariant
                n == self.positions@.len(),
                other.positions@.len() == n,
                i <= n,
                t@.len() == i,
                forall|j: int|
                    0 <= j < i ==> t@[j] == sat_add(
                        self.positions@[j] as int,
                        other.positions@[j] as int,
                    ) as i64,
            decreases n - i,
        {
            t.push(sat_add_i64(self.positions[i], other.positions[i]));
            i = i + 1;
        }
        proof {
            assert(t@ =~= spec_plus(self.positions@, other.positions@));
        }
        ObjectConfiguration { positions: t }
    }

    /// The elementwise saturating difference with another configuration of
    /// the same dimension.
    pub fn minus(&self, other: &ObjectConfiguration) -> (r: ObjectConfiguration)
        requires
            other.positions@.len() == self.positions@.len(),
        ensures
            r.positions@ == spec_minus(self.positions@, other.positions@),
    {
        let n = self.positions.len();
        let mut t: Vec<i64> = Vec::new();
        let mut i: usize = 0;
        while i < n
            invariant
                n == self.positions@.len(),
                other.positions@.len() == n,
                i <= n,
                t@.len() == i,
                forall|j: int|
                    0 <= j < i ==> t@[j] == sat_sub(
                        self.positions@[j] as int,
                        other.positions@[j] as int,
                    ) as i64,
            decreases n - i,
        {
            t.push(sat_sub_i64(self.positions[i], other.positions[i]));
            i = i + 1;
        }
        proof {
            assert(t@ =~= spec_minus(self.positions@, other.positions@));
        }
        ObjectConfiguration { positions: t }
    }

    /// Render the configuration into a fresh universe: resolve every
    /// object's transform and stamp its sources, in registry order. Fails
    /// with `DimensionMismatch` if the scalar count differs from the
    /// registry's size, and with the first object's resolution error if its
    /// parent chain dangles or loops.
    pub fn realize(&self, field_ref: &Vec<i64>, ou: &ObjectUniverse) -> (r: Result<
        Universe,
        SimError,
    >)
        requires
            ou.wf(),
            field_ref@.len() == 256,
        ensures
            self.positions@.len() != ou.objs().len() <==> r == Err::<Universe, SimError>(
                SimError::DimensionMismatch,
            ),
            self.positions@.len() == ou.objs().len() ==> ((r is Ok <==> forall|i: int|
                0 <= i < ou.objs().len() ==> (#[trigger] spec_resolve(
                    ou.objs(),
                    self.positions@,
                    i,
                    ou.objs().len() as nat,
                )) is Ok)),
            r matches Ok(u) ==> u.wf() && uni_map(u) == realize_map(
                field_ref@,
                ou.objs(),
                self.positions@,
                ou.objs().len() as int,
            ),
            self.positions@.len() == ou.objs().len() ==> (r matches Err(e) ==> exists|i: int|
                0 <= i < ou.objs().len() && #[trigger] spec_resolve(
                    ou.objs(),
                    self.positions@,
                    i,
                    ou.objs().len() as nat,
                ) == Err::<crate::transform::Transform, SimError>(e) && forall|j: int|
                    0 <= j < i ==> (#[trigger] spec_resolve(
                        ou.objs(),
                        self.positions@,
                        j,
                        ou.objs().len() as nat,
                    )) is Ok),
    {
        let n = ou.len();
        if self.positions.len() != n {
            return Err(SimError::DimensionMismatch);
        }
        let mut u = Universe::new();
        proof {
            assert(uni_map(u) =~= realize_map(field_ref@, ou.objs(), self.positions@, 0));
        }
        let mut i: usize = 0;
        while i < n
            invariant
                ou.wf(),
                field_ref@.len() == 256,
                n == ou.objs().len(),
                self.positions@.len() == n,
                i <= n,
                u.wf(),
                uni_map(u) == realize_map(field_ref@, ou.objs(), self.positions@, i as int),
                forall|j: int|
                    0 <= j < i ==> (#[trigger] spec_resolve(
                        ou.objs(),
                        self.positions@,
                        j,
                        ou.objs().len() as nat,
                    )) is Ok,
            decreases n - i,
        {
            let t = match resolve_transform(ou, &self.positions, i, n) {
                Ok(t) => t,
                Err(e) => {
                    proof {
                        crate::registry::lemma_resolve_no_dim_err(
                            ou.objs(),
                            self.positions@,
                            i as int,
                            ou.objs().len() as nat,
                        );
                    }
                    return Err(e);
                },
            };
            let o = ou.at(i);
            let ghost upre = u;
            o.realize(field_ref, &t, &mut u);
            proof {
                let objs = ou.objs();
                let cfg = self.positions@;
                let tb = spec_transform_blops(objs[i as int].blops@, t);
                assert(uni_map(u) =~= stamp_map(field_ref@, uni_map(upre), tb));
                assert(realize_map(field_ref@, objs, cfg, i + 1) == stamp_map(
                    field_ref@,
                    realize_map(field_ref@, objs, cfg, i as int),
                    tb,
                ));
            }
            i = i + 1;
        }
        Ok(u)
    }
}

/// A single draw's offset is bounded by half the amplitude's magnitude.
proof fn lemma_offset_bounded(q: int, p: int)
    requires
        -32768 <= q <= 32767,
    ensures
        -half_mag(p) <= crate::geom::fx_mul(q, p) <= half_mag(p),
{
    let pp = if p < 0 {
        -p
    } else {
        p
    };
    assert(-(32768 * pp) <= q * p <= 32768 * pp) by (nonlinear_arith)
        requires
            -32768 <= q <= 32767,
            pp == (if p < 0 {
                -p
            } else {
                p
            }),
    ;
    assert((32768 * pp) / 65536 == pp / 2) by {
        vstd::arithmetic::div_mod::lemma_div_denominator(32768 * pp, 32768, 2);
        vstd::arithmetic::div_mod::lemma_div_multiples_vanish(pp, 32768);
    }
    if q * p >= 0 {
        vstd::arithmetic::div_mod::lemma_div_is_ordered(q * p, 32768 * pp, 65536);
        vstd::arithmetic::div_mod::lemma_div_pos_is_pos(q * p, 65536);
    } else {
        vstd::arithmetic::div_mod::lemma_div_is_ordered(-(q * p), 32768 * pp, 65536);
        vstd::arithmetic::div_mod::lemma_div_pos_is_pos(-(q * p), 65536);
    }
}

/// Adding a configuration and then subtracting it is the identity, as long
/// as no component's sum leaves the scalar range.
pub proof fn lemma_plus_minus_inverse(a: Seq<i64>, b: Seq<i64>)
    requires
        a.len() == b.len(),
        forall|i: int| 0 <= i < a.len() ==> i64::MIN <= #[trigger] (a[i] + b[i]) <= i64::MAX,
    ensures
        spec_minus(spec_plus(a, b), b) == a,
{
    assert(spec_minus(spec_plus(a, b), b) =~= a);
}

} // verus!
