//! The stochastic configuration optimizer: a generational hill-climbing
//! search. Each generation expands a pool of survivors into perturbed
//! children, realizes every child into a fresh universe, scores it by the
//! universe's total error, and keeps the best; the perturbation amplitude
//! decays by a fixed factor each generation. Nothing is promised about
//! which optimum the unseeded randomness converges to, only the search's
//! shape: the result has the input's dimension, succeeds exactly when the
//! input would realize, and zero generations return the start unchanged.
use crate::config::ObjectConfiguration;
use crate::error::SimError;
use crate::registry::ObjectUniverse;
use crate::registry::lemma_resolve_err_cfg_independent;
use crate::registry::spec_resolve;
use vstd::prelude::*;

verus! {

/// Generations one call of `update_simulation` runs.
pub const GENERATIONS: usize = 2;

/// Children per generation.
pub const FANOUT: usize = 12;

/// Survivors kept per generation.
pub const FANIN: usize = 3;

/// The starting perturbation amplitude (0.02 in fixed point).
pub const PERTURB0: i64 = 1311;

/// The amplitude's per-generation decay factor (0.8 in fixed point).
pub const DECAY: i64 = 52429;

/// Run the generational search. Fails exactly when the starting
/// configuration itself would not realize; with zero generations the start
/// is returned unchanged.
pub fn run_evolution(
    field_ref: &Vec<i64>,
    c_: &ObjectConfiguration,
    ou: &ObjectUniverse,
    generations: usize,
) -> (r: Result<ObjectConfiguration, SimError>)
    requires
        ou.wf(),
        field_ref@.len() == 256,
    ensures
        c_.positions@.len() != ou.objs().len() <==> r == Err::<ObjectConfiguration, SimError>(
            SimError::DimensionMismatch,
        ),
        c_.positions@.len() == ou.objs().len() ==> ((r is Ok <==> forall|i: int|
            0 <= i < ou.objs().len() ==> (#[trigger] spec_resolve(
                ou.objs(),
                c_.positions@,
                i,
                ou.objs().len() as nat,
            )) is Ok)),
        r matches Ok(res) ==> res.positions@.len() == c_.positions@.len(),
        r matches Ok(res) ==> (generations == 0 ==> res.positions@ == c_.positions@),
    {
    let n = ou.len();
    if c_.positions.len() != n {
        return Err(SimError::DimensionMismatch);
    }
    match c_.realize(field_ref, ou) {
        Err(e) => {
            return Err(e);
        },
        Ok(_) => {},
    }
    let mut result = c_.clone();
    if generations == 0 {
        return Ok(result);
    }
    let mut perturbv: i64 = PERTURB0;
    let mut pool: Vec<ObjectConfiguration> = Vec::new();
    let mut k: usize = 0;
    while k < FANIN
        invariant
            k <= 3,
            pool@.len() == k,
            result.positions@.len() == c_.positions@.len(),
            forall|j: int| 0 <= j < k ==> (#[trigger] pool@[j]).positions@.len()
                == c_.positions@.len(),
        decreases 3 - k,
    {
        pool.push(result.perturb(perturbv));
        k = k + 1;
    }
    let mut g: usize = 0;
    while g < generations
        invariant
            ou.wf(),
            field_ref@.len() == 256,
            n == ou.objs().len(),
            c_.positions@.len() == n,
            result.positions@.len() == n,
            pool@.len() == 3,
            forall|j: int| 0 <= j < 3 ==> (#[trigger] pool@[j]).positions@.len() == n,
            forall|i: int|
                0 <= i < n ==> (#[trigger] spec_resolve(
                    ou.objs(),
                    c_.positions@,
                    i,
                    n as nat,
                )) is Ok,
        decreases generations - g,
    {
        perturbv = crate::geom::fx_mul_i64(perturbv, DECAY);
        let mut ancestors: Vec<ObjectConfiguration> = Vec::new();
        let mut ai: usize = 0;
        while ai < FANIN
            invariant
                pool@.len() == 3,
                forall|j: int| 0 <= j < 3 ==> (#[trigger] pool@[j]).positions@.len() == n,
                ai <= 3,
                ancestors@.len() == 4 * ai,
                forall|j: int| 0 <= j < ancestors@.len() ==> (#[trigger] ancestors@[j]).positions@.len()
                    == n,
            decreases 3 - ai,
        {
            let mut base = pool[ai].clone();
            ancestors.push(base.clone());
            let mut j: usize = 1;
            while j < FANOUT / FANIN
                invariant
                    base.positions@.len() == n,
                    1 <= j <= 4,
                    ancestors@.len() == 4 * ai + j,
                    ai < 3,
                    forall|m: int| 0 <= m < ancestors@.len() ==> (#[trigger] ancestors@[m]).positions@.len()
                        == n,
                decreases 4 - j,
            {
                ancestors.push(base.perturb(perturbv));
                j = j + 1;
            }
            ai = ai + 1;
        }
        let mut best: usize = 0;
        let mut best_score: i128 = i128::MAX;
        let mut i: usize = 0;
        while i < ancestors.len()
            invariant
                ou.wf(),
                field_ref@.len() == 256,
                n == ou.objs().len(),
                c_.positions@.len() == n,
                ancestors@.len() == 12,
                forall|j: int| 0 <= j < 12 ==> (#[trigger] ancestors@[j]).positions@.len() == n,
                forall|m: int|
                    0 <= m < n ==> (#[trigger] spec_resolve(
                        ou.objs(),
                        c_.positions@,
                        m,
                        n as nat,
                    )) is Ok,
                i <= 12,
                best < 12,
            decreases 12 - i,
        {
            let u = match ancestors[i].realize(field_ref, ou) {
                Ok(u) => u,
                Err(e) => {
                    proof {
                        assert forall|m: int| 0 <= m < n implies (#[trigger] spec_resolve(
                            ou.objs(),
                            ancestors@[i as int].positions@,
                            m,
                            n as nat,
                        )) is Ok by {
                            lemma_resolve_err_cfg_independent(
                                ou.objs(),
                                c_.positions@,
                                ancestors@[i as int].positions@,
                                m,
                                n as nat,
                            );
                        }
                        assert(false);
                    }
                    return Err(e);
                },
            };
            let s = u.mse();
            if s < best_score {
                best_score = s;
                best = i;
            }
            i = i + 1;
        }
        result = ancestors[best].clone();
        let mut pool2: Vec<ObjectConfiguration> = Vec::new();
        let mut k2: usize = 0;
        while k2 < FANIN
            invariant
                result.positions@.len() == n,
                k2 <= 3,
                pool2@.len() == k2,
                forall|j: int| 0 <= j < k2 ==> (#[trigger] pool2@[j]).positions@.len() == n,
            decreases 3 - k2,
        {
            pool2.push(result.clone());
            k2 = k2 + 1;
        }
        pool = pool2;
        g = g + 1;
    }
    Ok(result)
}

/// Advance the search by the fixed generation count: the driver's per-frame
/// optimizer step.
pub fn update_simulation(
    field_ref: &Vec<i64>,
    c_: &ObjectConfiguration,
    ou: &ObjectUniverse,
) -> (r: Result<ObjectConfiguration, SimError>)
    requires
        ou.wf(),
        field_ref@.len() == 256,
    ensures
        c_.positions@.len() != ou.objs().len() <==> r == Err::<ObjectConfiguration, SimError>(
            SimError::DimensionMismatch,
        ),
        c_.positions@.len() == ou.objs().len() ==> ((r is Ok <==> forall|i: int|
            0 <= i < ou.objs().len() ==> (#[trigger] spec_resolve(
                ou.objs(),
                c_.positions@,
                i,
                ou.objs().len() as nat,
            )) is Ok)),
        r matches Ok(res) ==> res.positions@.len() == c_.positions@.len(),
{
    run_evolution(field_ref, c_, ou, GENERATIONS)
}

} // verus!
