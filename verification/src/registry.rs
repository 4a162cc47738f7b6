//! The object registry and hierarchical transform resolution. Objects are
//! named nodes with a local anchor, one scalar degree of freedom, an
//! optional parent reference by name, and a cloud of field sources. An
//! object's world transform composes its parent's resolved transform, a
//! translation to its anchor, and its own degree-of-freedom transform. A
//! dangling parent name fails with `UnknownObject`; a looping parent chain
//! fails with `CyclicHierarchy`, detected by bounding the resolution depth
//! at the registry's size (a terminating chain never repeats a node).
#![allow(non_snake_case)]
use crate::config::ObjectConfiguration;
use crate::error::SimError;
use crate::geom::Point;
use crate::geom::fx_mul;
use crate::geom::fx_mul_i64;
use crate::chunk::Chunk;
use crate::geom::IPoint;
use crate::geom::spec_align;
use crate::object::Blop;
use crate::object::add_field;
use crate::object::base_cells;
use crate::object::halo_at;
use crate::object::halo_member;
use crate::object::identify_chunks;
use crate::object::spec_add_field;
use crate::object::spec_transform_blops;
use crate::object::zero_cells;
use crate::universe::Universe;
use crate::transform::Transform;
use crate::transform::identity;
use crate::transform::matmult;
use crate::transform::rotmatrix;
use crate::transform::spec_identity;
use crate::transform::spec_matmult;
use crate::transform::spec_rotmatrix;
use crate::transform::spec_txmatrix;
use crate::transform::txmatrix;
use crate::transform::wf;
use vstd::prelude::*;

verus! {

/// An object's single degree of freedom: its scalar is either a rotation
/// angle or a displacement multiplier along a fixed direction.
#[derive(Debug, Clone, Copy, PartialEq, Eq, Structural)]
pub enum DOFType {
    Rotation,
    Linear(Point),
}

/// A named node of the hierarchy.
#[derive(Debug, Clone)]
pub struct Object {
    pub name: String,
    pub anchor: Point,
    pub target: Option<String>,
    pub dof: DOFType,
    pub blops: Vec<Blop>,
}

impl Object {
    pub fn new(
        name: &String,
        anchor: &Point,
        target: Option<String>,
        dof: DOFType,
        blops: Vec<Blop>,
    ) -> (r: Self)
        ensures
            r.name@ == name@,
            r.anchor == *anchor,
            r.target == target,
            r.dof == dof,
            r.blops == blops,
    {
        Object { name: name.clone(), anchor: *anchor, target, dof, blops }
    }
}

/// The registry: an ordered collection of objects, unique by name.
#[derive(Debug)]
pub struct ObjectUniverse {
    objects: Vec<Object>,
}

/// The index of the object named `n`, or `-1` if there is none. Under the
/// registry's uniqueness invariant the witness is the only one.
pub open spec fn spec_find(objs: Seq<Object>, n: Seq<char>) -> int {
    if exists|j: int| 0 <= j < objs.len() && (#[trigger] objs[j]).name@ == n {
        choose|j: int| 0 <= j < objs.len() && (#[trigger] objs[j]).name@ == n
    } else {
        -1
    }
}

/// The degree-of-freedom transform for scalar `v`.
pub open spec fn spec_dof_transform(dof: DOFType, v: int) -> Transform {
    match dof {
        DOFType::Rotation => spec_rotmatrix(v),
        DOFType::Linear(dir) => spec_txmatrix(fx_mul(dir.x as int, v), fx_mul(dir.y as int, v)),
    }
}

/// Resolve the world transform of the object at `idx`: the parent's
/// resolved transform (identity at the root), then the anchor translation,
/// then the degree-of-freedom transform. `fuel` bounds the chain length;
/// running out means the chain loops.
pub open spec fn spec_resolve(
    objs: Seq<Object>,
    cfg: Seq<i64>,
    idx: int,
    fuel: nat,
) -> Result<Transform, SimError>
    decreases fuel,
{
    if fuel == 0 {
        Err(SimError::CyclicHierarchy)
    } else {
        let o = objs[idx];
        let outer_r = match o.target {
            Some(n) => {
                let p = spec_find(objs, n@);
                if p < 0 {
                    Err(SimError::UnknownObject)
                } else {
                    spec_resolve(objs, cfg, p, (fuel - 1) as nat)
                }
            },
            None => Ok(spec_identity()),
        };
        match outer_r {
            Err(e) => Err(e),
            Ok(outer) => {
                let initial = spec_dof_transform(o.dof, cfg[idx] as int);
                let model = spec_txmatrix(o.anchor.x as int, o.anchor.y as int);
                Ok(spec_matmult(outer, spec_matmult(model, initial)))
            },
        }
    }
}

/// Whether `spec_resolve` succeeds does not depend on the configuration's
/// scalars, only on the hierarchy's shape; a failure gives the same error.
pub proof fn lemma_resolve_err_cfg_independent(
    objs: Seq<Object>,
    cfg1: Seq<i64>,
    cfg2: Seq<i64>,
    idx: int,
    fuel: nat,
)
    ensures
        spec_resolve(objs, cfg1, idx, fuel) is Ok <==> spec_resolve(objs, cfg2, idx, fuel) is Ok,
        spec_resolve(objs, cfg1, idx, fuel) is Err ==> spec_resolve(objs, cfg1, idx, fuel)
            == spec_resolve(objs, cfg2, idx, fuel),
    decreases fuel,
{
    if fuel > 0 {
        let o = objs[idx];
        match o.target {
            Some(n) => {
                let p = spec_find(objs, n@);
                if p >= 0 {
                    lemma_resolve_err_cfg_independent(objs, cfg1, cfg2, p, (fuel - 1) as nat);
                }
            },
            None => {},
        }
    }
}

/// With its scalar at zero and no parent, an object's resolved world
/// transform is exactly the translation to its anchor: the
/// degree-of-freedom transform collapses to the identity for either kind.
pub proof fn lemma_zero_dof_is_anchor_translation(
    objs: Seq<Object>,
    cfg: Seq<i64>,
    idx: int,
    fuel: nat,
)
    requires
        0 <= idx < objs.len(),
        objs[idx].target is None,
        0 <= idx < cfg.len(),
        cfg[idx] == 0,
        fuel >= 1,
    ensures
        spec_resolve(objs, cfg, idx, fuel) == Ok::<Transform, SimError>(
            spec_txmatrix(objs[idx].anchor.x as int, objs[idx].anchor.y as int),
        ),
{
    let o = objs[idx];
    let model = spec_txmatrix(o.anchor.x as int, o.anchor.y as int);
    assert(wf(model));
    let initial = spec_dof_transform(o.dof, 0);
    match o.dof {
        DOFType::Rotation => {
            crate::trig::lemma_trig_at_zero();
            assert(initial == spec_identity());
        },
        DOFType::Linear(dir) => {
            assert(dir.x as int * 0 == 0);
            assert(dir.y as int * 0 == 0);
            assert(crate::geom::tdiv(0, 65536) == 0int / 65536int);
            assert(crate::geom::fx_mul(dir.x as int, 0) == 0);
            assert(crate::geom::fx_mul(dir.y as int, 0) == 0);
            assert(initial == spec_txmatrix(0, 0));
            assert(initial == spec_identity());
        },
    }
    crate::transform::lemma_matmult_identity_right(model);
    crate::transform::lemma_matmult_identity_left(model);
    assert(spec_resolve(objs, cfg, idx, fuel) == Ok::<Transform, SimError>(
        spec_matmult(spec_identity(), spec_matmult(model, initial)),
    ));
}

/// With a zero scalar and no parent, every local source lands at exactly
/// its anchor-relative position: the realization is transform-equivalent to
/// placing the raw sources at the anchor (whenever nothing saturates).
pub proof fn lemma_zero_dof_sources_at_anchor(blops: Seq<Blop>, ax: i64, ay: i64)
    requires
        -crate::transform::TLIM <= ax <= crate::transform::TLIM,
        -crate::transform::TLIM <= ay <= crate::transform::TLIM,
        forall|i: int|
            0 <= i < blops.len() ==> i64::MIN <= (#[trigger] blops[i]).at.x + ax <= i64::MAX
                && i64::MIN <= blops[i].at.y + ay <= i64::MAX,
    ensures
        spec_transform_blops(blops, spec_txmatrix(ax as int, ay as int)).len() == blops.len(),
        forall|i: int|
            0 <= i < blops.len() ==> spec_transform_blops(
                blops,
                spec_txmatrix(ax as int, ay as int),
            )[i] == (Blop {
                at: crate::geom::Point {
                    x: (blops[i].at.x + ax) as i64,
                    y: (blops[i].at.y + ay) as i64,
                },
                strength: blops[i].strength,
            }),
{
    let t = spec_txmatrix(ax as int, ay as int);
    assert forall|i: int| 0 <= i < blops.len() implies spec_transform_blops(blops, t)[i] == (Blop {
        at: crate::geom::Point {
            x: (blops[i].at.x + ax) as i64,
            y: (blops[i].at.y + ay) as i64,
        },
        strength: blops[i].strength,
    }) by {
        crate::transform::lemma_transform_pt_translate(ax as int, ay as int, blops[i].at);
    }
}

/// Resolution can only fail for a dangling or looping parent chain, never
/// with a dimension error.
pub proof fn lemma_resolve_no_dim_err(objs: Seq<Object>, cfg: Seq<i64>, idx: int, fuel: nat)
    ensures
        spec_resolve(objs, cfg, idx, fuel) != Err::<Transform, SimError>(
            SimError::DimensionMismatch,
        ),
    decreases fuel,
{
    if fuel > 0 {
        let o = objs[idx];
        match o.target {
            Some(n) => {
                let p = spec_find(objs, n@);
                if p >= 0 {
                    lemma_resolve_no_dim_err(objs, cfg, p, (fuel - 1) as nat);
                }
            },
            None => {},
        }
    }
}

impl Object {
    /// This object's resolved world transform under a configuration: the
    /// object is looked up by name in the registry and its whole parent
    /// chain resolved. Fails with `UnknownObject` when the name (or a
    /// parent's) is not registered, and with `CyclicHierarchy` when the
    /// parent chain loops.
    pub fn getTransform(&self, oc: &ObjectConfiguration, ou: &ObjectUniverse) -> (r: Result<
        Transform,
        SimError,
    >)
        requires
            ou.wf(),
            oc.positions@.len() == ou.objs().len(),
        ensures
            spec_find(ou.objs(), self.name@) == -1 ==> r == Err::<Transform, SimError>(
                SimError::UnknownObject,
            ),
            spec_find(ou.objs(), self.name@) >= 0 ==> r == spec_resolve(
                ou.objs(),
                oc.positions@,
                spec_find(ou.objs(), self.name@),
                ou.objs().len() as nat,
            ),
            r matches Ok(t) ==> wf(t),
    {
        match ou.get(&self.name) {
            None => Err(SimError::UnknownObject),
            Some(idx) => resolve_transform(ou, &oc.positions, idx, ou.len()),
        }
    }

    /// Stamp this object's sources, carried into world space by `tx`, into
    /// the universe: every chunk in the sources' halo accumulates every
    /// source's field over the cells already there; chunks outside the halo
    /// are untouched.
    pub fn realize(&self, field_ref: &Vec<i64>, tx: &Transform, u: &mut Universe)
        requires
            field_ref@.len() == 256,
            wf(*tx),
            old(u).wf(),
        ensures
            final(u).wf(),
            forall|p: IPoint|
                #[trigger] final(u).has_chunk(p) <==> old(u).has_chunk(p) || halo_member(
                    spec_transform_blops(self.blops@, *tx),
                    p,
                ),
            forall|p: IPoint|
                halo_member(spec_transform_blops(self.blops@, *tx), p)
                    ==> #[trigger] final(u).chunk_at(p) == spec_add_field(
                    field_ref@,
                    p,
                    spec_transform_blops(self.blops@, *tx),
                    base_cells(*old(u), p),
                ),
            forall|p: IPoint|
                old(u).has_chunk(p) && !halo_member(spec_transform_blops(self.blops@, *tx), p)
                    ==> #[trigger] final(u).chunk_at(p) == old(u).chunk_at(p),
    {
        let ghost tb = spec_transform_blops(self.blops@, *tx);
        let nb = self.blops.len();
        let mut transformed: Vec<Blop> = Vec::new();
        let mut bi: usize = 0;
        while bi < nb
            invariant
                wf(*tx),
                nb == self.blops@.len(),
                bi <= nb,
                tb == spec_transform_blops(self.blops@, *tx),
                transformed@.len() == bi,
                forall|j: int| 0 <= j < bi ==> transformed@[j] == tb[j],
            decreases nb - bi,
        {
            let b = self.blops[bi].transform_by(tx);
            transformed.push(b);
            bi = bi + 1;
        }
        proof {
            assert(transformed@ =~= tb);
        }
        let chunks = identify_chunks(&transformed);
        let nc = chunks.len();
        let mut i: usize = 0;
        while i < nc
            invariant
                field_ref@.len() == 256,
                u.wf(),
                nc == chunks@.len(),
                i <= nc,
                transformed@ == tb,
                forall|a: int, b: int| 0 <= a < b < nc ==> chunks@[a] != chunks@[b],
                forall|j: int| 0 <= j < nc ==> halo_member(tb, #[trigger] chunks@[j]),
                forall|i2: int, d2: int|
                    0 <= i2 < tb.len() && 0 <= d2 < 9 ==> chunks@.contains(
                        #[trigger] halo_at(tb, i2, d2),
                    ),
                forall|j: int| 0 <= j < nc ==> spec_align(#[trigger] chunks@[j]) == chunks@[j],
                forall|p: IPoint|
                    #[trigger] u.has_chunk(p) <==> old(u).has_chunk(p) || chunks@.subrange(
                        0,
                        i as int,
                    ).contains(p),
                forall|j: int|
                    0 <= j < i ==> #[trigger] u.chunk_at(chunks@[j]) == spec_add_field(
                        field_ref@,
                        chunks@[j],
                        tb,
                        base_cells(*old(u), chunks@[j]),
                    ),
                forall|p: IPoint|
                    old(u).has_chunk(p) && !chunks@.subrange(0, i as int).contains(p)
                        ==> #[trigger] u.chunk_at(p) == old(u).chunk_at(p),
            decreases nc - i,
        {
            let c = chunks[i];
            proof {
                assert(spec_align(c) == c);
                assert forall|j: int| 0 <= j < i implies chunks@.subrange(0, i as int)[j]
                    != c by {
                    assert(chunks@.subrange(0, i as int)[j] == chunks@[j]);
                }
                assert(!chunks@.subrange(0, i as int).contains(c));
            }
            let mut d = match u.getChunk(&c) {
                Some(ch) => ch.clone(),
                None => Chunk::new(),
            };
            proof {
                if old(u).has_chunk(c) {
                    assert(d@ == base_cells(*old(u), c));
                } else {
                    assert(d@ =~= zero_cells());
                }
            }
            let ghost base = d@;
            add_field(field_ref, &c, &transformed, &mut d);
            let ghost umid = *u;
            u.setChunk(&c, d);
            proof {
                let pre = chunks@.subrange(0, i as int);
                let post = chunks@.subrange(0, i + 1);
                assert(post =~= pre.push(c));
                assert forall|p: IPoint| #[trigger] u.has_chunk(p) implies old(u).has_chunk(p)
                    || post.contains(p) by {
                    if p == c {
                        assert(post[i as int] == c);
                    } else {
                        assert(umid.has_chunk(p));
                        if pre.contains(p) {
                            let w = choose|w: int| 0 <= w < pre.len() && pre[w] == p;
                            assert(post[w] == p);
                        }
                    }
                }
                assert forall|p: IPoint| old(u).has_chunk(p) || post.contains(p) implies #[trigger] u
                    .has_chunk(p) by {
                    if p == c {
                    } else if post.contains(p) {
                        let w = choose|w: int| 0 <= w < post.len() && post[w] == p;
                        if w < i as int {
                            assert(pre[w] == p);
                            assert(umid.has_chunk(p));
                        } else {
                            assert(post[w] == c);
                        }
                    } else {
                        assert(umid.has_chunk(p));
                    }
                }
                assert forall|p: IPoint|
                    old(u).has_chunk(p) && !post.contains(p) implies #[trigger] u.chunk_at(p)
                    == old(u).chunk_at(p) by {
                    assert(!pre.contains(p)) by {
                        if pre.contains(p) {
                            let w = choose|w: int| 0 <= w < pre.len() && pre[w] == p;
                            assert(post[w] == p);
                        }
                    }
                    assert(p != c) by {
                        assert(post[i as int] == c);
                    }
                    assert(umid.chunk_at(p) == old(u).chunk_at(p));
                    assert(umid.has_chunk(p));
                }
                assert forall|j: int| 0 <= j < i + 1 implies #[trigger] u.chunk_at(chunks@[j])
                    == spec_add_field(field_ref@, chunks@[j], tb, base_cells(*old(u), chunks@[j])) by {
                    if j < i as int {
                        assert(chunks@[j] != c);
                        assert(umid.has_chunk(chunks@[j])) by {
                            assert(pre[j] == chunks@[j]);
                        }
                        assert(u.chunk_at(chunks@[j]) == umid.chunk_at(chunks@[j]));
                    } else {
                        assert(u.chunk_at(c) == spec_add_field(field_ref@, c, tb, base));
                    }
                }
            }
            i = i + 1;
        }
        proof {
            assert(chunks@.subrange(0, nc as int) =~= chunks@);
            assert forall|p: IPoint| halo_member(tb, p) implies #[trigger] final(u).chunk_at(p)
                == spec_add_field(field_ref@, p, tb, base_cells(*old(u), p)) by {
                let (wi, wd): (int, int) = choose|wi: int, wd: int|
                    0 <= wi < tb.len() && 0 <= wd < 9 && p == halo_at(tb, wi, wd);
                assert(chunks@.contains(halo_at(tb, wi, wd)));
                let w = choose|w: int| 0 <= w < chunks@.len() && chunks@[w] == p;
            }
            assert forall|p: IPoint| #[trigger] final(u).has_chunk(p) <==> old(u).has_chunk(p)
                || halo_member(tb, p) by {
                if chunks@.contains(p) {
                    let w = choose|w: int| 0 <= w < chunks@.len() && chunks@[w] == p;
                }
                if halo_member(tb, p) {
                    let (wi, wd): (int, int) = choose|wi: int, wd: int|
                        0 <= wi < tb.len() && 0 <= wd < 9 && p == halo_at(tb, wi, wd);
                    assert(chunks@.contains(halo_at(tb, wi, wd)));
                }
            }
            assert forall|p: IPoint|
                old(u).has_chunk(p) && !halo_member(tb, p) implies #[trigger] final(u).chunk_at(p)
                == old(u).chunk_at(p) by {
                if chunks@.contains(p) {
                    let w = choose|w: int| 0 <= w < chunks@.len() && chunks@[w] == p;
                    assert(halo_member(tb, chunks@[w]));
                }
            }
        }
    }
}

/// Resolve the world transform of the object at `idx` against a scalar
/// vector, spending one unit of `fuel` per hierarchy step.
pub fn resolve_transform(ou: &ObjectUniverse, positions: &Vec<i64>, idx: usize, fuel: usize) -> (r:
    Result<Transform, SimError>)
    requires
        ou.wf(),
        idx < ou.objs().len(),
        positions@.len() == ou.objs().len(),
    ensures
        r == spec_resolve(ou.objs(), positions@, idx as int, fuel as nat),
        r matches Ok(t) ==> wf(t),
    decreases fuel,
{
    if fuel == 0 {
        return Err(SimError::CyclicHierarchy);
    }
    let o = ou.at(idx);
    let outer: Transform = match &o.target {
        Some(n) => {
            match ou.get(n) {
                None => {
                    return Err(SimError::UnknownObject);
                },
                Some(p) => {
                    match resolve_transform(ou, positions, p, fuel - 1) {
                        Ok(t) => t,
                        Err(e) => {
                            return Err(e);
                        },
                    }
                },
            }
        },
        None => identity(),
    };
    let v = positions[idx];
    let initial = match &o.dof {
        DOFType::Rotation => rotmatrix(v),
        DOFType::Linear(dir) => txmatrix(fx_mul_i64(dir.x, v), fx_mul_i64(dir.y, v)),
    };
    let model = txmatrix(o.anchor.x, o.anchor.y);
    Ok(matmult(&outer, &matmult(&model, &initial)))
}

impl ObjectUniverse {
    /// The stored objects, in registration order.
    pub closed spec fn objs(self) -> Seq<Object> {
        self.objects@
    }

    /// Names are unique.
    pub open spec fn wf(self) -> bool {
        forall|i: int, j: int|
            0 <= i < j < self.objs().len() ==> (#[trigger] self.objs()[i]).name@ != (
            #[trigger] self.objs()[j]).name@
    }

    pub fn new() -> (r: Self)
        ensures
            r.wf(),
            r.objs().len() == 0,
    {
        ObjectUniverse { objects: Vec::new() }
    }

    /// How many objects are registered.
    pub fn len(&self) -> (r: usize)
        ensures
            r == self.objs().len(),
    {
        self.objects.len()
    }

    /// Borrow the object at `idx`.
    pub fn at(&self, idx: usize) -> (r: &Object)
        requires
            idx < self.objs().len(),
        ensures
            *r == self.objs()[idx as int],
    {
        &self.objects[idx]
    }

    /// The index of the object named `n`, if registered.
    pub fn get(&self, n: &String) -> (r: Option<usize>)
        requires
            self.wf(),
        ensures
            r matches Some(i) ==> i < self.objs().len() && self.objs()[i as int].name@ == n@
                && spec_find(self.objs(), n@) == i as int,
            r is None ==> spec_find(self.objs(), n@) == -1,
    {
        let len = self.objects.len();
        let mut i: usize = 0;
        while i < len
            invariant
                self.wf(),
                len == self.objs().len(),
                i <= len,
                forall|j: int| 0 <= j < i ==> (#[trigger] self.objs()[j]).name@ != n@,
            decreases len - i,
        {
            if self.objects[i].name == *n {
                proof {
                    assert(self.objs()[i as int].name@ == n@);
                    let w = choose|j: int|
                        0 <= j < self.objs().len() && (#[trigger] self.objs()[j]).name@ == n@;
                    assert(self.objs()[w].name@ == n@);
                    assert(spec_find(self.objs(), n@) == w);
                }
                return Some(i);
            }
            i = i + 1;
        }
        proof {
            assert(forall|j: int|
                0 <= j < self.objs().len() ==> (#[trigger] self.objs()[j]).name@ != n@);
        }
        None
    }

    /// Upsert by name: replace the object registered under the same name,
    /// or append a new entry.
    pub fn add(&mut self, o: Object)
        requires
            old(self).wf(),
        ensures
            final(self).wf(),
            spec_find(old(self).objs(), o.name@) >= 0 ==> final(self).objs() == old(self).objs()
                .update(spec_find(old(self).objs(), o.name@), o),
            spec_find(old(self).objs(), o.name@) == -1 ==> final(self).objs() == old(self).objs()
                .push(o),
    {
        let len = self.objects.len();
        let mut i: usize = 0;
        while i < len
            invariant
                old(self) == self,
                self.wf(),
                len == self.objs().len(),
                i <= len,
                forall|j: int| 0 <= j < i ==> (#[trigger] self.objs()[j]).name@ != o.name@,
            decreases len - i,
        {
            if self.objects[i].name == o.name {
                proof {
                    assert(self.objs()[i as int].name@ == o.name@);
                    let w = choose|j: int|
                        0 <= j < self.objs().len() && (#[trigger] self.objs()[j]).name@ == o.name@;
                    assert(self.objs()[w].name@ == o.name@);
                    assert(spec_find(self.objs(), o.name@) == i as int);
                }
                let ghost olds = self.objs();
                self.objects[i] = o;
                proof {
                    assert(self.objs() == olds.update(i as int, o));
                    assert forall|a: int, b: int|
                        0 <= a < b < self.objs().len() implies (#[trigger] self.objs()[a]).name@
                        != (#[trigger] self.objs()[b]).name@ by {
                        assert(olds[a].name@ != olds[b].name@);
                    }
                }
                return ;
            }
            i = i + 1;
        }
        proof {
            assert(forall|j: int|
                0 <= j < self.objs().len() ==> (#[trigger] self.objs()[j]).name@ != o.name@);
        }
        let ghost olds = self.objs();
        self.objects.push(o);
        proof {
            assert(self.objs() == olds.push(o));
            assert forall|a: int, b: int|
                0 <= a < b < self.objs().len() implies (#[trigger] self.objs()[a]).name@ != (
            #[trigger] self.objs()[b]).name@ by {
                if b < olds.len() {
                    assert(olds[a].name@ != olds[b].name@);
                } else {
                    assert(olds[a].name@ != o.name@);
                }
            }
        }
    }

    /// Delete the object registered under `name`, if any.
    pub fn remove(&mut self, name: &String)
        requires
            old(self).wf(),
        ensures
            final(self).wf(),
            spec_find(old(self).objs(), name@) == -1 ==> final(self).objs() == old(self).objs(),
            spec_find(old(self).objs(), name@) >= 0 ==> final(self).objs() == old(self).objs()
                .remove(spec_find(old(self).objs(), name@)),
    {
        let len = self.objects.len();
        let mut i: usize = 0;
        while i < len
            invariant
                old(self) == self,
                self.wf(),
                len == self.objs().len(),
                i <= len,
                forall|j: int| 0 <= j < i ==> (#[trigger] self.objs()[j]).name@ != name@,
            decreases len - i,
        {
            if self.objects[i].name == *name {
                proof {
                    assert(self.objs()[i as int].name@ == name@);
                    let w = choose|j: int|
                        0 <= j < self.objs().len() && (#[trigger] self.objs()[j]).name@ == name@;
                    assert(self.objs()[w].name@ == name@);
                    assert(spec_find(self.objs(), name@) == i as int);
                }
                let ghost olds = self.objs();
                self.objects.remove(i);
                proof {
                    assert(self.objs() == olds.remove(i as int));
                    assert forall|a: int, b: int|
                        0 <= a < b < self.objs().len() implies (#[trigger] self.objs()[a]).name@
                        != (#[trigger] self.objs()[b]).name@ by {
                        let aa = if a < i as int {
                            a
                        } else {
                            a + 1
                        };
                        let bb = if b < i as int {
                            b
                        } else {
                            b + 1
                        };
                        assert(olds[aa].name@ != olds[bb].name@);
                    }
                }
                return ;
            }
            i = i + 1;
        }
    }
}

} // verus!
