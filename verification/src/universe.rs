//! The sparse field grid: a mapping from chunk-aligned coordinates to
//! chunks, held as an association vector with unique keys. Every key is
//! aligned by masking to the chunk edge, and the total error is the capped
//! sum of every chunk's error metric.
#![allow(non_snake_case)]
use crate::chunk::Chunk;
use crate::chunk::cap_add;
use crate::chunk::sq_sum;
use crate::geom::IPoint;
use crate::geom::chunkCoord;
use crate::geom::spec_align;
use vstd::prelude::*;

verus! {

/// The capped sum of every chunk's error metric.
pub open spec fn entries_mse(s: Seq<(IPoint, Chunk)>) -> int
    decreases s.len(),
{
    if s.len() == 0 {
        0
    } else {
        cap_add(entries_mse(s.drop_last()), sq_sum(s.last().1@))
    }
}

pub proof fn lemma_entries_mse_nonneg(s: Seq<(IPoint, Chunk)>)
    ensures
        0 <= entries_mse(s) <= i128::MAX,
    decreases s.len(),
{
    if s.len() > 0 {
        lemma_entries_mse_nonneg(s.drop_last());
        crate::chunk::lemma_sq_sum_nonneg(s.last().1@);
    }
}

/// The sparse realization of one configuration: chunk tiles keyed by their
/// aligned grid coordinate.
#[derive(Debug, Clone)]
pub struct Universe {
    chunks: Vec<(IPoint, Chunk)>,
}

impl Universe {
    /// The stored key-chunk pairs, in insertion order.
    pub closed spec fn entries(self) -> Seq<(IPoint, Chunk)> {
        self.chunks@
    }

    /// Keys are unique and chunk-aligned, and every tile is well formed.
    pub open spec fn wf(self) -> bool {
        &&& forall|i: int, j: int|
            0 <= i < j < self.entries().len() ==> self.entries()[i].0 != self.entries()[j].0
        &&& forall|i: int|
            0 <= i < self.entries().len() ==> spec_align(#[trigger] self.entries()[i].0)
                == self.entries()[i].0
        &&& forall|i: int| 0 <= i < self.entries().len() ==> (#[trigger] self.entries()[i]).1.wf()
    }

    /// Whether some chunk is stored at the (aligned) coordinate `p`.
    pub open spec fn has_chunk(self, p: IPoint) -> bool {
        exists|i: int| 0 <= i < self.entries().len() && (#[trigger] self.entries()[i]).0 == p
    }

    /// The cells of the chunk stored at `p`; meaningful when `has_chunk`.
    pub open spec fn chunk_at(self, p: IPoint) -> Seq<i64> {
        let i = choose|i: int| 0 <= i < self.entries().len() && (#[trigger] self.entries()[i]).0
            == p;
        self.entries()[i].1@
    }

    /// An empty universe.
    pub fn new() -> (r: Self)
        ensures
            r.wf(),
            r.entries().len() == 0,
            forall|p: IPoint| !r.has_chunk(p),
    {
        Universe { chunks: Vec::new() }
    }

    /// The chunk covering `pt`, if any: the key is `pt` aligned to the
    /// chunk edge.
    pub fn getChunk(&self, pt: &IPoint) -> (r: Option<&Chunk>)
        requires
            self.wf(),
        ensures
            r is Some <==> self.has_chunk(spec_align(*pt)),
            r matches Some(c) ==> c@ == self.chunk_at(spec_align(*pt)) && c.wf(),
    {
        let q = chunkCoord(pt);
        let n = self.chunks.len();
        let mut i: usize = 0;
        while i < n
            invariant
                self.wf(),
                n == self.entries().len(),
                i <= n,
                q == spec_align(*pt),
                forall|j: int| 0 <= j < i ==> (#[trigger] self.entries()[j]).0 != q,
            decreases n - i,
        {
            if self.chunks[i].0.x == q.x && self.chunks[i].0.y == q.y {
                proof {
                    assert(self.entries()[i as int].0 == q);
                    let k = choose|k: int|
                        0 <= k < self.entries().len() && (#[trigger] self.entries()[k]).0 == q;
                    assert(k == i as int);
                }
                return Some(&self.chunks[i].1);
            }
            i = i + 1;
        }
        None
    }

    /// Store `newchunk` at the aligned coordinate covering `pt`, replacing
    /// any chunk already there. Every other entry is untouched.
    pub fn setChunk(&mut self, pt: &IPoint, newchunk: Chunk)
        requires
            old(self).wf(),
            newchunk.wf(),
        ensures
            final(self).wf(),
            final(self).has_chunk(spec_align(*pt)),
            final(self).chunk_at(spec_align(*pt)) == newchunk@,
            forall|p: IPoint|
                #[trigger] final(self).has_chunk(p) <==> old(self).has_chunk(p) || p == spec_align(
                    *pt,
                ),
            forall|p: IPoint|
                old(self).has_chunk(p) && p != spec_align(*pt) ==> #[trigger] final(self).chunk_at(
                    p,
                ) == old(self).chunk_at(p),
    {
        let q = chunkCoord(pt);
        let n = self.chunks.len();
        let mut i: usize = 0;
        while i < n
            invariant
                old(self) == self,
                self.wf(),
                n == self.entries().len(),
                i <= n,
                q == spec_align(*pt),
                q.x % 8 == 0,
                q.y % 8 == 0,
                newchunk.wf(),
                forall|j: int| 0 <= j < i ==> (#[trigger] self.entries()[j]).0 != q,
            decreases n - i,
        {
            if self.chunks[i].0.x == q.x && self.chunks[i].0.y == q.y {
                proof {
                    assert(self.entries()[i as int].0 == q);
                }
                self.chunks[i] = (q, newchunk);
                proof {
                    let olds = old(self).entries();
                    let news = self.entries();
                    lemma_assoc_frame(olds, news, i as int, q);
                    assert(news == olds.update(i as int, (q, newchunk)));
                    assert(news[i as int].0 == q);
                    assert(self.has_chunk(q));
                    assert(spec_align(q) == q);
                    assert(news[i as int].1.wf());
                    assert forall|j: int| 0 <= j < news.len() implies spec_align(
                        (#[trigger] news[j]).0,
                    ) == news[j].0 && news[j].1.wf() by {
                        if j != i as int {
                            assert(news[j] == olds[j]);
                        }
                    }
                    assert forall|p: IPoint| #[trigger] self.has_chunk(p) implies old(
                        self,
                    ).has_chunk(p) || p == q by {
                        let k = choose|k: int| 0 <= k < news.len() && (#[trigger] news[k]).0 == p;
                        if k != i as int {
                            assert(olds[k].0 == p);
                        }
                    }
                    assert forall|p: IPoint| old(self).has_chunk(p) implies #[trigger] self
                        .has_chunk(p) by {
                        let k = choose|k: int| 0 <= k < olds.len() && (#[trigger] olds[k]).0 == p;
                        if k != i as int {
                            assert(news[k].0 == p);
                        } else {
                            assert(news[i as int].0 == q);
                        }
                    }
                    assert forall|p: IPoint|
                        old(self).has_chunk(p) && p != q implies #[trigger] self.chunk_at(p) == old(
                        self,
                    ).chunk_at(p) by {
                        assert(self.has_chunk(p));
                        let k1 = choose|k1: int|
                            0 <= k1 < news.len() && (#[trigger] news[k1]).0 == p;
                        let k2 = choose|k2: int|
                            0 <= k2 < olds.len() && (#[trigger] olds[k2]).0 == p;
                        assert(news[k1].0 == p);
                        assert(k1 != i as int);
                        assert(news[k1] == olds[k1]);
                        assert(olds[k1].0 == p);
                        assert(k1 == k2);
                    }
                    assert(self.chunk_at(q) == newchunk@) by {
                        let k1 = choose|k1: int|
                            0 <= k1 < news.len() && (#[trigger] news[k1]).0 == q;
                        if k1 != i as int {
                            assert(olds[k1].0 == q);
                            assert(olds[i as int].0 == q);
                        }
                    }
                }
                return ;
            }
            i = i + 1;
        }
        self.chunks.push((q, newchunk));
        proof {
            let olds = old(self).entries();
            let news = self.entries();
            assert(news == olds.push((q, newchunk)));
            assert(news[olds.len() as int].0 == q);
            assert(self.has_chunk(q));
            assert forall|p: IPoint| old(self).has_chunk(p) implies #[trigger] self.has_chunk(
                p,
            ) by {
                let k = choose|k: int| 0 <= k < olds.len() && (#[trigger] olds[k]).0 == p;
                assert(news[k].0 == p);
            }
            assert forall|p: IPoint| #[trigger] self.has_chunk(p) implies old(self).has_chunk(p)
                || p == q by {
                let k = choose|k: int| 0 <= k < news.len() && (#[trigger] news[k]).0 == p;
                if k < olds.len() {
                    assert(olds[k].0 == p);
                }
            }
            assert forall|p: IPoint|
                old(self).has_chunk(p) && p != q implies #[trigger] self.chunk_at(p) == old(
                self,
            ).chunk_at(p) by {
                let k = choose|k: int| 0 <= k < olds.len() && (#[trigger] olds[k]).0 == p;
                assert(news[k].0 == p);
                let k1 = choose|k1: int| 0 <= k1 < news.len() && (#[trigger] news[k1]).0 == p;
                let k2 = choose|k2: int| 0 <= k2 < olds.len() && (#[trigger] olds[k2]).0 == p;
                assert(news[k1].0 == p && k1 < news.len());
                if k1 < olds.len() {
                    assert(olds[k1].0 == p);
                }
            }
            assert(self.chunk_at(q) == newchunk@) by {
                let k1 = choose|k1: int| 0 <= k1 < news.len() && (#[trigger] news[k1]).0 == q;
                if k1 < olds.len() {
                    assert(olds[k1].0 == q);
                    assert(old(self).has_chunk(q));
                }
            }
        }
    }

    /// Every stored pair, cloned out in storage order.
    pub fn tourChunks(&self) -> (r: Vec<(IPoint, Chunk)>)
        requires
            self.wf(),
        ensures
            r@.len() == self.entries().len(),
            forall|i: int|
                0 <= i < r@.len() ==> (#[trigger] r@[i]).0 == self.entries()[i].0 && r@[i].1@
                    == self.entries()[i].1@,
    {
        let n = self.chunks.len();
        let mut r: Vec<(IPoint, Chunk)> = Vec::new();
        let mut i: usize = 0;
        while i < n
            invariant
                self.wf(),
                n == self.entries().len(),
                i <= n,
                r@.len() == i,
                forall|j: int|
                    0 <= j < i ==> (#[trigger] r@[j]).0 == self.entries()[j].0 && r@[j].1@
                        == self.entries()[j].1@,
            decreases n - i,
        {
            let key = IPoint { x: self.chunks[i].0.x, y: self.chunks[i].0.y };
            let c = self.chunks[i].1.clone();
            r.push((key, c));
            i = i + 1;
        }
        r
    }

    /// The universe's total error: the capped sum of every chunk's error
    /// metric. It is never negative.
    pub fn mse(&self) -> (r: i128)
        requires
            self.wf(),
        ensures
            r == entries_mse(self.entries()),
            r >= 0,
    {
        let n = self.chunks.len();
        let mut acc: i128 = 0;
        let mut i: usize = 0;
        proof {
            assert(self.entries().subrange(0, 0) =~= Seq::<(IPoint, Chunk)>::empty());
        }
        while i < n
            invariant
                self.wf(),
                n == self.entries().len(),
                i <= n,
                acc == entries_mse(self.entries().subrange(0, i as int)),
                acc >= 0,
            decreases n - i,
        {
            let m = self.chunks[i].1.mse();
            proof {
                let pre = self.entries().subrange(0, i as int);
                let post = self.entries().subrange(0, i + 1);
                assert(post.drop_last() =~= pre);
                assert(post.last() == self.entries()[i as int]);
            }
            acc = match acc.checked_add(m) {
                Some(s) => s,
                None => i128::MAX,
            };
            i = i + 1;
        }
        proof {
            assert(self.entries().subrange(0, n as int) =~= self.entries());
        }
        acc
    }
}

/// Replacing the chunk of entry `i` (keyed `q`) leaves every other key's
/// chunk unchanged and every key present.
proof fn lemma_assoc_frame(olds: Seq<(IPoint, Chunk)>, news: Seq<(IPoint, Chunk)>, i: int, q: IPoint)
    requires
        olds.len() == news.len(),
        0 <= i < olds.len(),
        olds[i].0 == q,
        news[i].0 == q,
        forall|j: int| 0 <= j < olds.len() && j != i ==> news[j] == olds[j],
        forall|a: int, b: int| 0 <= a < b < olds.len() ==> olds[a].0 != olds[b].0,
    ensures
        forall|k: int, l: int| 0 <= k < l < news.len() ==> news[k].0 != news[l].0,
{
    assert forall|k: int, l: int| 0 <= k < l < news.len() implies news[k].0 != news[l].0 by {
        assert(olds[k].0 != olds[l].0);
    }
}

} // verus!
