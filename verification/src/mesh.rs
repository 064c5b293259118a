//! Triangle meshes: deduplicated vertices, index triangles, silhouette-like
//! edge paths.

use vstd::prelude::*;
use crate::bbox::{BBox, lemma_anchor_in_box, spec_anchor, spec_box_contains};
use crate::hit::{Hit, spec_hit_min};
use crate::math::{gcd, lemma_mul_bounds, spec_gcd};
use crate::matrix::{Matrix, lemma_st_apply, lemma_translate_apply, spec_affine, spec_entries_bounded, spec_mul_position, spec_pos_fits, spec_st_mat, spec_tdiv, spec_translate_mat, tdiv};
use crate::rat::rat_pos;
use crate::path::{Path, Paths};
use crate::ray::Ray;
use crate::triangle::{Triangle, spec_triangle_intersect, t3, tcross, tsub};
use crate::vector::{Vector, in_range};
use crate::COORD_LIMIT;

verus! {

/// Triangle defined by indices into a vertex list.
#[derive(Clone, Copy, Debug, PartialEq, Eq, Structural)]
pub struct IndexTriangle {
    pub v1: usize,
    pub v2: usize,
    pub v3: usize,
}

/// The three indices in ascending order.
pub open spec fn spec_sort3(a: usize, b: usize, c: usize) -> (usize, usize, usize) {
    if a <= b {
        if b <= c {
            (a, b, c)
        } else if a <= c {
            (a, c, b)
        } else {
            (c, a, b)
        }
    } else {
        if a <= c {
            (b, a, c)
        } else if b <= c {
            (b, c, a)
        } else {
            (c, b, a)
        }
    }
}

/// Magnitude of an integer.
pub open spec fn iabs(a: int) -> nat {
    if a >= 0 {
        a as nat
    } else {
        (-a) as nat
    }
}

/// `a / g` with the sign of `a`, dividing magnitudes; exact when `g` divides
/// `a`.
pub open spec fn spec_signed_div(a: int, g: nat) -> int {
    if a >= 0 {
        (iabs(a) / g) as int
    } else {
        -((iabs(a) / g) as int)
    }
}

/// The canonical normal of the triangle `(v1, v2, v3)`: the cross product of
/// its edges, divided by the gcd of the magnitudes of its components, with
/// the sign fixed so that the first nonzero component is positive. The
/// reduction puts parallel face normals of either winding into one form, so
/// coplanar neighbours share a record; a degenerate triangle gives the zero
/// vector.
pub open spec fn spec_canon_normal(v1: Vector, v2: Vector, v3: Vector) -> Vector {
    let c = tcross(tsub(t3(v2), t3(v1)), tsub(t3(v3), t3(v1)));
    let g = spec_gcd(spec_gcd(iabs(c.0), iabs(c.1)), iabs(c.2));
    if g == 0 {
        Vector { x: 0, y: 0, z: 0 }
    } else {
        let nx = spec_signed_div(c.0, g);
        let ny = spec_signed_div(c.1, g);
        let nz = spec_signed_div(c.2, g);
        if nx < 0 || (nx == 0 && ny < 0) || (nx == 0 && ny == 0 && nz < 0) {
            Vector { x: -nx as i64, y: -ny as i64, z: -nz as i64 }
        } else {
            Vector { x: nx as i64, y: ny as i64, z: nz as i64 }
        }
    }
}

impl IndexTriangle {
    /// The three undirected edges, each ordered by index, over the sorted
    /// index triple.
    pub fn paths(&self) -> (r: [(usize, usize); 3])
        ensures
            ({
                let (a, b, c) = spec_sort3(self.v1, self.v2, self.v3);
                r@ =~= seq![(a, b), (b, c), (a, c)]
            }),
    {
        let (a, b, c) = Self::sort3(self.v1, self.v2, self.v3);
        [(a, b), (b, c), (a, c)]
    }

    fn sort3(a: usize, b: usize, c: usize) -> (r: (usize, usize, usize))
        ensures
            r == spec_sort3(a, b, c),
    {
        if a <= b {
            if b <= c {
                (a, b, c)
            } else if a <= c {
                (a, c, b)
            } else {
                (c, a, b)
            }
        } else {
            if a <= c {
                (b, a, c)
            } else if b <= c {
                (b, c, a)
            } else {
                (c, b, a)
            }
        }
    }

    /// The canonical normal of this triangle over the vertex list.
    pub fn normalized_normal(&self, vertices: &Vec<Vector>) -> (r: Vector)
        requires
            self.v1 < vertices@.len(),
            self.v2 < vertices@.len(),
            self.v3 < vertices@.len(),
            forall|k: int| 0 <= k < vertices@.len() ==> in_range(#[trigger] vertices@[k], COORD_LIMIT as int),
        ensures
            r == spec_canon_normal(vertices@[self.v1 as int], vertices@[self.v2 as int], vertices@[self.v3 as int]),
    {
        let p1 = vertices[self.v1];
        let p2 = vertices[self.v2];
        let p3 = vertices[self.v3];
        let e1x = p2.x as i128 - p1.x as i128;
        let e1y = p2.y as i128 - p1.y as i128;
        let e1z = p2.z as i128 - p1.z as i128;
        let e2x = p3.x as i128 - p1.x as i128;
        let e2y = p3.y as i128 - p1.y as i128;
        let e2z = p3.z as i128 - p1.z as i128;
        proof {
            lemma_mul_bounds(e1y as int, e2z as int, 1048576, 1048576);
            lemma_mul_bounds(e1z as int, e2y as int, 1048576, 1048576);
            lemma_mul_bounds(e1z as int, e2x as int, 1048576, 1048576);
            lemma_mul_bounds(e1x as int, e2z as int, 1048576, 1048576);
            lemma_mul_bounds(e1x as int, e2y as int, 1048576, 1048576);
            lemma_mul_bounds(e1y as int, e2x as int, 1048576, 1048576);
        }
        let cx = e1y * e2z - e1z * e2y;
        let cy = e1z * e2x - e1x * e2z;
        let cz = e1x * e2y - e1y * e2x;
        let ax: u64 = (if cx >= 0 { cx } else { -cx }) as u64;
        let ay: u64 = (if cy >= 0 { cy } else { -cy }) as u64;
        let az: u64 = (if cz >= 0 { cz } else { -cz }) as u64;
        let g = gcd(gcd(ax, ay), az);
        if g == 0 {
            return Vector { x: 0, y: 0, z: 0 };
        }
        let mx = ax / g;
        let my = ay / g;
        let mz = az / g;
        proof {
            vstd::arithmetic::div_mod::lemma_div_is_ordered_by_denominator(ax as int, 1, g as int);
            vstd::arithmetic::div_mod::lemma_div_is_ordered_by_denominator(ay as int, 1, g as int);
            vstd::arithmetic::div_mod::lemma_div_is_ordered_by_denominator(az as int, 1, g as int);
            vstd::arithmetic::div_mod::lemma_div_by_multiple(ax as int, 1);
            vstd::arithmetic::div_mod::lemma_div_by_multiple(ay as int, 1);
            vstd::arithmetic::div_mod::lemma_div_by_multiple(az as int, 1);
        }
        let nx: i64 = if cx >= 0 { mx as i64 } else { -(mx as i64) };
        let ny: i64 = if cy >= 0 { my as i64 } else { -(my as i64) };
        let nz: i64 = if cz >= 0 { mz as i64 } else { -(mz as i64) };
        if nx < 0 || (nx == 0 && ny < 0) || (nx == 0 && ny == 0 && nz < 0) {
            Vector { x: -nx, y: -ny, z: -nz }
        } else {
            Vector { x: nx, y: ny, z: nz }
        }
    }
}

/// Merges equal vertices into a growing list: a lookup returns the index of
/// the first equal vertex, or appends.
pub struct VertexMerger {
    pub vertices: Vec<Vector>,
}

impl VertexMerger {
    /// No two stored vertices are equal.
    pub open spec fn distinct(self) -> bool {
        forall|j: int, k: int|
            0 <= j < k < self.vertices@.len() ==> self.vertices@[j] != self.vertices@[k]
    }

    pub fn new() -> (r: VertexMerger)
        ensures
            r.vertices@ =~= Seq::<Vector>::empty(),
            r.distinct(),
    {
        VertexMerger { vertices: Vec::new() }
    }

    /// Returns the index of the first vertex equal to `v`, appending `v` when
    /// none is.
    pub fn get_or_insert(&mut self, v: Vector) -> (r: usize)
        requires
            old(self).distinct(),
        ensures
            final(self).distinct(),
            r < final(self).vertices@.len(),
            final(self).vertices@[r as int] == v,
            old(self).vertices@.contains(v) ==> final(self).vertices@ == old(self).vertices@,
            !old(self).vertices@.contains(v) ==> final(self).vertices@ == old(self).vertices@.push(
                v,
            ),
            final(self).vertices@.len() >= old(self).vertices@.len(),
            forall|k: int|
                0 <= k < old(self).vertices@.len() ==> final(self).vertices@[k] == old(
                    self,
                ).vertices@[k],
    {
        let mut i: usize = 0;
        while i < self.vertices.len()
            invariant
                i <= self.vertices@.len(),
                self.vertices@ == old(self).vertices@,
                self.distinct(),
                forall|k: int| 0 <= k < i ==> self.vertices@[k] != v,
            decreases self.vertices@.len() - i,
        {
            if self.vertices[i] == v {
                proof {
                    assert(self.vertices@[i as int] == v);
                }
                return i;
            }
            i += 1;
        }
        self.vertices.push(v);
        self.vertices.len() - 1
    }
}

/// `v` is one of the three corners of the triangle.
pub open spec fn is_corner(v: Vector, t: Triangle) -> bool {
    v == t.v1 || v == t.v2 || v == t.v3
}

/// `v` is a corner of some triangle in the run.
pub open spec fn corner_of_some(v: Vector, ts: Seq<Triangle>) -> bool {
    exists|j: int| 0 <= j < ts.len() && #[trigger] is_corner(v, ts[j])
}

/// Appending a corner of triangle `i` keeps every stored vertex a corner of
/// some triangle.
proof fn lemma_corner_step(
    pre: Seq<Vector>,
    post: Seq<Vector>,
    ts: Seq<Triangle>,
    i: int,
    v: Vector,
)
    requires
        0 <= i < ts.len(),
        is_corner(v, ts[i]),
        post == pre || post == pre.push(v),
        forall|k: int| 0 <= k < pre.len() ==> #[trigger] corner_of_some(pre[k], ts),
    ensures
        forall|k: int| 0 <= k < post.len() ==> #[trigger] corner_of_some(post[k], ts),
{
    assert forall|k: int| 0 <= k < post.len() implies #[trigger] corner_of_some(post[k], ts) by {
        if k < pre.len() {
            assert(post[k] == pre[k]);
            assert(corner_of_some(pre[k], ts));
        } else {
            assert(post[k] == v);
            assert(is_corner(post[k], ts[i]));
        }
    }
}

/// The bounding box of the cached boxes of a run of triangles, extending
/// `acc` from index `i` on.
pub open spec fn spec_tris_bbox_from(ts: Seq<Triangle>, acc: BBox, i: int) -> BBox
    decreases ts.len() - i,
{
    if i >= ts.len() {
        acc
    } else {
        spec_tris_bbox_from(
            ts,
            BBox { min: acc.min.spec_min3(ts[i].bx.min), max: acc.max.spec_max3(ts[i].bx.max) },
            i + 1,
        )
    }
}

/// The bounding box of a run of triangles: the zero box when there are none.
pub open spec fn spec_tris_bbox(ts: Seq<Triangle>) -> BBox {
    if ts.len() == 0 {
        BBox { min: Vector { x: 0, y: 0, z: 0 }, max: Vector { x: 0, y: 0, z: 0 } }
    } else {
        spec_tris_bbox_from(ts, ts[0].bx, 1)
    }
}

/// Triangle mesh shape.
pub struct Mesh {
    /// Bounding box of all triangles.
    pub bx: BBox,
    /// The deduplicated vertices.
    pub vertices: Vec<Vector>,
    /// Triangles as index triples into the vertex list.
    pub index_triangles: Vec<IndexTriangle>,
    /// The compiled triangle list, if `compile` has run.
    pub tree: Option<Vec<Triangle>>,
}

impl Mesh {
    /// Every index triple points into the vertex list.
    pub open spec fn wf(self) -> bool {
        forall|i: int|
            0 <= i < self.index_triangles@.len() ==> (#[trigger] self.index_triangles@[i]).v1
                < self.vertices@.len() && self.index_triangles@[i].v2 < self.vertices@.len()
                && self.index_triangles@[i].v3 < self.vertices@.len()
    }

    /// Every vertex lies within the kernel coordinate range.
    pub open spec fn vertices_in_range(self) -> bool {
        forall|k: int|
            0 <= k < self.vertices@.len() ==> in_range(
                #[trigger] self.vertices@[k],
                COORD_LIMIT as int,
            )
    }

    /// The triangle that an index triple denotes, with its box recomputed.
    pub open spec fn spec_triangle_at(self, i: int) -> Triangle {
        let it = self.index_triangles@[i];
        let p1 = self.vertices@[it.v1 as int];
        let p2 = self.vertices@[it.v2 as int];
        let p3 = self.vertices@[it.v3 as int];
        Triangle {
            v1: p1,
            v2: p2,
            v3: p3,
            bx: BBox { min: p1.spec_min3(p2).spec_min3(p3), max: p1.spec_max3(p2).spec_max3(p3) },
        }
    }

    /// Builds a mesh by merging equal vertices of the given triangles into a
    /// deduplicated list and indexing each triangle into it.
    pub fn new(triangles: Vec<Triangle>) -> (m: Mesh)
        ensures
            m.wf(),
            m.tree is None,
            m.index_triangles@.len() == triangles@.len(),
            forall|j: int, k: int|
                0 <= j < k < m.vertices@.len() ==> m.vertices@[j] != m.vertices@[k],
            forall|i: int|
                0 <= i < triangles@.len() ==> m.spec_triangle_at(i).v1 == (
                #[trigger] triangles@[i]).v1 && m.spec_triangle_at(i).v2 == triangles@[i].v2
                    && m.spec_triangle_at(i).v3 == triangles@[i].v3,
            m.bx == spec_tris_bbox(triangles@),
            (forall|i: int|
                0 <= i < triangles@.len() ==> in_range((#[trigger] triangles@[i]).v1, COORD_LIMIT as int)
                    && in_range(triangles@[i].v2, COORD_LIMIT as int) && in_range(
                    triangles@[i].v3,
                    COORD_LIMIT as int,
                )) ==> m.vertices_in_range(),
            forall|k: int|
                0 <= k < m.vertices@.len() ==> #[trigger] corner_of_some(
                    m.vertices@[k],
                    triangles@,
                ),
    {
        let mut merger = VertexMerger::new();
        let mut its: Vec<IndexTriangle> = Vec::new();
        let mut i: usize = 0;
        while i < triangles.len()
            invariant
                i <= triangles@.len(),
                its@.len() == i,
                merger.distinct(),
                forall|k: int|
                    0 <= k < i ==> (#[trigger] its@[k]).v1 < merger.vertices@.len() && its@[k].v2
                        < merger.vertices@.len() && its@[k].v3 < merger.vertices@.len(),
                forall|k: int|
                    0 <= k < i ==> merger.vertices@[(#[trigger] its@[k]).v1 as int]
                        == triangles@[k].v1 && merger.vertices@[its@[k].v2 as int]
                        == triangles@[k].v2 && merger.vertices@[its@[k].v3 as int]
                        == triangles@[k].v3,
                (forall|k: int|
                    0 <= k < triangles@.len() ==> in_range(
                        (#[trigger] triangles@[k]).v1,
                        COORD_LIMIT as int,
                    ) && in_range(triangles@[k].v2, COORD_LIMIT as int) && in_range(
                        triangles@[k].v3,
                        COORD_LIMIT as int,
                    )) ==> forall|k: int|
                    0 <= k < merger.vertices@.len() ==> in_range(
                        #[trigger] merger.vertices@[k],
                        COORD_LIMIT as int,
                    ),
                forall|k: int|
                    0 <= k < merger.vertices@.len() ==> #[trigger] corner_of_some(
                        merger.vertices@[k],
                        triangles@,
                    ),
            decreases triangles@.len() - i,
        {
            let t = &triangles[i];
            let ghost pre1 = merger.vertices@;
            let a = merger.get_or_insert(t.v1);
            proof {
                lemma_corner_step(pre1, merger.vertices@, triangles@, i as int, triangles@[i as int].v1);
            }
            let ghost pre2 = merger.vertices@;
            let b = merger.get_or_insert(t.v2);
            proof {
                lemma_corner_step(pre2, merger.vertices@, triangles@, i as int, triangles@[i as int].v2);
            }
            let ghost pre3 = merger.vertices@;
            let c = merger.get_or_insert(t.v3);
            proof {
                lemma_corner_step(pre3, merger.vertices@, triangles@, i as int, triangles@[i as int].v3);
            }
            its.push(IndexTriangle { v1: a, v2: b, v3: c });
            i += 1;
        }
        let bx = Self::triangles_bbox(&triangles);
        Mesh { bx, vertices: merger.vertices, index_triangles: its, tree: None }
    }

    fn triangles_bbox(ts: &Vec<Triangle>) -> (r: BBox)
        ensures
            r == spec_tris_bbox(ts@),
    {
        if ts.len() == 0 {
            return BBox::default();
        }
        let mut bx = ts[0].bx;
        let mut i: usize = 1;
        while i < ts.len()
            invariant
                1 <= i <= ts@.len(),
                spec_tris_bbox(ts@) == spec_tris_bbox_from(ts@, bx, i as int),
            decreases ts@.len() - i,
        {
            bx = BBox { min: bx.min.min(ts[i].bx.min), max: bx.max.max(ts[i].bx.max) };
            i += 1;
        }
        bx
    }

    /// Rebuilds the concrete triangles from the index triples.
    pub fn triangles(&self) -> (r: Vec<Triangle>)
        requires
            self.wf(),
        ensures
            r@.len() == self.index_triangles@.len(),
            forall|i: int| 0 <= i < r@.len() ==> r@[i] == self.spec_triangle_at(i),
    {
        let mut out: Vec<Triangle> = Vec::new();
        let mut i: usize = 0;
        while i < self.index_triangles.len()
            invariant
                self.wf(),
                i <= self.index_triangles@.len(),
                out@.len() == i,
                forall|k: int| 0 <= k < i ==> out@[k] == self.spec_triangle_at(k),
            decreases self.index_triangles@.len() - i,
        {
            let it = &self.index_triangles[i];
            out.push(
                Triangle::new(self.vertices[it.v1], self.vertices[it.v2], self.vertices[it.v3]),
            );
            i += 1;
        }
        out
    }

    /// Builds the compiled triangle list once; later calls change nothing.
    pub fn compile(&mut self)
        requires
            old(self).wf(),
        ensures
            final(self).wf(),
            final(self).vertices == old(self).vertices,
            final(self).index_triangles == old(self).index_triangles,
            final(self).bx == old(self).bx,
            old(self).tree is Some ==> final(self).tree == old(self).tree,
            old(self).tree is None ==> ({
                let tr = final(self).tree;
                &&& tr is Some
                &&& tr->0@.len() == final(self).index_triangles@.len()
                &&& forall|i: int|
                    0 <= i < tr->0@.len() ==> tr->0@[i] == final(self).spec_triangle_at(i)
            }),
            (old(self).tree is None && old(self).vertices_in_range()) ==> (forall|i: int|
                0 <= i < final(self).tree->0@.len() ==> in_range(
                    (#[trigger] final(self).tree->0@[i]).v1,
                    COORD_LIMIT as int,
                ) && in_range(final(self).tree->0@[i].v2, COORD_LIMIT as int) && in_range(
                    final(self).tree->0@[i].v3,
                    COORD_LIMIT as int,
                )),
    {
        if self.tree.is_none() {
            let ts = self.triangles();
            let ghost pre = *self;
            self.tree = Some(ts);
            proof {
                assert forall|i: int|
                    0 <= i < self.tree->0@.len() implies self.tree->0@[i]
                    == self.spec_triangle_at(i) by {
                    assert(self.tree->0@[i] == pre.spec_triangle_at(i));
                }
                if pre.vertices_in_range() {
                    assert forall|i: int|
                        0 <= i < self.tree->0@.len() implies in_range(
                        (#[trigger] self.tree->0@[i]).v1,
                        COORD_LIMIT as int,
                    ) && in_range(self.tree->0@[i].v2, COORD_LIMIT as int) && in_range(
                        self.tree->0@[i].v3,
                        COORD_LIMIT as int,
                    ) by {
                        assert(self.tree->0@[i] == pre.spec_triangle_at(i));
                        assert(in_range(pre.vertices@[pre.index_triangles@[i].v1 as int], COORD_LIMIT as int));
                        assert(in_range(pre.vertices@[pre.index_triangles@[i].v2 as int], COORD_LIMIT as int));
                        assert(in_range(pre.vertices@[pre.index_triangles@[i].v3 as int], COORD_LIMIT as int));
                    }
                }
            }
        }
    }

    pub fn bounding_box(&self) -> (r: BBox)
        ensures
            r == self.bx,
    {
        self.bx
    }

    /// A mesh is a surface, not a solid.
    pub fn contains(&self, _v: Vector, _f: i64) -> (r: bool)
        ensures
            r == false,
    {
        false
    }

    /// The nearest hit over the compiled triangles; a mesh that has not been
    /// compiled reports a miss.
    pub fn intersect(&self, r: Ray) -> (h: Hit)
        requires
            in_range(r.origin, COORD_LIMIT as int),
            in_range(r.direction, COORD_LIMIT as int),
            self.tree is Some ==> forall|i: int|
                0 <= i < self.tree->0@.len() ==> in_range(
                    (#[trigger] self.tree->0@[i]).v1,
                    COORD_LIMIT as int,
                ) && in_range(self.tree->0@[i].v2, COORD_LIMIT as int) && in_range(
                    self.tree->0@[i].v3,
                    COORD_LIMIT as int,
                ),
        ensures
            self.tree is None ==> h == Hit::Miss,
            self.tree is Some ==> h == spec_tris_intersect(self.tree->0@, r, self.tree->0@.len() as int),
            h.wf(),
            h is At ==> rat_pos(h->0),
    {
        match &self.tree {
            None => Hit::no_hit(),
            Some(ts) => {
                let mut best = Hit::no_hit();
                let mut i: usize = 0;
                while i < ts.len()
                    invariant
                        i <= ts@.len(),
                        in_range(r.origin, COORD_LIMIT as int),
                        in_range(r.direction, COORD_LIMIT as int),
                        forall|k: int|
                            0 <= k < ts@.len() ==> in_range(
                                (#[trigger] ts@[k]).v1,
                                COORD_LIMIT as int,
                            ) && in_range(ts@[k].v2, COORD_LIMIT as int) && in_range(
                                ts@[k].v3,
                                COORD_LIMIT as int,
                            ),
                        best == spec_tris_intersect(ts@, r, i as int),
                        best.wf(),
                        best is At ==> rat_pos(best->0),
                    decreases ts@.len() - i,
                {
                    let t = &ts[i];
                    let h = t.intersect(r);
                    best = best.min(h);
                    proof {
                        if best is At {
                            crate::hit::lemma_hit_min_closest(
                                spec_tris_intersect(ts@, r, i as int),
                                h,
                            );
                        }
                    }
                    i += 1;
                }
                best
            },
        }
    }
}


/// One (edge, canonical normal) incidence record.
#[derive(Clone, Copy, Debug, PartialEq, Eq, Structural)]
pub struct EdgeRec {
    pub a: usize,
    pub b: usize,
    pub n: Vector,
}

/// How many times `x` occurs in `s`.
pub open spec fn occurrences(s: Seq<EdgeRec>, x: EdgeRec) -> nat
    decreases s.len(),
{
    if s.len() == 0 {
        0
    } else {
        occurrences(s.drop_last(), x) + (if s.last() == x {
            1nat
        } else {
            0nat
        })
    }
}

proof fn lemma_occ_push(s: Seq<EdgeRec>, e: EdgeRec, x: EdgeRec)
    ensures
        occurrences(s.push(e), x) == occurrences(s, x) + (if e == x {
            1nat
        } else {
            0nat
        }),
{
    assert(s.push(e).drop_last() =~= s);
    assert(s.push(e).last() == e);
}

/// The elements of `s` that occur exactly once in `all`, in order.
pub open spec fn keep_once(all: Seq<EdgeRec>, s: Seq<EdgeRec>) -> Seq<EdgeRec>
    decreases s.len(),
{
    if s.len() == 0 {
        Seq::empty()
    } else {
        let rest = keep_once(all, s.drop_last());
        if occurrences(all, s.last()) == 1 {
            rest.push(s.last())
        } else {
            rest
        }
    }
}

/// Every kept element comes from `s`.
pub proof fn lemma_keep_once_elem(all: Seq<EdgeRec>, s: Seq<EdgeRec>, k: int)
    requires
        0 <= k < keep_once(all, s).len(),
    ensures
        s.contains(keep_once(all, s)[k]),
    decreases s.len(),
{
    if s.len() > 0 {
        let rest = keep_once(all, s.drop_last());
        if k < rest.len() {
            lemma_keep_once_elem(all, s.drop_last(), k);
            let j = choose|j: int| 0 <= j < s.drop_last().len() && s.drop_last()[j] == rest[k];
            assert(s[j] == rest[k]);
        } else {
            assert(s[s.len() - 1] == s.last());
        }
    }
}

/// A sequence whose entries are the records' polylines is `edge_lines`.
proof fn lemma_edge_lines_pointwise(m: Mesh, s: Seq<EdgeRec>, lines: Seq<Seq<Vector>>)
    requires
        lines.len() == s.len(),
        forall|j: int|
            0 <= j < s.len() ==> #[trigger] lines[j] == seq![
                m.vertices@[s[j].a as int],
                m.vertices@[s[j].b as int],
            ],
    ensures
        lines == edge_lines(m, s),
    decreases s.len(),
{
    if s.len() > 0 {
        lemma_edge_lines_pointwise(m, s.drop_last(), lines.drop_last());
        assert(lines =~= lines.drop_last().push(lines.last()));
    }
}

/// The polylines of a run of records over the mesh's vertices.
pub open spec fn edge_lines(m: Mesh, s: Seq<EdgeRec>) -> Seq<Seq<Vector>>
    decreases s.len(),
{
    if s.len() == 0 {
        Seq::empty()
    } else {
        edge_lines(m, s.drop_last()).push(
            seq![m.vertices@[s.last().a as int], m.vertices@[s.last().b as int]],
        )
    }
}

/// The three incidence records of triangle `i`: its edges over the sorted
/// index triple, each carrying the triangle's canonical normal.
pub open spec fn spec_tri_recs(m: Mesh, i: int) -> Seq<EdgeRec> {
    let it = m.index_triangles@[i];
    let n = spec_canon_normal(
        m.vertices@[it.v1 as int],
        m.vertices@[it.v2 as int],
        m.vertices@[it.v3 as int],
    );
    let (a, b, c) = spec_sort3(it.v1, it.v2, it.v3);
    seq![EdgeRec { a, b, n }, EdgeRec { a: b, b: c, n }, EdgeRec { a, b: c, n }]
}

/// All incidence records of the first `k` triangles, in order.
pub open spec fn spec_incidences(m: Mesh, k: int) -> Seq<EdgeRec>
    decreases k,
{
    if k <= 0 {
        Seq::empty()
    } else {
        spec_incidences(m, k - 1) + spec_tri_recs(m, k - 1)
    }
}

/// The silhouette-like edge paths of the mesh: the polylines of the records
/// that occur exactly once among all incidences — boundary edges and edges
/// whose two faces have different canonical normals.
pub open spec fn spec_mesh_paths(m: Mesh) -> Seq<Seq<Vector>> {
    let all = spec_incidences(m, m.index_triangles@.len() as int);
    edge_lines(m, keep_once(all, all))
}

/// Counts the occurrences of `x` in `v`.
fn count_rec(v: &Vec<EdgeRec>, x: EdgeRec) -> (c: usize)
    ensures
        c == occurrences(v@, x),
{
    let mut c: usize = 0;
    let mut j: usize = 0;
    while j < v.len()
        invariant
            j <= v@.len(),
            c <= j,
            c == occurrences(v@.take(j as int), x),
        decreases v@.len() - j,
    {
        proof {
            assert(v@.take(j as int).push(v@[j as int]) =~= v@.take(j as int + 1));
            lemma_occ_push(v@.take(j as int), v@[j as int], x);
        }
        if v[j] == x {
            c += 1;
        }
        j += 1;
    }
    proof {
        assert(v@.take(v@.len() as int) =~= v@);
    }
    c
}

/// A pushed element changes nothing that was kept before it.
proof fn lemma_keep_once_push(all: Seq<EdgeRec>, s: Seq<EdgeRec>, e: EdgeRec)
    ensures
        keep_once(all, s.push(e)) == (if occurrences(all, e) == 1 {
            keep_once(all, s).push(e)
        } else {
            keep_once(all, s)
        }),
{
    assert(s.push(e).drop_last() =~= s);
    assert(s.push(e).last() == e);
}



/// Keeps, in order, the elements that occur exactly once in the whole vector.
fn unique_once(v: &Vec<EdgeRec>) -> (r: Vec<EdgeRec>)
    ensures
        r@ == keep_once(v@, v@),
{
    let mut out: Vec<EdgeRec> = Vec::new();
    let mut i: usize = 0;
    while i < v.len()
        invariant
            i <= v@.len(),
            out@ == keep_once(v@, v@.take(i as int)),
        decreases v@.len() - i,
    {
        proof {
            assert(v@.take(i as int).push(v@[i as int]) =~= v@.take(i as int + 1));
            lemma_keep_once_push(v@, v@.take(i as int), v@[i as int]);
        }
        let c = count_rec(v, v[i]);
        if c == 1 {
            out.push(v[i]);
        }
        i += 1;
    }
    proof {
        assert(v@.take(v@.len() as int) =~= v@);
    }
    out
}

impl Mesh {
    /// Emits the silhouette-like edges: every (edge, canonical normal)
    /// incidence that occurs exactly once over the whole mesh — boundary
    /// edges, and edges whose two incident faces have different canonical
    /// normals, once per distinct normal.
    pub fn paths(&self) -> (r: Paths)
        requires
            self.wf(),
            self.vertices_in_range(),
        ensures
            crate::path::paths_view(r) == spec_mesh_paths(*self),
    {
        let mut recs: Vec<EdgeRec> = Vec::new();
        let mut i: usize = 0;
        while i < self.index_triangles.len()
            invariant
                self.wf(),
                self.vertices_in_range(),
                i <= self.index_triangles@.len(),
                recs@ == spec_incidences(*self, i as int),
                forall|k: int|
                    0 <= k < recs@.len() ==> (#[trigger] recs@[k]).a < self.vertices@.len()
                        && recs@[k].b < self.vertices@.len(),
            decreases self.index_triangles@.len() - i,
        {
            let ghost before = recs@;
            let it = &self.index_triangles[i];
            let n = it.normalized_normal(&self.vertices);
            let edges = it.paths();
            let (a0, b0) = edges[0];
            let (a1, b1) = edges[1];
            let (a2, b2) = edges[2];
            recs.push(EdgeRec { a: a0, b: b0, n });
            recs.push(EdgeRec { a: a1, b: b1, n });
            recs.push(EdgeRec { a: a2, b: b2, n });
            proof {
                assert(recs@ =~= before + spec_tri_recs(*self, i as int));
            }
            i += 1;
        }
        let once = unique_once(&recs);
        proof {
            assert forall|k: int|
                0 <= k < once@.len() implies (#[trigger] once@[k]).a < self.vertices@.len()
                && once@[k].b < self.vertices@.len() by {
                lemma_keep_once_elem(recs@, recs@, k);
                assert(recs@.contains(once@[k]));
                let j = choose|j: int| 0 <= j < recs@.len() && recs@[j] == once@[k];
                assert(recs@[j].a < self.vertices@.len());
            }
        }
        let mut out: Vec<Path> = Vec::new();
        let mut k: usize = 0;
        while k < once.len()
            invariant
                k <= once@.len(),
                self.wf(),
                out@.len() == k,
                forall|j: int|
                    0 <= j < once@.len() ==> (#[trigger] once@[j]).a < self.vertices@.len()
                        && once@[j].b < self.vertices@.len(),
                forall|j: int|
                    0 <= j < k ==> (#[trigger] out@[j])@ == seq![
                        self.vertices@[once@[j].a as int],
                        self.vertices@[once@[j].b as int],
                    ],
            decreases once@.len() - k,
        {
            let e = &once[k];
            let p: Path = vec![self.vertices[e.a], self.vertices[e.b]];
            out.push(p);
            k += 1;
        }
        let r = Paths::from_vec(out);
        proof {
            lemma_edge_lines_pointwise(*self, once@, out@.map_values(|q: Path| q@));
            assert(crate::path::paths_view(r) == out@.map_values(|q: Path| q@));
        }
        r
    }
}


/// The triangles of the mesh, derived from its index triples.
pub open spec fn spec_mesh_tris(m: Mesh) -> Seq<Triangle> {
    Seq::new(m.index_triangles@.len(), |i: int| m.spec_triangle_at(i))
}

/// The uniform fixed-point scale that fits the source box into the target
/// box: the smallest of the per-axis ratios, over the axes with positive
/// source extent.
pub open spec fn spec_fit_scale(sb: BBox, tb: BBox) -> int {
    let cx = spec_tdiv((tb.max.x - tb.min.x) * 65536, sb.max.x - sb.min.x);
    let cy = spec_tdiv((tb.max.y - tb.min.y) * 65536, sb.max.y - sb.min.y);
    let cz = spec_tdiv((tb.max.z - tb.min.z) * 65536, sb.max.z - sb.min.z);
    let ax: Option<int> = if sb.max.x - sb.min.x > 0 {
        Option::Some(cx)
    } else {
        Option::None
    };
    let ay: Option<int> = if sb.max.y - sb.min.y > 0 {
        match ax {
            Option::None => Option::Some(cy),
            Option::Some(a) => Option::Some(
                if a <= cy {
                    a
                } else {
                    cy
                },
            ),
        }
    } else {
        ax
    };
    let az: Option<int> = if sb.max.z - sb.min.z > 0 {
        match ay {
            Option::None => Option::Some(cz),
            Option::Some(a) => Option::Some(
                if a <= cz {
                    a
                } else {
                    cz
                },
            ),
        }
    } else {
        ay
    };
    az->0
}

/// The leftover room in the target box after scaling, per axis.
pub open spec fn spec_fit_extra(sb: BBox, tb: BBox, s: int) -> (int, int, int) {
    (
        (tb.max.x - tb.min.x) - spec_tdiv((sb.max.x - sb.min.x) * s, 65536),
        (tb.max.y - tb.min.y) - spec_tdiv((sb.max.y - sb.min.y) * s, 65536),
        (tb.max.z - tb.min.z) - spec_tdiv((sb.max.z - sb.min.z) * s, 65536),
    )
}

/// The final translation of the fit: the target corner plus the anchored
/// share of the leftover room.
pub open spec fn spec_fit_t2(sb: BBox, tb: BBox, anchor: Vector, s: int) -> (int, int, int) {
    let e = spec_fit_extra(sb, tb, s);
    (
        tb.min.x + spec_tdiv(e.0 * anchor.x, 65536),
        tb.min.y + spec_tdiv(e.1 * anchor.y, 65536),
        tb.min.z + spec_tdiv(e.2 * anchor.z, 65536),
    )
}

/// The translation column of the fit matrix: move the source corner to the
/// origin, scale, then translate to the anchored target position.
pub open spec fn spec_fit_c3(sb: BBox, tb: BBox, anchor: Vector) -> Vector {
    let s = spec_fit_scale(sb, tb);
    let t2 = spec_fit_t2(sb, tb, anchor, s);
    Vector {
        x: (s * (-sb.min.x) + t2.0 * 65536) as i64,
        y: (s * (-sb.min.y) + t2.1 * 65536) as i64,
        z: (s * (-sb.min.z) + t2.2 * 65536) as i64,
    }
}

impl Mesh {
    /// Maps every vertex through an affine matrix; the index triangles stay,
    /// the bounding box is recomputed, and the compiled list is dropped.
    pub fn transform(self, matrix: &Matrix) -> (r: Mesh)
        requires
            self.wf(),
            spec_affine(matrix@),
            spec_entries_bounded(matrix@, 0x4000_0000_0000_0000),
            forall|k: int|
                0 <= k < self.vertices@.len() ==> spec_pos_fits(
                    matrix@,
                    #[trigger] self.vertices@[k],
                ),
        ensures
            r.wf(),
            r.tree is None,
            r.index_triangles == self.index_triangles,
            r.vertices@.len() == self.vertices@.len(),
            forall|k: int|
                0 <= k < self.vertices@.len() ==> r.vertices@[k] == spec_mul_position(
                    matrix@,
                    #[trigger] self.vertices@[k],
                ),
            r.bx == spec_tris_bbox(spec_mesh_tris(r)),
    {
        let mut m = self;
        let ghost orig = m.vertices@;
        let mut nv: Vec<Vector> = Vec::new();
        let mut i: usize = 0;
        while i < m.vertices.len()
            invariant
                i <= m.vertices@.len(),
                m.vertices@ == orig,
                nv@.len() == i,
                spec_affine(matrix@),
                spec_entries_bounded(matrix@, 0x4000_0000_0000_0000),
                forall|k: int|
                    0 <= k < orig.len() ==> spec_pos_fits(matrix@, #[trigger] orig[k]),
                forall|k: int|
                    0 <= k < i ==> nv@[k] == spec_mul_position(matrix@, #[trigger] orig[k]),
            decreases m.vertices@.len() - i,
        {
            nv.push(matrix.mul_position(m.vertices[i]));
            i += 1;
        }
        m.vertices = nv;
        m.tree = None;
        let ts = m.triangles();
        let ghost mid = m;
        m.bx = Self::triangles_bbox(&ts);
        proof {
            assert(spec_mesh_tris(m).len() == m.index_triangles@.len());
            assert forall|j: int| 0 <= j < ts@.len() implies ts@[j] == spec_mesh_tris(m)[j] by {
                assert(ts@[j] == mid.spec_triangle_at(j));
                assert(m.index_triangles == mid.index_triangles && m.vertices == mid.vertices);
                assert(m.spec_triangle_at(j) == mid.spec_triangle_at(j));
                assert(spec_mesh_tris(m)[j] == m.spec_triangle_at(j));
            }
            assert(ts@ =~= spec_mesh_tris(m));
        }
        m
    }

    /// Translates the mesh so that the anchored point of its bounding box
    /// lands on `position`; every vertex moves exactly by the same offset.
    pub fn move_to(self, position: Vector, anchor: Vector) -> (r: Mesh)
        requires
            self.wf(),
            forall|k: int|
                0 <= k < self.vertices@.len() ==> in_range(
                    #[trigger] self.vertices@[k],
                    0x8000_0000_0000,
                ),
            in_range(self.bx.min, 0x2000_0000_0000),
            in_range(self.bx.max, 0x2000_0000_0000),
            self.bx.min.x <= self.bx.max.x && self.bx.min.y <= self.bx.max.y && self.bx.min.z
                <= self.bx.max.z,
            in_range(position, COORD_LIMIT as int),
            0 <= anchor.x <= 65536 && 0 <= anchor.y <= 65536 && 0 <= anchor.z <= 65536,
        ensures
            r.wf(),
            r.tree is None,
            r.index_triangles == self.index_triangles,
            r.vertices@.len() == self.vertices@.len(),
            forall|k: int|
                0 <= k < self.vertices@.len() ==> r.vertices@[k] == (Vector {
                    x: ((#[trigger] self.vertices@[k]).x + position.x - spec_anchor(
                        self.bx,
                        anchor,
                    ).x) as i64,
                    y: (self.vertices@[k].y + position.y - spec_anchor(self.bx, anchor).y) as i64,
                    z: (self.vertices@[k].z + position.z - spec_anchor(self.bx, anchor).z) as i64,
                }),
            r.bx == spec_tris_bbox(spec_mesh_tris(r)),
    {
        let at = self.bx.anchor(anchor);
        let t = Vector { x: position.x - at.x, y: position.y - at.y, z: position.z - at.z };
        let matrix = Matrix::translate(t);
        proof {
            assert(matrix@ =~= spec_translate_mat(t));
            lemma_translate_apply(t, t);
            assert forall|k: int|
                0 <= k < self.vertices@.len() implies spec_pos_fits(
                matrix@,
                #[trigger] self.vertices@[k],
            ) by {
                lemma_translate_apply(t, self.vertices@[k]);
            }
        }
        let ghost pre = self;
        let r = self.transform(&matrix);
        proof {
            assert forall|k: int|
                0 <= k < pre.vertices@.len() implies r.vertices@[k] == (Vector {
                x: (#[trigger] pre.vertices@[k].x + position.x - spec_anchor(pre.bx, anchor).x) as i64,
                y: (pre.vertices@[k].y + position.y - spec_anchor(pre.bx, anchor).y) as i64,
                z: (pre.vertices@[k].z + position.z - spec_anchor(pre.bx, anchor).z) as i64,
            }) by {
                lemma_translate_apply(t, pre.vertices@[k]);
            }
        }
        r
    }

    /// Scales the mesh uniformly into the target box (the smallest per-axis
    /// ratio wins) and places it at the anchored share of the leftover room.
    pub fn fit_inside(self, bx: BBox, anchor: Vector) -> (r: Mesh)
        requires
            self.wf(),
            forall|k: int|
                0 <= k < self.vertices@.len() ==> in_range(
                    #[trigger] self.vertices@[k],
                    COORD_LIMIT as int,
                ),
            in_range(self.bx.min, COORD_LIMIT as int),
            in_range(self.bx.max, COORD_LIMIT as int),
            self.bx.min.x <= self.bx.max.x && self.bx.min.y <= self.bx.max.y && self.bx.min.z
                <= self.bx.max.z,
            in_range(bx.min, COORD_LIMIT as int),
            in_range(bx.max, COORD_LIMIT as int),
            bx.min.x <= bx.max.x && bx.min.y <= bx.max.y && bx.min.z <= bx.max.z,
            0 <= anchor.x <= 65536 && 0 <= anchor.y <= 65536 && 0 <= anchor.z <= 65536,
            self.bx.max.x > self.bx.min.x || self.bx.max.y > self.bx.min.y || self.bx.max.z
                > self.bx.min.z,
        ensures
            r.wf(),
            r.tree is None,
            r.index_triangles == self.index_triangles,
            r.vertices@.len() == self.vertices@.len(),
            forall|k: int|
                0 <= k < self.vertices@.len() ==> r.vertices@[k] == spec_mul_position(
                    spec_st_mat(spec_fit_scale(self.bx, bx) as i64, spec_fit_c3(self.bx, bx, anchor)),
                    #[trigger] self.vertices@[k],
                ),
            forall|k: int|
                0 <= k < r.vertices@.len() ==> in_range(#[trigger] r.vertices@[k], 0x2000_0000_0000),
            r.bx == spec_tris_bbox(spec_mesh_tris(r)),
    {
        let ssx = (self.bx.max.x - self.bx.min.x) as i128;
        let ssy = (self.bx.max.y - self.bx.min.y) as i128;
        let ssz = (self.bx.max.z - self.bx.min.z) as i128;
        let bsx = (bx.max.x - bx.min.x) as i128;
        let bsy = (bx.max.y - bx.min.y) as i128;
        let bsz = (bx.max.z - bx.min.z) as i128;
        let mut acc: Option<i128> = None;
        if ssx > 0 {
            acc = Some(tdiv(bsx * 65536, ssx));
        }
        if ssy > 0 {
            let cy = tdiv(bsy * 65536, ssy);
            acc = match acc {
                None => Some(cy),
                Some(a) => Some(if a <= cy { a } else { cy }),
            };
        }
        if ssz > 0 {
            let cz = tdiv(bsz * 65536, ssz);
            acc = match acc {
                None => Some(cz),
                Some(a) => Some(if a <= cz { a } else { cz }),
            };
        }
        let s = acc.unwrap();
        assert(s == spec_fit_scale(self.bx, bx));
        assert(0 <= s <= 0x10_0000_0000);
        proof {
            lemma_mul_bounds(ssx as int, s as int, 0x10_0000, 0x10_0000_0000);
            lemma_mul_bounds(ssy as int, s as int, 0x10_0000, 0x10_0000_0000);
            lemma_mul_bounds(ssz as int, s as int, 0x10_0000, 0x10_0000_0000);
            crate::matrix::lemma_tdiv_bound(ssx as int * s as int, 0x100_0000_0000);
            crate::matrix::lemma_tdiv_bound(ssy as int * s as int, 0x100_0000_0000);
            crate::matrix::lemma_tdiv_bound(ssz as int * s as int, 0x100_0000_0000);
        }
        let ex = bsx - tdiv(ssx * s, 65536);
        let ey = bsy - tdiv(ssy * s, 65536);
        let ez = bsz - tdiv(ssz * s, 65536);
        proof {
            lemma_mul_bounds(ex as int, anchor.x as int, 0x200_0000_0000, 65536);
            lemma_mul_bounds(ey as int, anchor.y as int, 0x200_0000_0000, 65536);
            lemma_mul_bounds(ez as int, anchor.z as int, 0x200_0000_0000, 65536);
            crate::matrix::lemma_tdiv_bound(ex as int * anchor.x as int, 0x200_0000_0000);
            crate::matrix::lemma_tdiv_bound(ey as int * anchor.y as int, 0x200_0000_0000);
            crate::matrix::lemma_tdiv_bound(ez as int * anchor.z as int, 0x200_0000_0000);
        }
        let t2x = bx.min.x as i128 + tdiv(ex * (anchor.x as i128), 65536);
        let t2y = bx.min.y as i128 + tdiv(ey * (anchor.y as i128), 65536);
        let t2z = bx.min.z as i128 + tdiv(ez * (anchor.z as i128), 65536);
        proof {
            lemma_mul_bounds(s as int, -self.bx.min.x as int, 0x10_0000_0000, 0x8_0000);
            lemma_mul_bounds(s as int, -self.bx.min.y as int, 0x10_0000_0000, 0x8_0000);
            lemma_mul_bounds(s as int, -self.bx.min.z as int, 0x10_0000_0000, 0x8_0000);
        }
        let c3 = Vector {
            x: (s * (-(self.bx.min.x as i128)) + t2x * 65536) as i64,
            y: (s * (-(self.bx.min.y as i128)) + t2y * 65536) as i64,
            z: (s * (-(self.bx.min.z as i128)) + t2z * 65536) as i64,
        };
        assert(c3 == spec_fit_c3(self.bx, bx, anchor));
        let si = s as i64;
        let matrix = Matrix {
            e: [
                si, 0, 0, c3.x,
                0, si, 0, c3.y,
                0, 0, si, c3.z,
                0, 0, 0, 65536,
            ],
        };
        proof {
            assert(matrix@ =~= spec_st_mat(si, c3));
            lemma_st_apply(si, c3, Vector { x: 0, y: 0, z: 0 });
            assert forall|k: int|
                0 <= k < self.vertices@.len() implies spec_pos_fits(
                matrix@,
                #[trigger] self.vertices@[k],
            ) by {
                lemma_st_apply(si, c3, self.vertices@[k]);
            }
        }
        let ghost pre = self;
        let r = self.transform(&matrix);
        proof {
            assert forall|k: int|
                0 <= k < r.vertices@.len() implies in_range(
                #[trigger] r.vertices@[k],
                0x2000_0000_0000,
            ) by {
                lemma_st_apply(si, c3, pre.vertices@[k]);
            }
        }
        r
    }

    /// Fits the mesh uniformly into the box of side `unit` cornered at the
    /// origin, then centers it on the origin: `unit` is the caller's one
    /// world unit in lattice units. Every vertex lands at the fit map's image
    /// shifted by the centering offset, inside the box of half-width `unit`
    /// around the origin.
    pub fn unit_cube(self, unit: i64) -> (r: Mesh)
        requires
            self.wf(),
            forall|k: int|
                0 <= k < self.vertices@.len() ==> in_range(
                    #[trigger] self.vertices@[k],
                    COORD_LIMIT as int,
                ),
            forall|k: int|
                0 <= k < self.vertices@.len() ==> spec_box_contains(
                    self.bx,
                    #[trigger] self.vertices@[k],
                    0,
                ),
            in_range(self.bx.min, COORD_LIMIT as int),
            in_range(self.bx.max, COORD_LIMIT as int),
            self.bx.min.x <= self.bx.max.x && self.bx.min.y <= self.bx.max.y && self.bx.min.z
                <= self.bx.max.z,
            self.bx.max.x > self.bx.min.x || self.bx.max.y > self.bx.min.y || self.bx.max.z
                > self.bx.min.z,
            1 <= unit <= COORD_LIMIT,
        ensures
            r.wf(),
            r.tree is None,
            r.index_triangles == self.index_triangles,
            r.vertices@.len() == self.vertices@.len(),
            ({
                let ubox = BBox {
                    min: Vector { x: 0, y: 0, z: 0 },
                    max: Vector { x: unit, y: unit, z: unit },
                };
                let s = spec_fit_scale(self.bx, ubox);
                let c3 = spec_fit_c3(self.bx, ubox, Vector { x: 0, y: 0, z: 0 });
                let fv = Seq::new(
                    self.vertices@.len(),
                    |k: int| spec_mul_position(spec_st_mat(s as i64, c3), self.vertices@[k]),
                );
                let fbx = spec_tris_bbox(spec_mesh_tris_seq(fv, self.index_triangles@));
                let ap = spec_anchor(fbx, Vector { x: 32768, y: 32768, z: 32768 });
                forall|k: int|
                    0 <= k < r.vertices@.len() ==> r.vertices@[k] == (Vector {
                        x: ((#[trigger] fv[k]).x - ap.x) as i64,
                        y: (fv[k].y - ap.y) as i64,
                        z: (fv[k].z - ap.z) as i64,
                    })
            }),
            forall|k: int|
                0 <= k < r.vertices@.len() ==> spec_box_contains(
                    BBox {
                        min: Vector { x: (-unit) as i64, y: (-unit) as i64, z: (-unit) as i64 },
                        max: Vector { x: unit, y: unit, z: unit },
                    },
                    #[trigger] r.vertices@[k],
                    0,
                ),
    {
        let ubox = BBox {
            min: Vector { x: 0, y: 0, z: 0 },
            max: Vector { x: unit, y: unit, z: unit },
        };
        let ghost pre = self;
        let fitted = self.fit_inside(ubox, Vector { x: 0, y: 0, z: 0 });
        let ghost s = spec_fit_scale(pre.bx, ubox);
        let ghost c3 = spec_fit_c3(pre.bx, ubox, Vector { x: 0, y: 0, z: 0 });
        let ghost fv = Seq::new(
            pre.vertices@.len(),
            |k: int| spec_mul_position(spec_st_mat(s as i64, c3), pre.vertices@[k]),
        );
        proof {
            assert forall|k: int| 0 <= k < fitted.vertices@.len() implies fitted.vertices@[k]
                == fv[k] && 0 <= (#[trigger] fitted.vertices@[k]).x <= unit && 0
                <= fitted.vertices@[k].y <= unit && 0 <= fitted.vertices@[k].z <= unit by {
                lemma_fit_map_unit(pre.bx, ubox, pre.vertices@[k]);
            }
            assert(spec_mesh_tris(fitted) =~= spec_mesh_tris_seq(fv, fitted.index_triangles@)) by {
                assert forall|i: int|
                    0 <= i < fitted.index_triangles@.len() implies spec_mesh_tris(fitted)[i]
                    == spec_mesh_tris_seq(fv, fitted.index_triangles@)[i] by {
                    assert(fitted.spec_triangle_at(i) == spec_tri_of(
                        fv,
                        fitted.index_triangles@[i],
                    ));
                }
            }
            assert forall|i: int|
                0 <= i < spec_mesh_tris(fitted).len() implies (#[trigger] spec_mesh_tris(
                fitted,
            )[i]).wf() && within(
                spec_mesh_tris(fitted)[i].v1,
                Vector { x: 0, y: 0, z: 0 },
                ubox.max,
            ) && within(spec_mesh_tris(fitted)[i].v2, Vector { x: 0, y: 0, z: 0 }, ubox.max)
                && within(spec_mesh_tris(fitted)[i].v3, Vector { x: 0, y: 0, z: 0 }, ubox.max) by {
                assert(spec_mesh_tris(fitted)[i] == fitted.spec_triangle_at(i));
            }
            lemma_tris_bbox_within(spec_mesh_tris(fitted), Vector { x: 0, y: 0, z: 0 }, ubox.max);
            lemma_anchor_in_box(fitted.bx, Vector { x: 32768, y: 32768, z: 32768 });
        }
        let ghost snap = fitted;
        let r = fitted.move_to(Vector { x: 0, y: 0, z: 0 }, Vector { x: 32768, y: 32768, z: 32768 });
        proof {
            let ap = spec_anchor(snap.bx, Vector { x: 32768, y: 32768, z: 32768 });
            assert(0 <= ap.x <= unit && 0 <= ap.y <= unit && 0 <= ap.z <= unit);
            assert forall|k: int|
                0 <= k < r.vertices@.len() implies spec_box_contains(
                BBox {
                    min: Vector { x: (-unit) as i64, y: (-unit) as i64, z: (-unit) as i64 },
                    max: Vector { x: unit, y: unit, z: unit },
                },
                #[trigger] r.vertices@[k],
                0,
            ) by {
                assert(0 <= snap.vertices@[k].x <= unit && 0 <= snap.vertices@[k].y <= unit && 0
                    <= snap.vertices@[k].z <= unit);
                assert(r.vertices@[k] == (Vector {
                    x: (snap.vertices@[k].x + 0 - ap.x) as i64,
                    y: (snap.vertices@[k].y + 0 - ap.y) as i64,
                    z: (snap.vertices@[k].z + 0 - ap.z) as i64,
                }));
            }
        }
        r
    }
}

/// How many records in `s` lie on the undirected edge `(a, b)`.
pub open spec fn edge_count(s: Seq<EdgeRec>, a: usize, b: usize) -> nat
    decreases s.len(),
{
    if s.len() == 0 {
        0
    } else {
        edge_count(s.drop_last(), a, b) + (if s.last().a == a && s.last().b == b {
            1nat
        } else {
            0nat
        })
    }
}

proof fn lemma_occ_ge_one(s: Seq<EdgeRec>, x: EdgeRec)
    requires
        s.contains(x),
    ensures
        occurrences(s, x) >= 1,
    decreases s.len(),
{
    if s.len() > 0 {
        if s.last() == x {
        } else {
            let i = choose|i: int| 0 <= i < s.len() && s[i] == x;
            assert(i < s.len() - 1);
            assert(s.drop_last()[i] == x);
            assert(s.drop_last().contains(x));
            lemma_occ_ge_one(s.drop_last(), x);
        }
    }
}

proof fn lemma_pair_occ_le_edge_count(s: Seq<EdgeRec>, r1: EdgeRec, r2: EdgeRec)
    requires
        r1 != r2,
        r1.a == r2.a,
        r1.b == r2.b,
    ensures
        occurrences(s, r1) + occurrences(s, r2) <= edge_count(s, r1.a, r1.b),
    decreases s.len(),
{
    if s.len() > 0 {
        lemma_pair_occ_le_edge_count(s.drop_last(), r1, r2);
    }
}

proof fn lemma_all_equal_occ(s: Seq<EdgeRec>, r: EdgeRec)
    requires
        forall|i: int|
            0 <= i < s.len() && (#[trigger] s[i]).a == r.a && s[i].b == r.b ==> s[i] == r,
    ensures
        occurrences(s, r) == edge_count(s, r.a, r.b),
    decreases s.len(),
{
    if s.len() > 0 {
        assert(s[s.len() - 1] == s.last());
        assert forall|i: int|
            0 <= i < s.drop_last().len() && (#[trigger] s.drop_last()[i]).a == r.a
                && s.drop_last()[i].b == r.b implies s.drop_last()[i] == r by {
            assert(s.drop_last()[i] == s[i]);
        }
        lemma_all_equal_occ(s.drop_last(), r);
    }
}

proof fn lemma_keep_once_mem(all: Seq<EdgeRec>, s: Seq<EdgeRec>, x: EdgeRec)
    ensures
        keep_once(all, s).contains(x) <==> (s.contains(x) && occurrences(all, x) == 1),
    decreases s.len(),
{
    if s.len() == 0 {
    } else {
        lemma_keep_once_mem(all, s.drop_last(), x);
        let rest = keep_once(all, s.drop_last());
        let l = s.last();
        assert(s[s.len() - 1] == l);
        if s.drop_last().contains(x) {
            let i = choose|i: int| 0 <= i < s.drop_last().len() && s.drop_last()[i] == x;
            assert(s[i] == x);
            assert(s.contains(x));
        }
        if s.contains(x) && l != x {
            let i = choose|i: int| 0 <= i < s.len() && s[i] == x;
            assert(i < s.len() - 1);
            assert(s.drop_last()[i] == x);
            assert(s.drop_last().contains(x));
        }
        if occurrences(all, l) == 1 {
            assert(keep_once(all, s) == rest.push(l));
            if rest.contains(x) {
                let i = choose|i: int| 0 <= i < rest.len() && rest[i] == x;
                assert(rest.push(l)[i] == x);
                assert(rest.push(l).contains(x));
            }
            assert(rest.push(l)[rest.len() as int] == l);
            if rest.push(l).contains(x) && l != x {
                let i = choose|i: int| 0 <= i < rest.push(l).len() && rest.push(l)[i] == x;
                assert(i < rest.len());
                assert(rest[i] == x);
                assert(rest.contains(x));
            }
        } else {
            assert(keep_once(all, s) == rest);
        }
    }
}

proof fn lemma_edge_lines_len(m: Mesh, s: Seq<EdgeRec>)
    ensures
        edge_lines(m, s).len() == s.len(),
    decreases s.len(),
{
    if s.len() > 0 {
        lemma_edge_lines_len(m, s.drop_last());
    }
}

proof fn lemma_edge_lines_elem(m: Mesh, s: Seq<EdgeRec>, k: int)
    requires
        0 <= k < s.len(),
    ensures
        edge_lines(m, s).len() == s.len(),
        edge_lines(m, s)[k] == seq![
            m.vertices@[s[k].a as int],
            m.vertices@[s[k].b as int],
        ],
    decreases s.len(),
{
    lemma_edge_lines_len(m, s);
    lemma_edge_lines_len(m, s.drop_last());
    if k == s.len() - 1 {
        assert(s[k] == s.last());
    } else {
        lemma_edge_lines_elem(m, s.drop_last(), k);
        assert(s.drop_last()[k] == s[k]);
    }
}

/// The silhouette law for a two-sided edge. Let an edge `(a, b)` of the mesh
/// be covered by exactly two incidence records `r1` and `r2` (two faces, or
/// one face counted twice). Then the mesh's paths contain the polyline of
/// that edge exactly when the two canonical normals differ: an edge between
/// faces of one plane disappears, an edge between differently oriented faces
/// is drawn.
pub proof fn lemma_silhouette_edge(m: Mesh, r1: EdgeRec, r2: EdgeRec)
    requires
        m.wf(),
        forall|j: int, k: int|
            0 <= j < k < m.vertices@.len() ==> m.vertices@[j] != m.vertices@[k],
        r1.a == r2.a,
        r1.b == r2.b,
        r1.a < m.vertices@.len(),
        r1.b < m.vertices@.len(),
        r1.a != r1.b,
        ({
            let all = spec_incidences(m, m.index_triangles@.len() as int);
            &&& all.contains(r1)
            &&& all.contains(r2)
            &&& edge_count(all, r1.a, r1.b) == 2
            &&& forall|i: int|
                0 <= i < all.len() && (#[trigger] all[i]).a == r1.a && all[i].b == r1.b
                    ==> all[i] == r1 || all[i] == r2
        }),
    ensures
        spec_mesh_paths(m).contains(
            seq![m.vertices@[r1.a as int], m.vertices@[r1.b as int]],
        ) <==> r1.n != r2.n,
{
    let all = spec_incidences(m, m.index_triangles@.len() as int);
    let kept = keep_once(all, all);
    let pl = seq![m.vertices@[r1.a as int], m.vertices@[r1.b as int]];
    lemma_edge_lines_len(m, kept);
    if r1.n != r2.n {
        assert(r1 != r2);
        lemma_pair_occ_le_edge_count(all, r1, r2);
        lemma_occ_ge_one(all, r1);
        lemma_occ_ge_one(all, r2);
        assert(occurrences(all, r1) == 1);
        lemma_keep_once_mem(all, all, r1);
        assert(kept.contains(r1));
        let k = choose|k: int| 0 <= k < kept.len() && kept[k] == r1;
        lemma_edge_lines_elem(m, kept, k);
        assert(edge_lines(m, kept)[k] == pl);
        assert(spec_mesh_paths(m).contains(pl));
    } else {
        assert(r1 == r2);
        lemma_all_equal_occ(all, r1);
        assert(occurrences(all, r1) == 2);
        assert forall|k: int| 0 <= k < kept.len() implies edge_lines(m, kept)[k] != pl by {
            lemma_edge_lines_elem(m, kept, k);
            if edge_lines(m, kept)[k] == pl {
                let e = kept[k];
                assert(m.vertices@[e.a as int] == m.vertices@[r1.a as int]);
                assert(m.vertices@[e.b as int] == m.vertices@[r1.b as int]);
                lemma_keep_once_mem(all, all, e);
                assert(kept[k] == e);
                assert(kept.contains(e));
                assert(e.a < m.vertices@.len() && e.b < m.vertices@.len()) by {
                    lemma_keep_once_elem(all, all, k);
                    let j = choose|j: int| 0 <= j < all.len() && all[j] == e;
                    lemma_incidence_bounds(m, m.index_triangles@.len() as int, j);
                }
                assert(e.a == r1.a) by {
                    if e.a < r1.a {
                        assert(m.vertices@[e.a as int] != m.vertices@[r1.a as int]);
                    }
                    if r1.a < e.a {
                        assert(m.vertices@[r1.a as int] != m.vertices@[e.a as int]);
                    }
                }
                assert(e.b == r1.b) by {
                    if e.b < r1.b {
                        assert(m.vertices@[e.b as int] != m.vertices@[r1.b as int]);
                    }
                    if r1.b < e.b {
                        assert(m.vertices@[r1.b as int] != m.vertices@[e.b as int]);
                    }
                }
                let j = choose|j: int| 0 <= j < all.len() && all[j] == e;
                assert(e == r1);
                assert(occurrences(all, e) == 1);
                assert(false);
            }
        }
        if spec_mesh_paths(m).contains(pl) {
            let k = choose|k: int| 0 <= k < spec_mesh_paths(m).len() && spec_mesh_paths(m)[k] == pl;
            assert(false);
        }
    }
}

/// Every incidence record points into the vertex list.
proof fn lemma_incidence_bounds(m: Mesh, n: int, j: int)
    requires
        m.wf(),
        0 <= n <= m.index_triangles@.len(),
        0 <= j < spec_incidences(m, n).len(),
    ensures
        spec_incidences(m, n)[j].a < m.vertices@.len(),
        spec_incidences(m, n)[j].b < m.vertices@.len(),
    decreases n,
{
    if n > 0 {
        let prev = spec_incidences(m, n - 1);
        if j < prev.len() {
            lemma_incidence_bounds(m, n - 1, j);
        } else {
            assert(spec_incidences(m, n)[j] == spec_tri_recs(m, n - 1)[j - prev.len()]);
        }
    }
}


/// The triangle that an index triple denotes over an explicit vertex list.
pub open spec fn spec_tri_of(vs: Seq<Vector>, it: IndexTriangle) -> Triangle {
    let p1 = vs[it.v1 as int];
    let p2 = vs[it.v2 as int];
    let p3 = vs[it.v3 as int];
    Triangle {
        v1: p1,
        v2: p2,
        v3: p3,
        bx: BBox { min: p1.spec_min3(p2).spec_min3(p3), max: p1.spec_max3(p2).spec_max3(p3) },
    }
}

/// The triangles of an explicit vertex list and index list.
pub open spec fn spec_mesh_tris_seq(vs: Seq<Vector>, its: Seq<IndexTriangle>) -> Seq<Triangle> {
    Seq::new(its.len(), |i: int| spec_tri_of(vs, its[i]))
}

/// The fit scale is nonnegative, bounded, and at most each per-axis ratio of
/// the axes with positive source extent.
pub proof fn lemma_fit_scale_bounds(sb: BBox, tb: BBox)
    requires
        in_range(sb.min, COORD_LIMIT as int),
        in_range(sb.max, COORD_LIMIT as int),
        in_range(tb.min, COORD_LIMIT as int),
        in_range(tb.max, COORD_LIMIT as int),
        sb.min.x <= sb.max.x && sb.min.y <= sb.max.y && sb.min.z <= sb.max.z,
        tb.min.x <= tb.max.x && tb.min.y <= tb.max.y && tb.min.z <= tb.max.z,
        sb.max.x > sb.min.x || sb.max.y > sb.min.y || sb.max.z > sb.min.z,
    ensures
        0 <= spec_fit_scale(sb, tb) <= 68719476736,
        sb.max.x > sb.min.x ==> spec_fit_scale(sb, tb) <= spec_tdiv(
            (tb.max.x - tb.min.x) * 65536,
            sb.max.x - sb.min.x,
        ),
        sb.max.y > sb.min.y ==> spec_fit_scale(sb, tb) <= spec_tdiv(
            (tb.max.y - tb.min.y) * 65536,
            sb.max.y - sb.min.y,
        ),
        sb.max.z > sb.min.z ==> spec_fit_scale(sb, tb) <= spec_tdiv(
            (tb.max.z - tb.min.z) * 65536,
            sb.max.z - sb.min.z,
        ),
{
    lemma_fit_cand_bounds(tb.max.x - tb.min.x, sb.max.x - sb.min.x);
    lemma_fit_cand_bounds(tb.max.y - tb.min.y, sb.max.y - sb.min.y);
    lemma_fit_cand_bounds(tb.max.z - tb.min.z, sb.max.z - sb.min.z);
}

/// One candidate ratio is nonnegative and at most the scaled target extent.
proof fn lemma_fit_cand_bounds(bs: int, ss: int)
    requires
        0 <= bs <= 1048576,
    ensures
        ss > 0 ==> 0 <= spec_tdiv(bs * 65536, ss) <= 68719476736,
{
    if ss > 0 {
        let p = bs * 65536;
        vstd::arithmetic::div_mod::lemma_div_pos_is_pos(p, ss);
        vstd::arithmetic::div_mod::lemma_div_is_ordered_by_denominator(p, 1, ss);
        vstd::arithmetic::div_mod::lemma_div_by_multiple(p, 1);
    }
}

/// One axis of the unit fit: a scale below the axis ratio keeps the scaled
/// offset from the source corner within the target extent.
proof fn lemma_fit_axis_unit(s: int, mnc: int, mxc: int, tmaxc: int, vc: int)
    requires
        0 <= s <= 68719476736,
        -524288 <= mnc <= 524288,
        -524288 <= mxc <= 524288,
        mnc <= mxc,
        0 <= tmaxc <= 524288,
        mnc <= vc <= mxc,
        mxc > mnc ==> s <= spec_tdiv(tmaxc * 65536, mxc - mnc),
    ensures
        0 <= spec_tdiv(s * vc + s * (-mnc), 65536) <= tmaxc,
{
    assert(s * vc + s * (-mnc) == s * (vc - mnc)) by (nonlinear_arith);
    let a = s * (vc - mnc);
    vstd::arithmetic::mul::lemma_mul_nonnegative(s, vc - mnc);
    if mxc > mnc {
        let ss = mxc - mnc;
        let p = tmaxc * 65536;
        let cx = spec_tdiv(p, ss);
        vstd::arithmetic::div_mod::lemma_div_pos_is_pos(p, ss);
        vstd::arithmetic::mul::lemma_mul_inequality(s, cx, vc - mnc);
        vstd::arithmetic::mul::lemma_mul_is_commutative(s, vc - mnc);
        vstd::arithmetic::mul::lemma_mul_is_commutative(cx, vc - mnc);
        vstd::arithmetic::mul::lemma_mul_inequality(vc - mnc, ss, cx);
        vstd::arithmetic::mul::lemma_mul_is_commutative(ss, cx);
        vstd::arithmetic::div_mod::lemma_fundamental_div_mod(p, ss);
        vstd::arithmetic::div_mod::lemma_mod_division_less_than_divisor(p, ss);
        assert(ss * cx <= p);
        assert(a <= p);
        crate::matrix::lemma_tdiv_bound_gen(a, tmaxc, 65536);
        vstd::arithmetic::div_mod::lemma_div_pos_is_pos(a, 65536);
    } else {
        assert(vc == mnc);
        assert(a == 0) by (nonlinear_arith)
            requires
                a == s * (vc - mnc),
                vc - mnc == 0,
        ;
        vstd::arithmetic::div_mod::lemma_div_multiples_vanish(0, 65536);
    }
}

/// Fitting into a target box cornered at the origin, with a zero anchor,
/// lands every contained point inside the target box.
pub proof fn lemma_fit_map_unit(sb: BBox, tb: BBox, v: Vector)
    requires
        in_range(sb.min, COORD_LIMIT as int),
        in_range(sb.max, COORD_LIMIT as int),
        in_range(tb.max, COORD_LIMIT as int),
        tb.min == (Vector { x: 0, y: 0, z: 0 }),
        0 <= tb.max.x && 0 <= tb.max.y && 0 <= tb.max.z,
        sb.min.x <= sb.max.x && sb.min.y <= sb.max.y && sb.min.z <= sb.max.z,
        sb.max.x > sb.min.x || sb.max.y > sb.min.y || sb.max.z > sb.min.z,
        crate::bbox::spec_box_contains(sb, v, 0),
        in_range(v, COORD_LIMIT as int),
    ensures
        ({
            let s = spec_fit_scale(sb, tb);
            let c3 = spec_fit_c3(sb, tb, Vector { x: 0, y: 0, z: 0 });
            let w = spec_mul_position(spec_st_mat(s as i64, c3), v);
            &&& 0 <= w.x <= tb.max.x
            &&& 0 <= w.y <= tb.max.y
            &&& 0 <= w.z <= tb.max.z
        }),
{
    let zerov = Vector { x: 0, y: 0, z: 0 };
    let s = spec_fit_scale(sb, tb);
    lemma_fit_scale_bounds(sb, tb);
    let e = spec_fit_extra(sb, tb, s);
    assert(e.0 * zerov.x == 0 && e.1 * zerov.y == 0 && e.2 * zerov.z == 0) by (nonlinear_arith)
        requires
            zerov.x == 0 && zerov.y == 0 && zerov.z == 0,
    ;
    vstd::arithmetic::div_mod::lemma_div_multiples_vanish(0, 65536);
    let t2 = spec_fit_t2(sb, tb, zerov, s);
    assert(t2.0 == 0 && t2.1 == 0 && t2.2 == 0);
    let c3 = spec_fit_c3(sb, tb, zerov);
    lemma_mul_bounds(s, -sb.min.x as int, 68719476736, 524288);
    lemma_mul_bounds(s, -sb.min.y as int, 68719476736, 524288);
    lemma_mul_bounds(s, -sb.min.z as int, 68719476736, 524288);
    assert(c3.x as int == s * (-sb.min.x) && c3.y as int == s * (-sb.min.y) && c3.z as int == s * (
    -sb.min.z));
    lemma_st_apply(s as i64, c3, v);
    let w = spec_mul_position(spec_st_mat(s as i64, c3), v);
    assert(w.x as int == spec_tdiv(s * v.x + s * (-sb.min.x), 65536)) by {
        assert((s as i64) as int * v.x == s * v.x) by (nonlinear_arith)
            requires
                (s as i64) as int == s,
        ;
    }
    assert(w.y as int == spec_tdiv(s * v.y + s * (-sb.min.y), 65536)) by {
        assert((s as i64) as int * v.y == s * v.y) by (nonlinear_arith)
            requires
                (s as i64) as int == s,
        ;
    }
    assert(w.z as int == spec_tdiv(s * v.z + s * (-sb.min.z), 65536)) by {
        assert((s as i64) as int * v.z == s * v.z) by (nonlinear_arith)
            requires
                (s as i64) as int == s,
        ;
    }
    lemma_fit_axis_unit(s, sb.min.x as int, sb.max.x as int, tb.max.x as int, v.x as int);
    lemma_fit_axis_unit(s, sb.min.y as int, sb.max.y as int, tb.max.y as int, v.y as int);
    lemma_fit_axis_unit(s, sb.min.z as int, sb.max.z as int, tb.max.z as int, v.z as int);
}

/// Triangles whose corners all lie within a box fold to a bounding box
/// within that box, with ordered corners; the box must cover the zero box so
/// that an empty run folds inside it too.
pub proof fn lemma_tris_bbox_within(ts: Seq<Triangle>, lo: Vector, hi: Vector)
    requires
        lo.x <= 0 <= hi.x && lo.y <= 0 <= hi.y && lo.z <= 0 <= hi.z,
        forall|i: int|
            0 <= i < ts.len() ==> (#[trigger] ts[i]).wf() && within(ts[i].v1, lo, hi) && within(
                ts[i].v2,
                lo,
                hi,
            ) && within(ts[i].v3, lo, hi),
    ensures
        within(spec_tris_bbox(ts).min, lo, hi),
        within(spec_tris_bbox(ts).max, lo, hi),
        spec_tris_bbox(ts).min.x <= spec_tris_bbox(ts).max.x,
        spec_tris_bbox(ts).min.y <= spec_tris_bbox(ts).max.y,
        spec_tris_bbox(ts).min.z <= spec_tris_bbox(ts).max.z,
{
    if ts.len() > 0 {
        lemma_tris_bbox_within_from(ts, ts[0].bx, 1, lo, hi);
    }
}

/// All three coordinates lie between the corresponding bounds.
pub open spec fn within(v: Vector, lo: Vector, hi: Vector) -> bool {
    lo.x <= v.x <= hi.x && lo.y <= v.y <= hi.y && lo.z <= v.z <= hi.z
}

proof fn lemma_tris_bbox_within_from(ts: Seq<Triangle>, acc: BBox, i: int, lo: Vector, hi: Vector)
    requires
        0 <= i <= ts.len(),
        forall|j: int|
            0 <= j < ts.len() ==> (#[trigger] ts[j]).wf() && within(ts[j].v1, lo, hi) && within(
                ts[j].v2,
                lo,
                hi,
            ) && within(ts[j].v3, lo, hi),
        within(acc.min, lo, hi),
        within(acc.max, lo, hi),
        acc.min.x <= acc.max.x && acc.min.y <= acc.max.y && acc.min.z <= acc.max.z,
    ensures
        within(spec_tris_bbox_from(ts, acc, i).min, lo, hi),
        within(spec_tris_bbox_from(ts, acc, i).max, lo, hi),
        spec_tris_bbox_from(ts, acc, i).min.x <= spec_tris_bbox_from(ts, acc, i).max.x,
        spec_tris_bbox_from(ts, acc, i).min.y <= spec_tris_bbox_from(ts, acc, i).max.y,
        spec_tris_bbox_from(ts, acc, i).min.z <= spec_tris_bbox_from(ts, acc, i).max.z,
    decreases ts.len() - i,
{
    if i < ts.len() {
        lemma_tris_bbox_within_from(
            ts,
            BBox { min: acc.min.spec_min3(ts[i].bx.min), max: acc.max.spec_max3(ts[i].bx.max) },
            i + 1,
            lo,
            hi,
        );
    }
}

/// The fold of triangle boxes contains every corner of every triangle.
pub proof fn lemma_tris_bbox_contains(ts: Seq<Triangle>, i: int)
    requires
        0 <= i < ts.len(),
        forall|j: int| 0 <= j < ts.len() ==> (#[trigger] ts[j]).wf(),
    ensures
        crate::bbox::spec_box_contains(spec_tris_bbox(ts), ts[i].v1, 0),
        crate::bbox::spec_box_contains(spec_tris_bbox(ts), ts[i].v2, 0),
        crate::bbox::spec_box_contains(spec_tris_bbox(ts), ts[i].v3, 0),
{
    if i == 0 {
        lemma_tris_bbox_grows(ts, ts[0].bx, 1);
    } else {
        lemma_tris_bbox_contains_from(ts, ts[0].bx, 1, i);
    }
}

proof fn lemma_tris_bbox_grows(ts: Seq<Triangle>, acc: BBox, i: int)
    requires
        0 <= i <= ts.len(),
    ensures
        crate::bbox::spec_box_inside(acc, spec_tris_bbox_from(ts, acc, i)),
    decreases ts.len() - i,
{
    if i < ts.len() {
        lemma_tris_bbox_grows(
            ts,
            BBox { min: acc.min.spec_min3(ts[i].bx.min), max: acc.max.spec_max3(ts[i].bx.max) },
            i + 1,
        );
    }
}

proof fn lemma_tris_bbox_contains_from(ts: Seq<Triangle>, acc: BBox, i: int, j: int)
    requires
        0 <= i <= j < ts.len(),
        ts[j].wf(),
    ensures
        crate::bbox::spec_box_contains(spec_tris_bbox_from(ts, acc, i), ts[j].v1, 0),
        crate::bbox::spec_box_contains(spec_tris_bbox_from(ts, acc, i), ts[j].v2, 0),
        crate::bbox::spec_box_contains(spec_tris_bbox_from(ts, acc, i), ts[j].v3, 0),
    decreases ts.len() - i,
{
    let step = BBox { min: acc.min.spec_min3(ts[i].bx.min), max: acc.max.spec_max3(ts[i].bx.max) };
    if j == i {
        lemma_tris_bbox_grows(ts, step, i + 1);
    } else {
        lemma_tris_bbox_contains_from(ts, step, i + 1, j);
    }
}

/// The closest hit of the ray over the first `k` triangles.
pub open spec fn spec_tris_intersect(ts: Seq<Triangle>, r: Ray, k: int) -> Hit
    decreases k,
{
    if k <= 0 {
        Hit::Miss
    } else {
        spec_hit_min(
            spec_tris_intersect(ts, r, k - 1),
            spec_triangle_intersect(ts[k - 1].v1, ts[k - 1].v2, ts[k - 1].v3, r),
        )
    }
}

/// A triangle hit within coordinate range carries a well-formed fraction.
proof fn lemma_tri_hit_wf(v1: Vector, v2: Vector, v3: Vector, r: Ray)
    requires
        in_range(v1, COORD_LIMIT as int),
        in_range(v2, COORD_LIMIT as int),
        in_range(v3, COORD_LIMIT as int),
        in_range(r.origin, COORD_LIMIT as int),
        in_range(r.direction, COORD_LIMIT as int),
    ensures
        spec_triangle_intersect(v1, v2, v3, r) is At ==> spec_triangle_intersect(
            v1,
            v2,
            v3,
            r,
        )->0.wf(),
{
    let e1 = tsub(t3(v2), t3(v1));
    let e2 = tsub(t3(v3), t3(v1));
    let tv = tsub(t3(r.origin), t3(v1));
    let d = t3(r.direction);
    let p = tcross(d, e2);
    lemma_mul_bounds(d.1, e2.2, 524288, 1048576);
    lemma_mul_bounds(d.2, e2.1, 524288, 1048576);
    lemma_mul_bounds(d.2, e2.0, 524288, 1048576);
    lemma_mul_bounds(d.0, e2.2, 524288, 1048576);
    lemma_mul_bounds(d.0, e2.1, 524288, 1048576);
    lemma_mul_bounds(d.1, e2.0, 524288, 1048576);
    let det = crate::triangle::tdot(e1, p);
    lemma_mul_bounds(e1.0, p.0, 1048576, 1099511627776);
    lemma_mul_bounds(e1.1, p.1, 1048576, 1099511627776);
    lemma_mul_bounds(e1.2, p.2, 1048576, 1099511627776);
    let q = tcross(tv, e1);
    lemma_mul_bounds(tv.1, e1.2, 1048576, 1048576);
    lemma_mul_bounds(tv.2, e1.1, 1048576, 1048576);
    lemma_mul_bounds(tv.2, e1.0, 1048576, 1048576);
    lemma_mul_bounds(tv.0, e1.2, 1048576, 1048576);
    lemma_mul_bounds(tv.0, e1.1, 1048576, 1048576);
    lemma_mul_bounds(tv.1, e1.0, 1048576, 1048576);
    let dn = crate::triangle::tdot(e2, q);
    lemma_mul_bounds(e2.0, q.0, 1048576, 2199023255552);
    lemma_mul_bounds(e2.1, q.1, 1048576, 2199023255552);
    lemma_mul_bounds(e2.2, q.2, 1048576, 2199023255552);
}

/// The fold of hits is well-formed within coordinate range.
proof fn lemma_tris_intersect_wf(ts: Seq<Triangle>, r: Ray, k: int)
    requires
        0 <= k <= ts.len(),
        forall|i: int|
            0 <= i < ts.len() ==> in_range((#[trigger] ts[i]).v1, COORD_LIMIT as int) && in_range(
                ts[i].v2,
                COORD_LIMIT as int,
            ) && in_range(ts[i].v3, COORD_LIMIT as int),
        in_range(r.origin, COORD_LIMIT as int),
        in_range(r.direction, COORD_LIMIT as int),
    ensures
        spec_tris_intersect(ts, r, k).wf(),
    decreases k,
{
    if k > 0 {
        lemma_tris_intersect_wf(ts, r, k - 1);
        lemma_tri_hit_wf(ts[k - 1].v1, ts[k - 1].v2, ts[k - 1].v3, r);
    }
}

/// The closest hit wins: whenever one of the first `k` triangles reports a
/// hit, the folded hit of the mesh is a hit no farther than it.
pub proof fn lemma_mesh_closest_hit(ts: Seq<Triangle>, r: Ray, k: int, j: int)
    requires
        0 <= j < k <= ts.len(),
        forall|i: int|
            0 <= i < ts.len() ==> in_range((#[trigger] ts[i]).v1, COORD_LIMIT as int) && in_range(
                ts[i].v2,
                COORD_LIMIT as int,
            ) && in_range(ts[i].v3, COORD_LIMIT as int),
        in_range(r.origin, COORD_LIMIT as int),
        in_range(r.direction, COORD_LIMIT as int),
        spec_triangle_intersect(ts[j].v1, ts[j].v2, ts[j].v3, r) is At,
    ensures
        spec_tris_intersect(ts, r, k) is At,
        crate::rat::rat_le(
            spec_tris_intersect(ts, r, k)->0,
            spec_triangle_intersect(ts[j].v1, ts[j].v2, ts[j].v3, r)->0,
        ),
    decreases k,
{
    let tj = spec_triangle_intersect(ts[j].v1, ts[j].v2, ts[j].v3, r)->0;
    let hk = spec_triangle_intersect(ts[k - 1].v1, ts[k - 1].v2, ts[k - 1].v3, r);
    lemma_tri_hit_wf(ts[k - 1].v1, ts[k - 1].v2, ts[k - 1].v3, r);
    lemma_tri_hit_wf(ts[j].v1, ts[j].v2, ts[j].v3, r);
    lemma_tris_intersect_wf(ts, r, k - 1);
    if j == k - 1 {
        let prev = spec_tris_intersect(ts, r, k - 1);
        match prev {
            Hit::Miss => {
                assert(crate::rat::rat_le(tj, tj));
            },
            Hit::At(u) => {
                if crate::rat::rat_le(u, tj) {
                } else {
                    crate::rat::lemma_rat_le_total(u, tj);
                    assert(crate::rat::rat_le(tj, tj));
                }
            },
        }
    } else {
        lemma_mesh_closest_hit(ts, r, k - 1, j);
        let u = spec_tris_intersect(ts, r, k - 1)->0;
        match hk {
            Hit::Miss => {
            },
            Hit::At(t) => {
                if crate::rat::rat_le(u, t) {
                } else {
                    crate::rat::lemma_rat_le_total(u, t);
                    crate::rat::lemma_rat_le_trans(t, u, tj);
                }
            },
        }
    }
}

} // verus!
