//! Infinite planes and plane-mesh sections.

use vstd::prelude::*;
use crate::math::lemma_mul_bounds;
use crate::matrix::{lemma_tdiv_bound_gen, spec_tdiv, tdiv};
use crate::mesh::Mesh;
use crate::path::{Path, Paths, paths_view};
use crate::triangle::{t3, tdot, tsub};
use crate::vector::{Vector, in_range};
use crate::COORD_LIMIT;

verus! {

/// An infinite plane given by a point on it and a normal direction.
#[derive(Clone, Copy, Debug, PartialEq, Eq, Structural)]
pub struct Plane {
    pub point: Vector,
    pub normal: Vector,
}

/// The signed side of `v` with respect to the plane: the dot product of the
/// normal with the offset from the plane's point.
pub open spec fn spec_plane_side(pl: Plane, v: Vector) -> int {
    tdot(t3(pl.normal), tsub(t3(v), t3(pl.point)))
}

/// The crossing point of the edge from `u` (side `du > 0`) to `v` (side
/// `dv < 0`): `u + (v - u) * du / (du - dv)`, each axis truncating toward
/// zero.
pub open spec fn spec_cross_point(u: Vector, v: Vector, du: int, dv: int) -> Vector {
    Vector {
        x: (u.x + spec_tdiv((v.x - u.x) * du, du - dv)) as i64,
        y: (u.y + spec_tdiv((v.y - u.y) * du, du - dv)) as i64,
        z: (u.z + spec_tdiv((v.z - u.z) * du, du - dv)) as i64,
    }
}

/// Where the edge `(a, b)` crosses the plane strictly, oriented from the
/// positive side; an edge touching or alongside the plane does not cross.
pub open spec fn spec_edge_cross(pl: Plane, a: Vector, b: Vector) -> Option<Vector> {
    let da = spec_plane_side(pl, a);
    let db = spec_plane_side(pl, b);
    if da > 0 && db < 0 {
        Option::Some(spec_cross_point(a, b, da, db))
    } else if db > 0 && da < 0 {
        Option::Some(spec_cross_point(b, a, db, da))
    } else {
        Option::None
    }
}

/// The section polyline of one triangle: the segment between two edge
/// crossings, when exactly the generic two exist.
pub open spec fn spec_tri_section(pl: Plane, a: Vector, b: Vector, c: Vector) -> Seq<Seq<Vector>> {
    let e1 = spec_edge_cross(pl, a, b);
    let e2 = spec_edge_cross(pl, b, c);
    let e3 = spec_edge_cross(pl, c, a);
    if e1 is Some && e2 is Some {
        seq![seq![e1->0, e2->0]]
    } else if e1 is Some && e3 is Some {
        seq![seq![e1->0, e3->0]]
    } else if e2 is Some && e3 is Some {
        seq![seq![e2->0, e3->0]]
    } else {
        Seq::empty()
    }
}

/// The sections of the first `k` triangles of the mesh, in order.
pub open spec fn spec_plane_mesh(pl: Plane, m: Mesh, k: int) -> Seq<Seq<Vector>>
    decreases k,
{
    if k <= 0 {
        Seq::empty()
    } else {
        let t = m.spec_triangle_at(k - 1);
        spec_plane_mesh(pl, m, k - 1) + spec_tri_section(pl, t.v1, t.v2, t.v3)
    }
}

impl Plane {
    pub fn new(point: Vector, normal: Vector) -> (r: Plane)
        ensures
            r == (Plane { point, normal }),
    {
        Plane { point, normal }
    }

    fn side(&self, v: Vector) -> (r: i128)
        requires
            in_range(self.point, COORD_LIMIT as int),
            in_range(self.normal, COORD_LIMIT as int),
            in_range(v, COORD_LIMIT as int),
        ensures
            r == spec_plane_side(*self, v),
            -1_649_267_441_664 <= r <= 1_649_267_441_664,
    {
        let ox = v.x as i128 - self.point.x as i128;
        let oy = v.y as i128 - self.point.y as i128;
        let oz = v.z as i128 - self.point.z as i128;
        proof {
            lemma_mul_bounds(self.normal.x as int, ox as int, 524288, 1048576);
            lemma_mul_bounds(self.normal.y as int, oy as int, 524288, 1048576);
            lemma_mul_bounds(self.normal.z as int, oz as int, 524288, 1048576);
        }
        (self.normal.x as i128) * ox + (self.normal.y as i128) * oy + (self.normal.z as i128) * oz
    }

    fn cross_point(u: Vector, v: Vector, du: i128, dv: i128) -> (r: Vector)
        requires
            in_range(u, COORD_LIMIT as int),
            in_range(v, COORD_LIMIT as int),
            0 < du <= 1_649_267_441_664,
            -1_649_267_441_664 <= dv < 0,
        ensures
            r == spec_cross_point(u, v, du as int, dv as int),
    {
        let den = du - dv;
        proof {
            lemma_mul_bounds((v.x - u.x) as int, du as int, 1048576, 1_649_267_441_664);
            lemma_mul_bounds((v.y - u.y) as int, du as int, 1048576, 1_649_267_441_664);
            lemma_mul_bounds((v.z - u.z) as int, du as int, 1048576, 1_649_267_441_664);
            lemma_cross_coord_bound((v.x - u.x) as int, du as int, den as int);
            lemma_cross_coord_bound((v.y - u.y) as int, du as int, den as int);
            lemma_cross_coord_bound((v.z - u.z) as int, du as int, den as int);
        }
        Vector {
            x: u.x + (tdiv(((v.x - u.x) as i128) * du, den) as i64),
            y: u.y + (tdiv(((v.y - u.y) as i128) * du, den) as i64),
            z: u.z + (tdiv(((v.z - u.z) as i128) * du, den) as i64),
        }
    }

    fn edge_cross(&self, a: Vector, b: Vector) -> (r: Option<Vector>)
        requires
            in_range(self.point, COORD_LIMIT as int),
            in_range(self.normal, COORD_LIMIT as int),
            in_range(a, COORD_LIMIT as int),
            in_range(b, COORD_LIMIT as int),
        ensures
            r == spec_edge_cross(*self, a, b),
    {
        let da = self.side(a);
        let db = self.side(b);
        if da > 0 && db < 0 {
            Some(Self::cross_point(a, b, da, db))
        } else if db > 0 && da < 0 {
            Some(Self::cross_point(b, a, db, da))
        } else {
            None
        }
    }

    /// The polylines where the plane cuts the mesh's triangles: one segment
    /// for every triangle that the plane crosses through two of its edges.
    pub fn intersect_mesh(&self, m: &Mesh) -> (r: Paths)
        requires
            m.wf(),
            m.vertices_in_range(),
            in_range(self.point, COORD_LIMIT as int),
            in_range(self.normal, COORD_LIMIT as int),
        ensures
            paths_view(r) == spec_plane_mesh(*self, *m, m.index_triangles@.len() as int),
    {
        let mut out: Vec<Path> = Vec::new();
        let mut i: usize = 0;
        while i < m.index_triangles.len()
            invariant
                m.wf(),
                m.vertices_in_range(),
                in_range(self.point, COORD_LIMIT as int),
                in_range(self.normal, COORD_LIMIT as int),
                i <= m.index_triangles@.len(),
                out@.map_values(|q: Path| q@) == spec_plane_mesh(*self, *m, i as int),
            decreases m.index_triangles@.len() - i,
        {
            let ghost before = out@.map_values(|q: Path| q@);
            let it = &m.index_triangles[i];
            let a = m.vertices[it.v1];
            let b = m.vertices[it.v2];
            let c = m.vertices[it.v3];
            let e1 = self.edge_cross(a, b);
            let e2 = self.edge_cross(b, c);
            let e3 = self.edge_cross(c, a);
            match (e1, e2, e3) {
                (Some(p), Some(q), _) => {
                    let seg: Path = vec![p, q];
                    out.push(seg);
                },
                (Some(p), None, Some(q)) => {
                    let seg: Path = vec![p, q];
                    out.push(seg);
                },
                (None, Some(p), Some(q)) => {
                    let seg: Path = vec![p, q];
                    out.push(seg);
                },
                _ => {},
            }
            proof {
                let t = m.spec_triangle_at(i as int);
                assert(out@.map_values(|q: Path| q@) =~= before + spec_tri_section(
                    *self,
                    t.v1,
                    t.v2,
                    t.v3,
                ));
            }
            i += 1;
        }
        Paths::from_vec(out)
    }
}

proof fn lemma_cross_coord_bound(c: int, du: int, den: int)
    requires
        -1048576 <= c <= 1048576,
        0 < du < den,
    ensures
        -1048576 <= spec_tdiv(c * du, den) <= 1048576,
{
    assert(-(1048576 * den) <= c * du <= 1048576 * den) by (nonlinear_arith)
        requires
            -1048576 <= c <= 1048576,
            0 < du < den,
    ;
    lemma_tdiv_bound_gen(c * du, 1048576, den);
}

/// Slicing with the level plane through height `z` keeps every emitted
/// vertex exactly at that height: the crossing formula cancels along the
/// normal axis, with no rounding.
pub proof fn lemma_level_slice_exact(pl: Plane, m: Mesh, k: int, j: int, t: int)
    requires
        m.wf(),
        pl.normal == (Vector { x: 0, y: 0, z: 1 }),
        0 <= k <= m.index_triangles@.len(),
        0 <= j < spec_plane_mesh(pl, m, k).len(),
        0 <= t < spec_plane_mesh(pl, m, k)[j].len(),
    ensures
        spec_plane_mesh(pl, m, k)[j][t].z == pl.point.z,
    decreases k,
{
    if k > 0 {
        let prev = spec_plane_mesh(pl, m, k - 1);
        if j < prev.len() {
            lemma_level_slice_exact(pl, m, k - 1, j, t);
        } else {
            let tr = m.spec_triangle_at(k - 1);
            lemma_level_section_exact(pl, tr.v1, tr.v2, tr.v3);
            assert(spec_plane_mesh(pl, m, k)[j] == spec_tri_section(pl, tr.v1, tr.v2, tr.v3)[j
                - prev.len()]);
        }
    }
}

proof fn lemma_level_section_exact(pl: Plane, a: Vector, b: Vector, c: Vector)
    requires
        pl.normal == (Vector { x: 0, y: 0, z: 1 }),
    ensures
        forall|j: int, t: int|
            0 <= j < spec_tri_section(pl, a, b, c).len() && 0 <= t < spec_tri_section(
                pl,
                a,
                b,
                c,
            )[j].len() ==> spec_tri_section(pl, a, b, c)[j][t].z == pl.point.z,
{
    lemma_level_cross_exact(pl, a, b);
    lemma_level_cross_exact(pl, b, c);
    lemma_level_cross_exact(pl, c, a);
}

proof fn lemma_level_cross_exact(pl: Plane, a: Vector, b: Vector)
    requires
        pl.normal == (Vector { x: 0, y: 0, z: 1 }),
    ensures
        spec_edge_cross(pl, a, b) is Some ==> spec_edge_cross(pl, a, b)->0.z == pl.point.z,
{
    let da = spec_plane_side(pl, a);
    let db = spec_plane_side(pl, b);
    assert(da == a.z - pl.point.z) by {
        assert(spec_plane_side(pl, a) == 0 * (a.x - pl.point.x) + 0 * (a.y - pl.point.y) + 1 * (
        a.z - pl.point.z));
    }
    assert(db == b.z - pl.point.z);
    if da > 0 && db < 0 {
        assert((b.z - a.z) * da == (-da) * (da - db)) by (nonlinear_arith)
            requires
                da == a.z - pl.point.z,
                db == b.z - pl.point.z,
        ;
        crate::matrix::lemma_tdiv_exact_gen(-da, da - db);
    } else if db > 0 && da < 0 {
        assert((a.z - b.z) * db == (-db) * (db - da)) by (nonlinear_arith)
            requires
                da == a.z - pl.point.z,
                db == b.z - pl.point.z,
        ;
        crate::matrix::lemma_tdiv_exact_gen(-db, db - da);
    }
}

} // verus!
