//! Polylines and collections of polylines, the unit of line-art output.

use vstd::prelude::*;
use crate::bbox::{BBox, spec_box_contains, spec_box_inside};
use crate::matrix::{Matrix, spec_affine, spec_entries_bounded, spec_mul_position, spec_pos_fits, spec_tdiv, tdiv};
use crate::math::lemma_mul_bounds;
use crate::triangle::{t3, tdot, tsub};
use crate::vector::in_range;
use crate::COORD_LIMIT;
use crate::vector::Vector;

verus! {

/// A single polyline: an ordered run of lattice points.
pub type Path = Vec<Vector>;

/// A collection of polylines.
#[derive(Clone, Debug)]
pub struct Paths {
    pub paths: Vec<Path>,
}

/// The bounding box of the points of `s` from index 1 on, extending `acc`.
pub open spec fn spec_path_bbox_from(s: Seq<Vector>, acc: BBox, i: int) -> BBox
    decreases s.len() - i,
{
    if i >= s.len() {
        acc
    } else {
        spec_path_bbox_from(
            s,
            BBox { min: acc.min.spec_min3(s[i]), max: acc.max.spec_max3(s[i]) },
            i + 1,
        )
    }
}

/// The bounding box of a polyline: the zero box when it is empty, else the
/// smallest box holding all of its points grown from the first point.
pub open spec fn spec_path_bbox(s: Seq<Vector>) -> BBox {
    if s.len() == 0 {
        BBox { min: Vector { x: 0, y: 0, z: 0 }, max: Vector { x: 0, y: 0, z: 0 } }
    } else {
        spec_path_bbox_from(s, BBox { min: s[0], max: s[0] }, 1)
    }
}

/// Extending the accumulator never shrinks it.
proof fn lemma_path_bbox_from_grows(s: Seq<Vector>, acc: BBox, i: int)
    requires
        0 <= i <= s.len(),
    ensures
        spec_box_inside(acc, spec_path_bbox_from(s, acc, i)),
    decreases s.len() - i,
{
    if i < s.len() {
        lemma_path_bbox_from_grows(
            s,
            BBox { min: acc.min.spec_min3(s[i]), max: acc.max.spec_max3(s[i]) },
            i + 1,
        );
    }
}

/// Every point from `i` on lies inside the accumulated box.
proof fn lemma_path_bbox_from_contains(s: Seq<Vector>, acc: BBox, i: int, j: int)
    requires
        0 <= i <= j < s.len(),
    ensures
        spec_box_contains(spec_path_bbox_from(s, acc, i), s[j], 0),
    decreases s.len() - i,
{
    let step = BBox { min: acc.min.spec_min3(s[i]), max: acc.max.spec_max3(s[i]) };
    if j == i {
        lemma_path_bbox_from_grows(s, step, i + 1);
    } else {
        lemma_path_bbox_from_contains(s, step, i + 1, j);
    }
}

/// The bounding box of a polyline contains each of its points.
pub proof fn lemma_path_bbox_contains(s: Seq<Vector>, j: int)
    requires
        0 <= j < s.len(),
    ensures
        spec_box_contains(spec_path_bbox(s), s[j], 0),
{
    if j == 0 {
        lemma_path_bbox_from_grows(s, BBox { min: s[0], max: s[0] }, 1);
    } else {
        lemma_path_bbox_from_contains(s, BBox { min: s[0], max: s[0] }, 1, j);
    }
}

/// Computes the bounding box of one polyline.
pub fn path_bounding_box(path: &Path) -> (r: BBox)
    ensures
        r == spec_path_bbox(path@),
{
    if path.len() == 0 {
        return BBox::default();
    }
    let first = path[0];
    let mut bx = BBox { min: first, max: first };
    let mut i: usize = 1;
    while i < path.len()
        invariant
            1 <= i <= path@.len(),
            spec_path_bbox(path@) == spec_path_bbox_from(path@, bx, i as int),
        decreases path@.len() - i,
    {
        bx = BBox { min: bx.min.min(path[i]), max: bx.max.max(path[i]) };
        i += 1;
    }
    bx
}

/// The bounding box of all polylines taken together, extending `acc` with the
/// boxes of the polylines from index `i` on.
pub open spec fn spec_paths_bbox_from(ps: Seq<Seq<Vector>>, acc: BBox, i: int) -> BBox
    decreases ps.len() - i,
{
    if i >= ps.len() {
        acc
    } else {
        let b = spec_path_bbox(ps[i]);
        spec_paths_bbox_from(
            ps,
            BBox { min: acc.min.spec_min3(b.min), max: acc.max.spec_max3(b.max) },
            i + 1,
        )
    }
}

/// The view of a collection of polylines: the sequence of point sequences.
pub open spec fn paths_view(p: Paths) -> Seq<Seq<Vector>> {
    p.paths@.map_values(|q: Path| q@)
}


/// A per-vertex filter: a vertex either maps to an output vertex or is
/// rejected, ending the polyline it sat on. Implementations define the
/// specification-level decision and prove their executable code matches it.
pub trait Filter {
    /// What the filter does to a vertex, at the specification level.
    spec fn spec_filter(&self, v: Vector) -> Option<Vector>;

    /// Applies the filter to one vertex.
    fn filter(&self, v: Vector) -> (r: Option<Vector>)
        ensures
            r == self.spec_filter(v),
    ;
}

/// A world-space clip filter: keeps the vertices inside a box.
pub struct BoxClip {
    pub bx: BBox,
}

impl Filter for BoxClip {
    open spec fn spec_filter(&self, v: Vector) -> Option<Vector> {
        if spec_box_contains(self.bx, v, 0) {
            Option::Some(v)
        } else {
            Option::None
        }
    }

    fn filter(&self, v: Vector) -> (r: Option<Vector>)
    {
        let inside = self.bx.min.x <= v.x && v.x <= self.bx.max.x && self.bx.min.y <= v.y && v.y
            <= self.bx.max.y && self.bx.min.z <= v.z && v.z <= self.bx.max.z;
        if inside {
            Some(v)
        } else {
            None
        }
    }
}

/// The split-on-rejection walk from vertex `i` on, with the polyline built so
/// far (`cur`) and the sub-polylines already emitted (`out`): an accepted
/// vertex extends the current polyline, a rejected one ends it, and a
/// polyline is emitted only when it kept at least two vertices.
pub open spec fn spec_filter_walk<F: Filter>(
    f: &F,
    s: Seq<Vector>,
    i: int,
    cur: Seq<Vector>,
    out: Seq<Seq<Vector>>,
) -> Seq<Seq<Vector>>
    decreases s.len() - i,
{
    if i < 0 || i >= s.len() {
        if cur.len() > 1 {
            out.push(cur)
        } else {
            out
        }
    } else {
        match f.spec_filter(s[i]) {
            Option::Some(nv) => spec_filter_walk(f, s, i + 1, cur.push(nv), out),
            Option::None => spec_filter_walk(
                f,
                s,
                i + 1,
                Seq::empty(),
                if cur.len() > 1 {
                    out.push(cur)
                } else {
                    out
                },
            ),
        }
    }
}

/// The sub-polylines of one polyline under the filter.
pub open spec fn spec_path_filter<F: Filter>(f: &F, s: Seq<Vector>) -> Seq<Seq<Vector>> {
    spec_filter_walk(f, s, 0, Seq::empty(), Seq::empty())
}

/// Splits one polyline at rejected vertices, keeping runs of length two or
/// more.
pub fn path_filter<F: Filter>(path: &Path, f: &F) -> (r: Vec<Path>)
    ensures
        r@.map_values(|q: Path| q@) == spec_path_filter(f, path@),
{
    let mut result: Vec<Path> = Vec::new();
    let mut current: Path = Vec::new();
    proof {
        assert(result@.map_values(|q: Path| q@) =~= Seq::<Seq<Vector>>::empty());
    }
    let mut i: usize = 0;
    while i < path.len()
        invariant
            i <= path@.len(),
            spec_path_filter(f, path@) == spec_filter_walk(
                f,
                path@,
                i as int,
                current@,
                result@.map_values(|q: Path| q@),
            ),
        decreases path@.len() - i,
    {
        let ghost pre_out = result@.map_values(|q: Path| q@);
        match f.filter(path[i]) {
            Some(nv) => {
                current.push(nv);
            },
            None => {
                if current.len() > 1 {
                    let done = current;
                    current = Vec::new();
                    result.push(done);
                    proof {
                        assert(result@.map_values(|q: Path| q@) =~= pre_out.push(
                            result@.last()@,
                        ));
                    }
                } else {
                    current = Vec::new();
                }
            },
        }
        i += 1;
    }
    if current.len() > 1 {
        let ghost pre_out = result@.map_values(|q: Path| q@);
        result.push(current);
        proof {
            assert(result@.map_values(|q: Path| q@) =~= pre_out.push(result@.last()@));
        }
    }
    result
}

/// One polyline mapped through an affine matrix.
pub fn path_transform(path: &Path, matrix: &Matrix) -> (r: Path)
    requires
        spec_affine(matrix@),
        spec_entries_bounded(matrix@, 0x4000_0000_0000_0000),
        forall|j: int| 0 <= j < path@.len() ==> spec_pos_fits(matrix@, #[trigger] path@[j]),
    ensures
        r@.len() == path@.len(),
        forall|j: int|
            0 <= j < path@.len() ==> r@[j] == spec_mul_position(matrix@, #[trigger] path@[j]),
{
    let mut out: Path = Vec::new();
    let mut i: usize = 0;
    while i < path.len()
        invariant
            i <= path@.len(),
            out@.len() == i,
            spec_affine(matrix@),
            spec_entries_bounded(matrix@, 0x4000_0000_0000_0000),
            forall|j: int| 0 <= j < path@.len() ==> spec_pos_fits(matrix@, #[trigger] path@[j]),
            forall|j: int|
                0 <= j < i ==> out@[j] == spec_mul_position(matrix@, #[trigger] path@[j]),
        decreases path@.len() - i,
    {
        out.push(matrix.mul_position(path[i]));
        i += 1;
    }
    out
}

impl Paths {
    /// Creates an empty collection.
    pub fn new() -> (r: Paths)
        ensures
            paths_view(r) =~= Seq::<Seq<Vector>>::empty(),
    {
        Paths { paths: Vec::new() }
    }

    /// Wraps an existing vector of polylines.
    pub fn from_vec(paths: Vec<Path>) -> (r: Paths)
        ensures
            r.paths == paths,
    {
        Paths { paths }
    }

    /// Appends one polyline.
    pub fn push(&mut self, path: Path)
        ensures
            final(self).paths@ == old(self).paths@.push(path),
    {
        self.paths.push(path);
    }

    /// Appends all polylines of another collection.
    pub fn extend(&mut self, other: Paths)
        ensures
            final(self).paths@ == old(self).paths@ + other.paths@,
    {
        let mut rest = other.paths;
        self.paths.append(&mut rest);
    }

    /// Applies a per-vertex filter to every polyline, splitting at rejected
    /// vertices.
    pub fn filter<F: Filter>(&self, f: &F) -> (r: Paths)
        ensures
            paths_view(r) == spec_paths_filter(f, paths_view(*self), paths_view(*self).len() as int),
    {
        let mut result: Vec<Path> = Vec::new();
        let ghost view = paths_view(*self);
        let mut i: usize = 0;
        while i < self.paths.len()
            invariant
                i <= self.paths@.len(),
                view == paths_view(*self),
                view.len() == self.paths@.len(),
                forall|k: int| 0 <= k < view.len() ==> view[k] == self.paths@[k]@,
                result@.map_values(|q: Path| q@) == spec_paths_filter(f, view, i as int),
            decreases self.paths@.len() - i,
        {
            let ghost pre = result@.map_values(|q: Path| q@);
            let mut sub = path_filter(&self.paths[i], f);
            let ghost subview = sub@.map_values(|q: Path| q@);
            result.append(&mut sub);
            proof {
                assert(result@.map_values(|q: Path| q@) =~= pre + subview);
            }
            i += 1;
        }
        Paths { paths: result }
    }

    /// Applies an affine matrix to every vertex of every polyline.
    pub fn transform(&self, matrix: &Matrix) -> (r: Paths)
        requires
            spec_affine(matrix@),
            spec_entries_bounded(matrix@, 0x4000_0000_0000_0000),
            forall|k: int, j: int|
                0 <= k < paths_view(*self).len() && 0 <= j < paths_view(*self)[k].len()
                    ==> spec_pos_fits(matrix@, #[trigger] paths_view(*self)[k][j]),
        ensures
            paths_view(r).len() == paths_view(*self).len(),
            forall|k: int|
                0 <= k < paths_view(*self).len() ==> (#[trigger] paths_view(r)[k]).len()
                    == paths_view(*self)[k].len(),
            forall|k: int, j: int|
                0 <= k < paths_view(*self).len() && 0 <= j < paths_view(*self)[k].len()
                    ==> #[trigger] paths_view(r)[k][j] == spec_mul_position(
                    matrix@,
                    paths_view(*self)[k][j],
                ),
    {
        let ghost view = paths_view(*self);
        let mut out: Vec<Path> = Vec::new();
        let mut i: usize = 0;
        while i < self.paths.len()
            invariant
                i <= self.paths@.len(),
                out@.len() == i,
                view == paths_view(*self),
                view.len() == self.paths@.len(),
                forall|k: int| 0 <= k < view.len() ==> view[k] == self.paths@[k]@,
                spec_affine(matrix@),
                spec_entries_bounded(matrix@, 0x4000_0000_0000_0000),
                forall|k: int, j: int|
                    0 <= k < view.len() && 0 <= j < view[k].len() ==> spec_pos_fits(
                        matrix@,
                        #[trigger] view[k][j],
                    ),
                forall|k: int| 0 <= k < i ==> (#[trigger] out@[k])@.len() == view[k].len(),
                forall|k: int, j: int|
                    0 <= k < i && 0 <= j < view[k].len() ==> #[trigger] out@[k]@[j]
                        == spec_mul_position(matrix@, view[k][j]),
            decreases self.paths@.len() - i,
        {
            proof {
                assert forall|j: int|
                    0 <= j < self.paths@[i as int]@.len() implies spec_pos_fits(
                    matrix@,
                    #[trigger] self.paths@[i as int]@[j],
                ) by {
                    assert(view[i as int] == self.paths@[i as int]@);
                    assert(view[i as int][j] == self.paths@[i as int]@[j]);
                }
            }
            out.push(path_transform(&self.paths[i], matrix));
            i += 1;
        }
        let r = Paths { paths: out };
        r
    }

    /// Subdivides every polyline into runs of at most `step` units.
    pub fn chop(&self, step: i64) -> (r: Paths)
        requires
            1 <= step <= COORD_LIMIT,
            forall|k: int, j: int|
                0 <= k < paths_view(*self).len() && 0 <= j < paths_view(*self)[k].len()
                    ==> in_range(#[trigger] paths_view(*self)[k][j], COORD_LIMIT as int),
        ensures
            paths_view(r).len() == paths_view(*self).len(),
            forall|k: int|
                0 <= k < paths_view(*self).len() ==> #[trigger] paths_view(r)[k] == spec_path_chop(
                    paths_view(*self)[k],
                    step as int,
                ),
    {
        let ghost view = paths_view(*self);
        let mut out: Vec<Path> = Vec::new();
        let mut i: usize = 0;
        while i < self.paths.len()
            invariant
                i <= self.paths@.len(),
                out@.len() == i,
                view == paths_view(*self),
                view.len() == self.paths@.len(),
                1 <= step <= COORD_LIMIT,
                forall|k: int| 0 <= k < view.len() ==> view[k] == self.paths@[k]@,
                forall|k: int, j: int|
                    0 <= k < view.len() && 0 <= j < view[k].len() ==> in_range(
                        #[trigger] view[k][j],
                        COORD_LIMIT as int,
                    ),
                forall|k: int|
                    0 <= k < i ==> #[trigger] out@[k]@ == spec_path_chop(view[k], step as int),
            decreases self.paths@.len() - i,
        {
            proof {
                assert forall|j: int|
                    0 <= j < self.paths@[i as int]@.len() implies in_range(
                    #[trigger] self.paths@[i as int]@[j],
                    COORD_LIMIT as int,
                ) by {
                    assert(view[i as int][j] == self.paths@[i as int]@[j]);
                }
            }
            out.push(path_chop(&self.paths[i], step));
            i += 1;
        }
        Paths { paths: out }
    }

    /// Simplifies every polyline with the Ramer-Douglas-Peucker rule.
    pub fn simplify(&self, threshold: i64) -> (r: Paths)
        requires
            0 <= threshold <= COORD_LIMIT,
            forall|k: int, j: int|
                0 <= k < paths_view(*self).len() && 0 <= j < paths_view(*self)[k].len()
                    ==> in_range(#[trigger] paths_view(*self)[k][j], COORD_LIMIT as int),
        ensures
            paths_view(r).len() == paths_view(*self).len(),
            forall|k: int|
                0 <= k < paths_view(*self).len() ==> #[trigger] paths_view(r)[k] == spec_simplify(
                    paths_view(*self)[k],
                    threshold as int,
                ),
    {
        let ghost view = paths_view(*self);
        let mut out: Vec<Path> = Vec::new();
        let mut i: usize = 0;
        while i < self.paths.len()
            invariant
                i <= self.paths@.len(),
                out@.len() == i,
                view == paths_view(*self),
                view.len() == self.paths@.len(),
                0 <= threshold <= COORD_LIMIT,
                forall|k: int| 0 <= k < view.len() ==> view[k] == self.paths@[k]@,
                forall|k: int, j: int|
                    0 <= k < view.len() && 0 <= j < view[k].len() ==> in_range(
                        #[trigger] view[k][j],
                        COORD_LIMIT as int,
                    ),
                forall|k: int|
                    0 <= k < i ==> #[trigger] out@[k]@ == spec_simplify(view[k], threshold as int),
            decreases self.paths@.len() - i,
        {
            proof {
                assert forall|j: int|
                    0 <= j < self.paths@[i as int]@.len() implies in_range(
                    #[trigger] self.paths@[i as int]@[j],
                    COORD_LIMIT as int,
                ) by {
                    assert(view[i as int][j] == self.paths@[i as int]@[j]);
                }
            }
            out.push(path_simplify(&self.paths[i], threshold));
            i += 1;
        }
        Paths { paths: out }
    }

    /// The bounding box of every point of every polyline; the zero box when
    /// the collection is empty.
    pub fn bounding_box(&self) -> (r: BBox)
        ensures
            self.paths@.len() == 0 ==> r == (BBox {
                min: Vector { x: 0, y: 0, z: 0 },
                max: Vector { x: 0, y: 0, z: 0 },
            }),
            self.paths@.len() > 0 ==> r == (spec_paths_bbox_from(
                paths_view(*self),
                spec_path_bbox(paths_view(*self)[0]),
                1,
            )),
    {
        if self.paths.len() == 0 {
            return BBox::default();
        }
        let mut bx = path_bounding_box(&self.paths[0]);
        let ghost view = paths_view(*self);
        let mut i: usize = 1;
        while i < self.paths.len()
            invariant
                1 <= i <= self.paths@.len(),
                view == paths_view(*self),
                view.len() == self.paths@.len(),
                forall|k: int| 0 <= k < view.len() ==> view[k] == self.paths@[k]@,
                spec_paths_bbox_from(view, spec_path_bbox(view[0]), 1) == spec_paths_bbox_from(
                    view,
                    bx,
                    i as int,
                ),
            decreases self.paths@.len() - i,
        {
            let b = path_bounding_box(&self.paths[i]);
            bx = BBox { min: bx.min.min(b.min), max: bx.max.max(b.max) };
            i += 1;
        }
        bx
    }
}

/// Every point of every polyline lies in the collection's bounding box.
pub proof fn lemma_paths_bbox_from_contains(ps: Seq<Seq<Vector>>, acc: BBox, i: int, j: int, k: int)
    requires
        0 <= i <= j < ps.len(),
        0 <= k < ps[j].len(),
    ensures
        spec_box_contains(spec_paths_bbox_from(ps, acc, i), ps[j][k], 0),
    decreases ps.len() - i,
{
    let b = spec_path_bbox(ps[i]);
    let step = BBox { min: acc.min.spec_min3(b.min), max: acc.max.spec_max3(b.max) };
    if j == i {
        lemma_path_bbox_contains(ps[i], k);
        lemma_paths_bbox_from_grows(ps, step, i + 1);
    } else {
        lemma_paths_bbox_from_contains(ps, step, i + 1, j, k);
    }
}




/// Some polyline of the collection passes through `x`.
pub open spec fn appears(ps: Seq<Seq<Vector>>, x: Vector) -> bool {
    exists|k: int| 0 <= k < ps.len() && #[trigger] ps[k].contains(x)
}

/// `a` is a suffix of `b`.
pub open spec fn is_suffix(a: Seq<Vector>, b: Seq<Vector>) -> bool {
    a.len() <= b.len() && b.skip(b.len() - a.len()) == a
}

proof fn lemma_empty_suffix(b: Seq<Vector>)
    ensures
        is_suffix(Seq::empty(), b),
{
    assert(b.skip(b.len() as int) =~= Seq::<Vector>::empty());
}

proof fn lemma_suffix_push(a: Seq<Vector>, b: Seq<Vector>, x: Vector)
    requires
        is_suffix(a, b),
    ensures
        is_suffix(a.push(x), b.push(x)),
{
    assert(b.push(x).skip(b.len() - a.len()) =~= b.skip(b.len() - a.len()).push(x));
}

proof fn lemma_suffix_contains(a: Seq<Vector>, b: Seq<Vector>, x: Vector)
    requires
        is_suffix(a, b),
        a.contains(x),
    ensures
        b.contains(x),
{
    let i = choose|i: int| 0 <= i < a.len() && a[i] == x;
    assert(b[b.len() - a.len() + i] == b.skip(b.len() - a.len())[i]);
}

proof fn lemma_appears_push(ps: Seq<Seq<Vector>>, c: Seq<Vector>, x: Vector)
    ensures
        appears(ps.push(c), x) <==> (appears(ps, x) || c.contains(x)),
{
    if appears(ps, x) {
        let k = choose|k: int| 0 <= k < ps.len() && ps[k].contains(x);
        assert(ps.push(c)[k].contains(x));
    }
    if c.contains(x) {
        assert(ps.push(c)[ps.len() as int].contains(x));
    }
    if appears(ps.push(c), x) {
        let k = choose|k: int| 0 <= k < ps.push(c).len() && ps.push(c)[k].contains(x);
        if k < ps.len() {
            assert(ps[k].contains(x));
        } else {
            assert(ps.push(c)[k] == c);
        }
    }
}

proof fn lemma_contains_push(s: Seq<Vector>, y: Vector, x: Vector)
    requires
        s.contains(x),
    ensures
        s.push(y).contains(x),
{
    let i = choose|i: int| 0 <= i < s.len() && s[i] == x;
    assert(s.push(y)[i] == x);
}

proof fn lemma_filter_walk_monotone<F1: Filter, F2: Filter>(
    f1: &F1,
    f2: &F2,
    s: Seq<Vector>,
    i: int,
    cur1: Seq<Vector>,
    out1: Seq<Seq<Vector>>,
    cur2: Seq<Vector>,
    out2: Seq<Seq<Vector>>,
    x: Vector,
)
    requires
        0 <= i <= s.len(),
        forall|v: Vector|
            (#[trigger] f2.spec_filter(v)) is Some ==> f1.spec_filter(v) == f2.spec_filter(v),
        is_suffix(cur2, cur1),
        forall|y: Vector|
            #[trigger] appears(out2, y) ==> appears(out1, y) || (cur1.len() >= 2 && cur1.contains(
                y,
            )),
        appears(spec_filter_walk(f2, s, i, cur2, out2), x),
    ensures
        appears(spec_filter_walk(f1, s, i, cur1, out1), x),
    decreases s.len() - i,
{
    if i >= s.len() {
        let w2 = spec_filter_walk(f2, s, i, cur2, out2);
        let w1 = spec_filter_walk(f1, s, i, cur1, out1);
        if cur2.len() > 1 {
            lemma_appears_push(out2, cur2, x);
        }
        if appears(out2, x) {
            if appears(out1, x) {
                if cur1.len() > 1 {
                    lemma_appears_push(out1, cur1, x);
                }
            } else {
                assert(cur1.len() >= 2 && cur1.contains(x));
                lemma_appears_push(out1, cur1, x);
            }
        } else {
            assert(cur2.len() > 1 && cur2.contains(x));
            lemma_suffix_contains(cur2, cur1, x);
            lemma_appears_push(out1, cur1, x);
        }
    } else {
        match f2.spec_filter(s[i]) {
            Option::Some(nv) => {
                assert(f1.spec_filter(s[i]) == Option::Some(nv));
                lemma_suffix_push(cur2, cur1, nv);
                assert forall|y: Vector| #[trigger] appears(out2, y) implies appears(out1, y) || (
                cur1.push(nv).len() >= 2 && cur1.push(nv).contains(y)) by {
                    if !appears(out1, y) {
                        lemma_contains_push(cur1, nv, y);
                    }
                }
                lemma_filter_walk_monotone(
                    f1,
                    f2,
                    s,
                    i + 1,
                    cur1.push(nv),
                    out1,
                    cur2.push(nv),
                    out2,
                    x,
                );
            },
            Option::None => {
                let out2n = if cur2.len() > 1 {
                    out2.push(cur2)
                } else {
                    out2
                };
                match f1.spec_filter(s[i]) {
                    Option::Some(nv1) => {
                        lemma_empty_suffix(cur1.push(nv1));
                        assert forall|y: Vector| #[trigger] appears(out2n, y) implies appears(
                            out1,
                            y,
                        ) || (cur1.push(nv1).len() >= 2 && cur1.push(nv1).contains(y)) by {
                            lemma_appears_push(out2, cur2, y);
                            if appears(out2, y) {
                                if !appears(out1, y) {
                                    lemma_contains_push(cur1, nv1, y);
                                }
                            } else {
                                if cur2.len() > 1 && cur2.contains(y) {
                                    lemma_suffix_contains(cur2, cur1, y);
                                    lemma_contains_push(cur1, nv1, y);
                                }
                            }
                        }
                        lemma_filter_walk_monotone(
                            f1,
                            f2,
                            s,
                            i + 1,
                            cur1.push(nv1),
                            out1,
                            Seq::empty(),
                            out2n,
                            x,
                        );
                    },
                    Option::None => {
                        let out1n = if cur1.len() > 1 {
                            out1.push(cur1)
                        } else {
                            out1
                        };
                        lemma_empty_suffix(Seq::empty());
                        assert forall|y: Vector| #[trigger] appears(out2n, y) implies appears(
                            out1n,
                            y,
                        ) || (Seq::<Vector>::empty().len() >= 2 && Seq::<Vector>::empty().contains(
                            y,
                        )) by {
                            lemma_appears_push(out2, cur2, y);
                            if appears(out2, y) {
                                if appears(out1, y) {
                                    if cur1.len() > 1 {
                                        lemma_appears_push(out1, cur1, y);
                                    }
                                } else {
                                    lemma_appears_push(out1, cur1, y);
                                }
                            } else {
                                assert(cur2.len() > 1 && cur2.contains(y));
                                lemma_suffix_contains(cur2, cur1, y);
                                lemma_appears_push(out1, cur1, y);
                            }
                        }
                        lemma_filter_walk_monotone(
                            f1,
                            f2,
                            s,
                            i + 1,
                            Seq::empty(),
                            out1n,
                            Seq::empty(),
                            out2n,
                            x,
                        );
                    },
                }
            },
        }
    }
}

/// Visibility is monotone in the filter: when one filter rejects everything
/// another rejects (and maps the accepted vertices the same way) -- as a
/// scene's occlusion test does after a shape is added -- the stricter
/// filter's output draws no vertex that the looser one did not also draw.
pub proof fn lemma_filter_monotone<F1: Filter, F2: Filter>(
    f1: &F1,
    f2: &F2,
    s: Seq<Vector>,
    x: Vector,
)
    requires
        forall|v: Vector|
            (#[trigger] f2.spec_filter(v)) is Some ==> f1.spec_filter(v) == f2.spec_filter(v),
        appears(spec_path_filter(f2, s), x),
    ensures
        appears(spec_path_filter(f1, s), x),
{
    lemma_empty_suffix(Seq::empty());
    lemma_filter_walk_monotone(
        f1,
        f2,
        s,
        0,
        Seq::empty(),
        Seq::empty(),
        Seq::empty(),
        Seq::empty(),
        x,
    );
}

/// One interior point of a chopped segment: `a + v * d / l`, each axis
/// truncating toward zero.
pub open spec fn spec_chop_point(a: Vector, vx: int, vy: int, vz: int, d: int, l: int) -> Vector {
    Vector {
        x: (a.x + spec_tdiv(vx * d, l)) as i64,
        y: (a.y + spec_tdiv(vy * d, l)) as i64,
        z: (a.z + spec_tdiv(vz * d, l)) as i64,
    }
}

/// The interior points of the segment `[a, b]` with floor length `l`, at
/// parameters `d, d + step, ...` strictly below `l`.
pub open spec fn spec_chop_inner(a: Vector, b: Vector, l: int, step: int, d: int) -> Seq<Vector>
    decreases l + step - d,
{
    if step < 1 || d >= l {
        Seq::empty()
    } else {
        seq![
            spec_chop_point(a, b.x - a.x, b.y - a.y, b.z - a.z, d, l),
        ] + spec_chop_inner(a, b, l, step, d + step)
    }
}

/// The floor length of the segment `[a, b]`.
pub open spec fn spec_seg_len(a: Vector, b: Vector) -> int {
    crate::math::spec_isqrt(
        (((b.x - a.x) * (b.x - a.x) + (b.y - a.y) * (b.y - a.y) + (b.z - a.z) * (b.z
            - a.z)) as nat),
    ) as int
}

/// The chop of the first `k` segments: the very first point, then for each
/// segment its interior points followed by its end point.
pub open spec fn spec_chop_upto(s: Seq<Vector>, step: int, k: int) -> Seq<Vector>
    decreases k,
{
    if k <= 0 {
        Seq::empty()
    } else {
        let lead: Seq<Vector> = if k - 1 == 0 {
            seq![s[0]]
        } else {
            Seq::empty()
        };
        spec_chop_upto(s, step, k - 1) + lead + spec_chop_inner(
            s[k - 1],
            s[k],
            spec_seg_len(s[k - 1], s[k]),
            step,
            step,
        ) + seq![s[k]]
    }
}

/// The whole polyline subdivided so that consecutive points are at most
/// `step` units apart along each original segment.
pub open spec fn spec_path_chop(s: Seq<Vector>, step: int) -> Seq<Vector> {
    spec_chop_upto(s, step, s.len() - 1)
}

/// Subdivides each segment of a polyline into runs of at most `step` units.
pub fn path_chop(path: &Path, step: i64) -> (r: Path)
    requires
        1 <= step <= COORD_LIMIT,
        forall|j: int| 0 <= j < path@.len() ==> in_range(#[trigger] path@[j], COORD_LIMIT as int),
    ensures
        r@ == spec_path_chop(path@, step as int),
{
    let mut out: Path = Vec::new();
    if path.len() < 2 {
        return out;
    }
    let n = path.len();
    let mut i: usize = 0;
    while i < n - 1
        invariant
            0 <= i <= n - 1,
            n == path@.len(),
            n >= 2,
            1 <= step <= COORD_LIMIT,
            forall|j: int| 0 <= j < path@.len() ==> in_range(#[trigger] path@[j], COORD_LIMIT as int),
            out@ == spec_chop_upto(path@, step as int, i as int),
        decreases n - 1 - i,
    {
        let a = path[i];
        let b = path[i + 1];
        let vx = b.x - a.x;
        let vy = b.y - a.y;
        let vz = b.z - a.z;
        proof {
            lemma_mul_bounds(vx as int, vx as int, 1048576, 1048576);
            lemma_mul_bounds(vy as int, vy as int, 1048576, 1048576);
            lemma_mul_bounds(vz as int, vz as int, 1048576, 1048576);
            crate::vector::lemma_square_nonneg(vx as int);
            crate::vector::lemma_square_nonneg(vy as int);
            crate::vector::lemma_square_nonneg(vz as int);
        }
        let len2 = (vx as i128) * (vx as i128) + (vy as i128) * (vy as i128) + (vz as i128) * (
        vz as i128);
        let l128 = crate::math::isqrt(len2);
        proof {
            assert(l128 <= 0x20_0000) by (nonlinear_arith)
                requires
                    0 <= l128,
                    l128 * l128 <= len2,
                    len2 <= 3_298_534_883_328,
            ;
        }
        let l = l128 as i64;
        if i == 0 {
            out.push(a);
        }
        let mut d: i64 = step;
        while d < l
            invariant
                1 <= step,
                step <= d,
                l == l128,
                0 <= l128 <= 0x20_0000,
                -1048576 <= vx <= 1048576,
                -1048576 <= vy <= 1048576,
                -1048576 <= vz <= 1048576,
                d <= l + step,
                step <= COORD_LIMIT,
                in_range(a, COORD_LIMIT as int),
                spec_chop_upto(path@, step as int, i as int + 1) == out@ + spec_chop_inner(
                    a,
                    b,
                    l as int,
                    step as int,
                    d as int,
                ) + seq![b],
                vx == b.x - a.x && vy == b.y - a.y && vz == b.z - a.z,
            decreases l + step - d,
        {
            proof {
                lemma_mul_bounds(vx as int, d as int, 1048576, 0x20_0000);
                lemma_mul_bounds(vy as int, d as int, 1048576, 0x20_0000);
                lemma_mul_bounds(vz as int, d as int, 1048576, 0x20_0000);
            }
            let px = a.x + (tdiv((vx as i128) * (d as i128), l as i128) as i64);
            let py = a.y + (tdiv((vy as i128) * (d as i128), l as i128) as i64);
            let pz = a.z + (tdiv((vz as i128) * (d as i128), l as i128) as i64);
            let ghost pre = out@;
            out.push(Vector { x: px, y: py, z: pz });
            proof {
                assert(out@ =~= pre + seq![
                    spec_chop_point(a, vx as int, vy as int, vz as int, d as int, l as int),
                ]);
            }
            d += step;
        }
        let ghost pre2 = out@;
        out.push(b);
        proof {
            assert(out@ =~= pre2 + seq![b]);
            assert(out@ =~= spec_chop_upto(path@, step as int, i as int + 1));
        }
        i += 1;
    }
    out
}

/// Squared distance from `p` to the segment `[a, b]`, as a fraction with a
/// positive denominator: the perpendicular distance where the projection of
/// `p` falls inside the segment, else the distance to the nearer endpoint.
pub open spec fn spec_seg_dist_sq(p: Vector, a: Vector, b: Vector) -> (int, int) {
    let ab = tsub(t3(b), t3(a));
    let ap = tsub(t3(p), t3(a));
    let l = tdot(ab, ab);
    let tn = tdot(ap, ab);
    if l == 0 || tn <= 0 {
        (tdot(ap, ap), 1)
    } else if tn >= l {
        let bp = tsub(t3(p), t3(b));
        (tdot(bp, bp), 1)
    } else {
        (tdot(ap, ap) * l - tn * tn, l)
    }
}

fn seg_dist_sq(p: Vector, a: Vector, b: Vector) -> (r: (i128, i128))
    requires
        in_range(p, COORD_LIMIT as int),
        in_range(a, COORD_LIMIT as int),
        in_range(b, COORD_LIMIT as int),
    ensures
        (r.0 as int, r.1 as int) == spec_seg_dist_sq(p, a, b),
        0 < r.1 <= 3_298_534_883_328,
        -21_760_664_753_063_325_144_711_168 <= r.0 <= 21_760_664_753_063_325_144_711_168,
{
    let abx = b.x as i128 - a.x as i128;
    let aby = b.y as i128 - a.y as i128;
    let abz = b.z as i128 - a.z as i128;
    let apx = p.x as i128 - a.x as i128;
    let apy = p.y as i128 - a.y as i128;
    let apz = p.z as i128 - a.z as i128;
    proof {
        lemma_mul_bounds(abx as int, abx as int, 1048576, 1048576);
        lemma_mul_bounds(aby as int, aby as int, 1048576, 1048576);
        lemma_mul_bounds(abz as int, abz as int, 1048576, 1048576);
        lemma_mul_bounds(apx as int, abx as int, 1048576, 1048576);
        lemma_mul_bounds(apy as int, aby as int, 1048576, 1048576);
        lemma_mul_bounds(apz as int, abz as int, 1048576, 1048576);
        lemma_mul_bounds(apx as int, apx as int, 1048576, 1048576);
        lemma_mul_bounds(apy as int, apy as int, 1048576, 1048576);
        lemma_mul_bounds(apz as int, apz as int, 1048576, 1048576);
        crate::vector::lemma_square_nonneg(abx as int);
        crate::vector::lemma_square_nonneg(aby as int);
        crate::vector::lemma_square_nonneg(abz as int);
        crate::vector::lemma_square_nonneg(apx as int);
        crate::vector::lemma_square_nonneg(apy as int);
        crate::vector::lemma_square_nonneg(apz as int);
    }
    let l = abx * abx + aby * aby + abz * abz;
    let tn = apx * abx + apy * aby + apz * abz;
    if l == 0 || tn <= 0 {
        (apx * apx + apy * apy + apz * apz, 1)
    } else if tn >= l {
        let bpx = p.x as i128 - b.x as i128;
        let bpy = p.y as i128 - b.y as i128;
        let bpz = p.z as i128 - b.z as i128;
        proof {
            lemma_mul_bounds(bpx as int, bpx as int, 1048576, 1048576);
            lemma_mul_bounds(bpy as int, bpy as int, 1048576, 1048576);
            lemma_mul_bounds(bpz as int, bpz as int, 1048576, 1048576);
            crate::vector::lemma_square_nonneg(bpx as int);
            crate::vector::lemma_square_nonneg(bpy as int);
            crate::vector::lemma_square_nonneg(bpz as int);
        }
        (bpx * bpx + bpy * bpy + bpz * bpz, 1)
    } else {
        let ap2 = apx * apx + apy * apy + apz * apz;
        proof {
            lemma_mul_bounds(ap2 as int, l as int, 3_298_534_883_328, 3_298_534_883_328);
            lemma_mul_bounds(tn as int, tn as int, 3_298_534_883_328, 3_298_534_883_328);
        }
        (ap2 * l - tn * tn, l)
    }
}

/// The interior vertex among indices `1 .. k` farthest from the chord of the
/// whole polyline, scanning in order and keeping the first maximum; the
/// starting state is index 0 at distance zero.
pub open spec fn spec_dp_best(s: Seq<Vector>, k: int) -> (int, (int, int))
    decreases k,
{
    if k <= 1 {
        (0, (0, 1))
    } else {
        let prev = spec_dp_best(s, k - 1);
        let (pi, pd) = prev;
        let d = spec_seg_dist_sq(s[k - 1], s[0], s[s.len() - 1]);
        if d.0 * pd.1 > pd.0 * d.1 {
            (k - 1, d)
        } else {
            prev
        }
    }
}

/// The scan stays within range: either nothing beat the start, or the best
/// index is an interior vertex.
pub proof fn lemma_dp_best_range(s: Seq<Vector>, k: int)
    requires
        k >= 1,
    ensures
        ({
            let (i, d) = spec_dp_best(s, k);
            &&& 0 <= i <= k - 1
            &&& d.1 > 0
            &&& (i == 0 ==> d == (0int, 1int))
            &&& (i > 0 ==> d.0 * 1 > 0 * d.1)
        }),
    decreases k,
{
    if k > 1 {
        lemma_dp_best_range(s, k - 1);
        let (pi, pd) = spec_dp_best(s, k - 1);
        let d = spec_seg_dist_sq(s[k - 1], s[0], s[s.len() - 1]);
        if d.0 * pd.1 > pd.0 * d.1 {
            if pi == 0 {
            } else {
                assert(pd.0 > 0);
                assert(pd.0 * d.1 > 0) by (nonlinear_arith)
                    requires
                        pd.0 > 0,
                        d.1 > 0,
                ;
                assert(d.0 > 0) by (nonlinear_arith)
                    requires
                        d.0 * pd.1 > 0,
                        pd.1 > 0,
                ;
            }
        }
    }
}

/// Ramer-Douglas-Peucker simplification: a polyline collapses to its chord
/// unless some interior vertex is farther from the chord than the threshold,
/// in which case the polyline splits there and both halves recurse. Distances
/// compare exactly as fractions, so the result is reproducible.
pub open spec fn spec_simplify(s: Seq<Vector>, threshold: int) -> Seq<Vector>
    decreases s.len(),
    via spec_simplify_decreases
{
    if s.len() < 3 {
        s
    } else {
        let (idx, d) = spec_dp_best(s, s.len() - 1);
        if 1 <= idx && d.0 > threshold * threshold * d.1 {
            spec_simplify(s.take(idx + 1), threshold).drop_last() + spec_simplify(
                s.skip(idx),
                threshold,
            )
        } else {
            seq![s[0], s[s.len() - 1]]
        }
    }
}

#[via_fn]
proof fn spec_simplify_decreases(s: Seq<Vector>, threshold: int) {
    if s.len() >= 3 {
        lemma_dp_best_range(s, s.len() - 1);
    }
}

/// A simplified polyline keeps at least its two chord endpoints.
pub proof fn lemma_simplify_len(s: Seq<Vector>, threshold: int)
    requires
        s.len() >= 2,
    ensures
        spec_simplify(s, threshold).len() >= 2,
    decreases s.len(),
{
    if s.len() >= 3 {
        let (idx, d) = spec_dp_best(s, s.len() - 1);
        lemma_dp_best_range(s, s.len() - 1);
        if 1 <= idx && d.0 > threshold * threshold * d.1 {
            lemma_simplify_len(s.take(idx + 1), threshold);
            lemma_simplify_len(s.skip(idx), threshold);
        }
    }
}

/// Simplifies one polyline with the Ramer-Douglas-Peucker rule at the given
/// distance threshold.
pub fn path_simplify(path: &Path, threshold: i64) -> (r: Path)
    requires
        0 <= threshold <= COORD_LIMIT,
        forall|j: int| 0 <= j < path@.len() ==> in_range(#[trigger] path@[j], COORD_LIMIT as int),
    ensures
        r@ == spec_simplify(path@, threshold as int),
    decreases path@.len(),
{
    let n = path.len();
    if n < 3 {
        let mut out: Path = Vec::new();
        let mut i: usize = 0;
        while i < path.len()
            invariant
                i <= path@.len(),
                out@ == path@.take(i as int),
            decreases path@.len() - i,
        {
            proof {
                assert(path@.take(i as int).push(path@[i as int]) =~= path@.take(i as int + 1));
            }
            out.push(path[i]);
            i += 1;
        }
        proof {
            assert(path@.take(path@.len() as int) =~= path@);
        }
        return out;
    }
    let a = path[0];
    let b = path[n - 1];
    let mut bi: usize = 0;
    let mut bn: i128 = 0;
    let mut bd: i128 = 1;
    let mut i: usize = 1;
    while i < n - 1
        invariant
            1 <= i <= n - 1,
            n == path@.len(),
            n >= 3,
            a == path@[0],
            b == path@[n - 1],
            forall|j: int| 0 <= j < path@.len() ==> in_range(#[trigger] path@[j], COORD_LIMIT as int),
            (bi as int, (bn as int, bd as int)) == spec_dp_best(path@, i as int),
            bi < i,
            0 < bd <= 3_298_534_883_328,
            -21_760_664_753_063_325_144_711_168 <= bn <= 21_760_664_753_063_325_144_711_168,
        decreases n - 1 - i,
    {
        let d = seg_dist_sq(path[i], a, b);
        proof {
            lemma_mul_bounds(
                d.0 as int,
                bd as int,
                21_760_664_753_063_325_144_711_168,
                3_298_534_883_328,
            );
            lemma_mul_bounds(
                bn as int,
                d.1 as int,
                21_760_664_753_063_325_144_711_168,
                3_298_534_883_328,
            );
        }
        if d.0 * bd > bn * d.1 {
            bi = i;
            bn = d.0;
            bd = d.1;
        }
        i += 1;
    }
    proof {
        lemma_mul_bounds(threshold as int, threshold as int, 524288, 524288);
    }
    let thr2 = (threshold as i128) * (threshold as i128);
    proof {
        lemma_mul_bounds(thr2 as int, bd as int, 274_877_906_944, 3_298_534_883_328);
    }
    if 1 <= bi && bn > thr2 * bd {
        let mut sub1: Path = Vec::new();
        let mut j: usize = 0;
        while j <= bi
            invariant
                j <= bi + 1,
                bi < n - 1,
                n == path@.len(),
                sub1@ == path@.take(j as int),
            decreases bi + 1 - j,
        {
            proof {
                assert(path@.take(j as int).push(path@[j as int]) =~= path@.take(j as int + 1));
            }
            sub1.push(path[j]);
            j += 1;
        }
        let mut sub2: Path = Vec::new();
        let mut j2: usize = bi;
        while j2 < n
            invariant
                bi <= j2 <= n,
                n == path@.len(),
                bi < n - 1,
                sub2@ == path@.skip(bi as int).take(j2 - bi),
            decreases n - j2,
        {
            proof {
                assert(path@.skip(bi as int).take((j2 - bi) as int).push(
                    path@.skip(bi as int)[(j2 - bi) as int],
                ) =~= path@.skip(bi as int).take((j2 - bi) as int + 1));
                assert(path@.skip(bi as int)[(j2 - bi) as int] == path@[j2 as int]);
            }
            sub2.push(path[j2]);
            j2 += 1;
        }
        proof {
            assert(sub1@ =~= path@.take(bi as int + 1));
            assert(sub2@ =~= path@.skip(bi as int));
            assert forall|j3: int|
                0 <= j3 < sub1@.len() implies in_range(
                #[trigger] sub1@[j3],
                COORD_LIMIT as int,
            ) by {
                assert(sub1@[j3] == path@[j3]);
            }
            assert forall|j3: int|
                0 <= j3 < sub2@.len() implies in_range(
                #[trigger] sub2@[j3],
                COORD_LIMIT as int,
            ) by {
                assert(sub2@[j3] == path@[j3 + bi]);
            }
        }
        let mut r1 = path_simplify(&sub1, threshold);
        let r2 = path_simplify(&sub2, threshold);
        proof {
            lemma_simplify_len(sub1@, threshold as int);
        }
        r1.pop();
        let mut out = r1;
        let mut rest = r2;
        out.append(&mut rest);
        proof {
            assert(out@ =~= spec_simplify(path@, threshold as int));
        }
        out
    } else {
        let two: Path = vec![a, b];
        proof {
            assert(two@ =~= seq![path@[0], path@[n - 1]]);
        }
        two
    }
}

/// The concatenated filter results of the first `k` polylines.
pub open spec fn spec_paths_filter<F: Filter>(f: &F, ps: Seq<Seq<Vector>>, k: int) -> Seq<
    Seq<Vector>,
>
    decreases k,
{
    if k <= 0 {
        Seq::empty()
    } else {
        spec_paths_filter(f, ps, k - 1) + spec_path_filter(f, ps[k - 1])
    }
}

proof fn lemma_paths_bbox_from_grows(ps: Seq<Seq<Vector>>, acc: BBox, i: int)
    requires
        0 <= i <= ps.len(),
    ensures
        spec_box_inside(acc, spec_paths_bbox_from(ps, acc, i)),
    decreases ps.len() - i,
{
    if i < ps.len() {
        let b = spec_path_bbox(ps[i]);
        lemma_paths_bbox_from_grows(
            ps,
            BBox { min: acc.min.spec_min3(b.min), max: acc.max.spec_max3(b.max) },
            i + 1,
        );
    }
}

} // verus!
