use larnt::bbox::BBox;
use larnt::hit::Hit;
use larnt::matrix::Matrix;
use larnt::mesh::{IndexTriangle, Mesh, VertexMerger};
use larnt::path::{path_bounding_box, path_filter, BoxClip, Paths};
use larnt::ray::Ray;
use larnt::triangle::Triangle;
use larnt::vector::Vector;

fn v(x: i64, y: i64, z: i64) -> Vector {
    Vector::new(x, y, z)
}

fn edge_set(paths: &Paths) -> Vec<(Vector, Vector)> {
    let mut out: Vec<(Vector, Vector)> = Vec::new();
    for p in &paths.paths {
        assert_eq!(p.len(), 2);
        let (a, b) = (p[0], p[1]);
        let e = if (a.x, a.y, a.z) <= (b.x, b.y, b.z) { (a, b) } else { (b, a) };
        if !out.contains(&e) {
            out.push(e);
        }
    }
    out
}

#[test]
fn merger_deduplicates() {
    let mut m = VertexMerger::new();
    let a = m.get_or_insert(v(1, 2, 3));
    let b = m.get_or_insert(v(4, 5, 6));
    let c = m.get_or_insert(v(1, 2, 3));
    assert_eq!(a, 0);
    assert_eq!(b, 1);
    assert_eq!(c, 0);
    assert_eq!(m.vertices.len(), 2);
}

#[test]
fn mesh_new_merges_shared_vertices() {
    let t1 = Triangle::new(v(0, 0, 0), v(10, 0, 0), v(0, 10, 0));
    let t2 = Triangle::new(v(10, 0, 0), v(0, 10, 0), v(10, 10, 0));
    let m = Mesh::new(vec![t1, t2]);
    assert_eq!(m.vertices.len(), 4);
    assert_eq!(m.index_triangles.len(), 2);
    let ts = m.triangles();
    assert_eq!(ts[0].v1, v(0, 0, 0));
    assert_eq!(ts[1].v3, v(10, 10, 0));
    assert_eq!(m.bounding_box(), BBox::new(v(0, 0, 0), v(10, 10, 0)));
    assert!(!m.contains(v(1, 1, 0), 5));
}

#[test]
fn index_triangle_sorted_edges() {
    let it = IndexTriangle { v1: 5, v2: 1, v3: 3 };
    let e = it.paths();
    assert_eq!(e, [(1, 3), (3, 5), (1, 5)]);
}

#[test]
fn normalized_normal_canonical() {
    let verts = vec![v(0, 0, 0), v(10, 0, 0), v(0, 10, 0)];
    let up = IndexTriangle { v1: 0, v2: 1, v3: 2 }.normalized_normal(&verts);
    // Cross product (0,0,100) reduced by its gcd, sign made canonical.
    assert_eq!(up, v(0, 0, 1));
    // The reversed winding gives the same canonical normal.
    let down = IndexTriangle { v1: 0, v2: 2, v3: 1 }.normalized_normal(&verts);
    assert_eq!(down, v(0, 0, 1));
}

#[test]
fn normalized_normal_degenerate_is_zero() {
    let verts = vec![v(0, 0, 0), v(5, 5, 5), v(10, 10, 10)];
    let n = IndexTriangle { v1: 0, v2: 1, v3: 2 }.normalized_normal(&verts);
    assert_eq!(n, v(0, 0, 0));
}

#[test]
fn mesh_intersect_needs_compile() {
    let t1 = Triangle::new(v(-100, -100, 0), v(100, -100, 0), v(0, 100, 0));
    let mut m = Mesh::new(vec![t1]);
    let ray = Ray::new(v(0, 0, 500), v(0, 0, -1));
    assert_eq!(m.intersect(ray), Hit::Miss);
    m.compile();
    match m.intersect(ray) {
        Hit::At(t) => assert_eq!(t.num * 1, 500 * t.den),
        Hit::Miss => panic!("compiled mesh must report the hit"),
    }
    // Compiling again changes nothing.
    m.compile();
    assert!(m.intersect(ray).is_hit());
}

#[test]
fn tetrahedron_silhouette_covers_all_edges() {
    // For a closed convex mesh every edge lies between faces whose normals
    // differ, so every edge is drawn.
    let a = v(0, 0, 0);
    let b = v(100, 0, 0);
    let c = v(0, 100, 0);
    let d = v(0, 0, 100);
    let m = Mesh::new(vec![
        Triangle::new(a, b, c),
        Triangle::new(a, b, d),
        Triangle::new(a, c, d),
        Triangle::new(b, c, d),
    ]);
    let p = m.paths();
    // Each of the six edges has two incident faces with distinct canonical
    // normals: one polyline per (edge, normal) record.
    assert_eq!(p.paths.len(), 12);
    let edges = edge_set(&p);
    assert_eq!(edges.len(), 6);
}

#[test]
fn coplanar_shared_edge_vanishes() {
    let t1 = Triangle::new(v(0, 0, 0), v(10, 0, 0), v(0, 10, 0));
    let t2 = Triangle::new(v(10, 0, 0), v(10, 10, 0), v(0, 10, 0));
    let m = Mesh::new(vec![t1, t2]);
    let p = m.paths();
    // The diagonal between the two coplanar faces carries the same canonical
    // normal twice and is dropped; the four boundary edges stay.
    assert_eq!(p.paths.len(), 4);
    let edges = edge_set(&p);
    assert!(!edges.contains(&(v(0, 10, 0), v(10, 0, 0))));
    assert!(edges.contains(&(v(0, 0, 0), v(10, 0, 0))));
}

#[test]
fn open_strip_boundary_edges_stay() {
    // A single triangle is all boundary: every edge occurs once.
    let m = Mesh::new(vec![Triangle::new(v(0, 0, 0), v(10, 0, 0), v(0, 10, 0))]);
    let p = m.paths();
    assert_eq!(p.paths.len(), 3);
}

#[test]
fn mesh_move_to_translates_exactly() {
    let t1 = Triangle::new(v(0, 0, 0), v(10, 0, 0), v(0, 10, 0));
    let m = Mesh::new(vec![t1]);
    let moved = m.move_to(v(100, 100, 100), v(0, 0, 0));
    let ts = moved.triangles();
    assert_eq!(ts[0].v1, v(100, 100, 100));
    assert_eq!(ts[0].v2, v(110, 100, 100));
    assert_eq!(ts[0].v3, v(100, 110, 100));
}

#[test]
fn mesh_fit_inside_scales_into_box() {
    let t1 = Triangle::new(v(0, 0, 0), v(200, 0, 0), v(0, 200, 0));
    let t2 = Triangle::new(v(0, 0, 0), v(200, 0, 0), v(0, 0, 200));
    let m = Mesh::new(vec![t1, t2]);
    let fitted = m.fit_inside(BBox::new(v(0, 0, 0), v(100, 100, 100)), v(0, 0, 0));
    let b = fitted.bounding_box();
    assert!(b.min.x >= 0 && b.max.x <= 100);
    assert!(b.min.y >= 0 && b.max.y <= 100);
    assert!(b.min.z >= 0 && b.max.z <= 100);
    // The scale is uniform: the longest extent fills the box.
    assert_eq!(b.max.x - b.min.x, 100);
}

#[test]
fn mesh_transform_with_translation_matrix() {
    let t1 = Triangle::new(v(1, 2, 3), v(4, 5, 6), v(7, 8, 9));
    let m = Mesh::new(vec![t1]);
    let moved = m.transform(&Matrix::translate(v(10, 0, -10)));
    let ts = moved.triangles();
    assert_eq!(ts[0].v1, v(11, 2, -7));
}

#[test]
fn mesh_unit_cube_fits_and_centers() {
    // One world unit is 1000 lattice units here: the fitted mesh spans the
    // unit-sized box and sits centered on the origin.
    let t1 = Triangle::new(v(0, 0, 0), v(400, 0, 0), v(0, 400, 0));
    let t2 = Triangle::new(v(0, 0, 0), v(400, 0, 0), v(0, 0, 400));
    let m = Mesh::new(vec![t1, t2]);
    let u = m.unit_cube(1000);
    let b = u.bounding_box();
    assert!(-1000 <= b.min.x && b.max.x <= 1000);
    assert!(-1000 <= b.min.z && b.max.z <= 1000);
    // The longest extent fills the unit and is centered to within rounding.
    assert_eq!(b.max.x - b.min.x, 1000);
    assert!((b.max.x + b.min.x).abs() <= 1);
    assert!((b.max.z + b.min.z).abs() <= 1);
}

#[test]
fn paths_push_extend_bbox() {
    let mut p = Paths::new();
    assert_eq!(p.paths.len(), 0);
    p.push(vec![v(0, 0, 0), v(1, 5, 0)]);
    let mut q = Paths::from_vec(vec![vec![v(-3, 0, 2), v(0, 0, 7)]]);
    q.extend(p);
    assert_eq!(q.paths.len(), 2);
    let b = q.bounding_box();
    assert_eq!(b.min, v(-3, 0, 0));
    assert_eq!(b.max, v(1, 5, 7));
}

#[test]
fn empty_paths_bounding_box_is_zero() {
    let p = Paths::new();
    assert_eq!(p.bounding_box(), BBox::new(v(0, 0, 0), v(0, 0, 0)));
}

#[test]
fn path_bbox_of_single_path() {
    let b = path_bounding_box(&vec![v(1, 1, 1), v(-2, 5, 0), v(3, 0, -4)]);
    assert_eq!(b.min, v(-2, 0, -4));
    assert_eq!(b.max, v(3, 5, 1));
}

#[test]
fn filter_splits_at_rejections() {
    let clip = BoxClip { bx: BBox::new(v(0, 0, 0), v(10, 10, 10)) };
    let path = vec![
        v(1, 1, 1),
        v(2, 2, 2),
        v(50, 0, 0),
        v(3, 3, 3),
        v(4, 4, 4),
        v(5, 5, 5),
    ];
    let parts = path_filter(&path, &clip);
    assert_eq!(parts.len(), 2);
    assert_eq!(parts[0], vec![v(1, 1, 1), v(2, 2, 2)]);
    assert_eq!(parts[1], vec![v(3, 3, 3), v(4, 4, 4), v(5, 5, 5)]);
}

#[test]
fn filter_drops_single_vertex_runs() {
    let clip = BoxClip { bx: BBox::new(v(0, 0, 0), v(10, 10, 10)) };
    let path = vec![v(1, 1, 1), v(50, 0, 0), v(2, 2, 2), v(50, 0, 0)];
    let parts = path_filter(&path, &clip);
    assert_eq!(parts.len(), 0);
}

#[test]
fn paths_filter_concatenates() {
    let clip = BoxClip { bx: BBox::new(v(0, 0, 0), v(10, 10, 10)) };
    let p = Paths::from_vec(vec![
        vec![v(1, 1, 1), v(2, 2, 2)],
        vec![v(50, 50, 50), v(60, 60, 60)],
        vec![v(3, 3, 3), v(4, 4, 4)],
    ]);
    let kept = p.filter(&clip);
    assert_eq!(kept.paths.len(), 2);
}

#[test]
fn paths_transform_translates_vertices() {
    let p = Paths::from_vec(vec![vec![v(0, 0, 0), v(1, 2, 3)]]);
    let moved = p.transform(&Matrix::translate(v(5, 5, 5)));
    assert_eq!(moved.paths[0], vec![v(5, 5, 5), v(6, 7, 8)]);
}

#[test]
fn visibility_shrinks_under_extra_clipping() {
    // Shrinking the clip region only removes vertices, never adds any: the
    // filtered output of the smaller box is a subset of the larger one's.
    let big = BoxClip { bx: BBox::new(v(0, 0, 0), v(100, 100, 100)) };
    let small = BoxClip { bx: BBox::new(v(0, 0, 0), v(10, 10, 10)) };
    let path = vec![v(1, 1, 1), v(5, 5, 5), v(50, 50, 50), v(7, 7, 7), v(8, 8, 8)];
    let with_big = path_filter(&path, &big);
    let with_small = path_filter(&path, &small);
    let count = |parts: &Vec<Vec<Vector>>| parts.iter().map(|p| p.len()).sum::<usize>();
    assert!(count(&with_small) <= count(&with_big));
    for part in &with_small {
        for vtx in part {
            assert!(with_big.iter().any(|p| p.contains(vtx)));
        }
    }
}

#[test]
fn simplify_collapses_collinear_points() {
    let p = larnt::path::path_simplify(&vec![v(0, 0, 0), v(5, 0, 0), v(10, 0, 0)], 0);
    assert_eq!(p, vec![v(0, 0, 0), v(10, 0, 0)]);
}

#[test]
fn simplify_keeps_a_tall_corner() {
    let p = larnt::path::path_simplify(&vec![v(0, 0, 0), v(5, 100, 0), v(10, 0, 0)], 1);
    assert_eq!(p, vec![v(0, 0, 0), v(5, 100, 0), v(10, 0, 0)]);
}

#[test]
fn simplify_drops_below_threshold() {
    let p = larnt::path::path_simplify(&vec![v(0, 0, 0), v(5, 100, 0), v(10, 0, 0)], 200);
    assert_eq!(p, vec![v(0, 0, 0), v(10, 0, 0)]);
}

#[test]
fn simplify_nested_detail() {
    // The two flank points lie exactly on the chords to the peak, so only
    // the peak survives, at either threshold below its height.
    let path = vec![v(0, 0, 0), v(2, 40, 0), v(5, 100, 0), v(8, 40, 0), v(10, 0, 0)];
    let fine = larnt::path::path_simplify(&path, 1);
    assert_eq!(fine, vec![v(0, 0, 0), v(5, 100, 0), v(10, 0, 0)]);
    let coarse = larnt::path::path_simplify(&path, 60);
    assert_eq!(coarse, vec![v(0, 0, 0), v(5, 100, 0), v(10, 0, 0)]);
    // Above the peak's distance the whole polyline collapses to its chord.
    let flat = larnt::path::path_simplify(&path, 101);
    assert_eq!(flat, vec![v(0, 0, 0), v(10, 0, 0)]);
}

#[test]
fn paths_simplify_applies_per_polyline() {
    let p = Paths::from_vec(vec![
        vec![v(0, 0, 0), v(5, 0, 0), v(10, 0, 0)],
        vec![v(0, 0, 0), v(5, 100, 0), v(10, 0, 0)],
    ]);
    let s = p.simplify(1);
    assert_eq!(s.paths[0].len(), 2);
    assert_eq!(s.paths[1].len(), 3);
}

#[test]
fn simplify_short_paths_unchanged() {
    let p = larnt::path::path_simplify(&vec![v(1, 2, 3), v(4, 5, 6)], 5);
    assert_eq!(p, vec![v(1, 2, 3), v(4, 5, 6)]);
}

#[test]
fn chop_subdivides_straight_segment() {
    let p = larnt::path::path_chop(&vec![v(0, 0, 0), v(10, 0, 0)], 3);
    assert_eq!(p, vec![v(0, 0, 0), v(3, 0, 0), v(6, 0, 0), v(9, 0, 0), v(10, 0, 0)]);
}

#[test]
fn chop_leaves_short_segment() {
    let p = larnt::path::path_chop(&vec![v(0, 0, 0), v(10, 0, 0)], 50);
    assert_eq!(p, vec![v(0, 0, 0), v(10, 0, 0)]);
}

#[test]
fn chop_rounds_toward_zero_on_diagonals() {
    // Length 5 segment: interior points at arc parameters 2 and 4.
    let p = larnt::path::path_chop(&vec![v(0, 0, 0), v(3, 4, 0)], 2);
    assert_eq!(p, vec![v(0, 0, 0), v(1, 1, 0), v(2, 3, 0), v(3, 4, 0)]);
}

#[test]
fn chop_chains_segments() {
    let p = larnt::path::path_chop(&vec![v(0, 0, 0), v(4, 0, 0), v(4, 2, 0)], 2);
    assert_eq!(
        p,
        vec![v(0, 0, 0), v(2, 0, 0), v(4, 0, 0), v(4, 2, 0)]
    );
}

#[test]
fn paths_chop_applies_per_polyline() {
    let p = Paths::from_vec(vec![vec![v(0, 0, 0), v(4, 0, 0)]]);
    let c = p.chop(2);
    assert_eq!(c.paths[0], vec![v(0, 0, 0), v(2, 0, 0), v(4, 0, 0)]);
}

#[test]
fn level_plane_slice_lies_exactly_on_the_plane() {
    // A closed tetrahedron sliced by the level plane through z = 50: every
    // vertex of the section sits exactly at that height.
    let a = v(0, 0, 0);
    let b = v(100, 0, 0);
    let c = v(0, 100, 0);
    let d = v(0, 0, 100);
    let m = Mesh::new(vec![
        Triangle::new(a, b, c),
        Triangle::new(a, b, d),
        Triangle::new(a, c, d),
        Triangle::new(b, c, d),
    ]);
    let plane = larnt::plane::Plane::new(v(0, 0, 50), v(0, 0, 1));
    let section = plane.intersect_mesh(&m);
    // The slice crosses the three slanted faces.
    assert_eq!(section.paths.len(), 3);
    for p in &section.paths {
        assert_eq!(p.len(), 2);
        for vtx in p {
            assert_eq!(vtx.z, 50);
        }
    }
}

#[test]
fn plane_misses_mesh_gives_no_paths() {
    let m = Mesh::new(vec![Triangle::new(v(0, 0, 0), v(10, 0, 0), v(0, 10, 0))]);
    let plane = larnt::plane::Plane::new(v(0, 0, 50), v(0, 0, 1));
    let section = plane.intersect_mesh(&m);
    assert_eq!(section.paths.len(), 0);
}

#[test]
fn slanted_plane_crossing_count() {
    // A single triangle crossing the plane x = 5 yields one segment.
    let m = Mesh::new(vec![Triangle::new(v(0, 0, 0), v(10, 0, 0), v(0, 10, 0))]);
    let plane = larnt::plane::Plane::new(v(5, 0, 0), v(1, 0, 0));
    let section = plane.intersect_mesh(&m);
    assert_eq!(section.paths.len(), 1);
}
