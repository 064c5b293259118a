use larnt::bbox::BBox;
use larnt::cube::{Cube, CubeTexture};
use larnt::cylinder::{Cylinder, CylinderTexture};
use larnt::function::{clamp_height, height_contains, Direction, FunctionTexture};
use larnt::hit::Hit;
use larnt::math::{gcd, isqrt, lattice_cell};
use larnt::matrix::Matrix;
use larnt::rat::Rat;
use larnt::ray::Ray;
use larnt::sphere::{OutlineSphere, Sphere, SphereTexture};
use larnt::triangle::Triangle;
use larnt::vector::Vector;

fn v(x: i64, y: i64, z: i64) -> Vector {
    Vector::new(x, y, z)
}

fn hit_equals(h: Hit, num: i128, den: i128) -> bool {
    match h {
        Hit::Miss => false,
        Hit::At(t) => t.num * den == num * t.den,
    }
}

#[test]
fn vector_componentwise_ops() {
    let a = v(1, -2, 3);
    let b = v(4, 5, -6);
    assert_eq!(a.add(b), v(5, 3, -3));
    assert_eq!(a.sub(b), v(-3, -7, 9));
    assert_eq!(a.min(b), v(1, -2, -6));
    assert_eq!(a.max(b), v(4, 5, 3));
    assert_eq!(a.mul_scalar(2), v(2, -4, 6));
    assert_eq!(a.min_component(), -2);
}

#[test]
fn vector_dot_cross() {
    let a = v(1, 0, 0);
    let b = v(0, 1, 0);
    assert_eq!(a.dot(b), 0);
    assert_eq!(a.cross(b), v(0, 0, 1));
    let c = v(2, 3, 4);
    let d = v(5, 6, 7);
    assert_eq!(c.dot(d), 2 * 5 + 3 * 6 + 4 * 7);
    assert_eq!(c.cross(d), v(3 * 7 - 4 * 6, 4 * 5 - 2 * 7, 2 * 6 - 3 * 5));
    assert_eq!(c.length_squared(), 4 + 9 + 16);
    assert_eq!(c.distance_squared(d), 9 + 9 + 9);
}

#[test]
fn bbox_extend_and_contains() {
    let b1 = BBox::new(v(0, 0, 0), v(10, 10, 10));
    let b2 = BBox::new(v(-5, 2, 3), v(4, 20, 5));
    let b = b1.extend(b2);
    assert_eq!(b.min, v(-5, 0, 0));
    assert_eq!(b.max, v(10, 20, 10));
    assert!(b1.contains(v(5, 5, 5), 0));
    assert!(!b1.contains(v(11, 5, 5), 0));
    assert!(b1.contains(v(11, 5, 5), 1));
    assert!(b1.contains(v(0, 0, 0), 0));
}

#[test]
fn bbox_point_spans_inner_box() {
    // A point of a box gives a degenerate box inside it.
    let b = BBox::new(v(-3, -3, -3), v(3, 3, 3));
    let p = v(1, -2, 0);
    assert!(b.contains(p, 0));
    let pb = BBox::new(p, p);
    assert!(b.min.x <= pb.min.x && pb.max.x <= b.max.x);
    assert!(b.min.y <= pb.min.y && pb.max.y <= b.max.y);
    assert!(b.min.z <= pb.min.z && pb.max.z <= b.max.z);
}

#[test]
fn bbox_anchor_midpoint() {
    let b = BBox::new(v(0, 0, 0), v(10, 20, 30));
    let mid = b.anchor(v(32768, 32768, 32768));
    assert_eq!(mid, v(5, 10, 15));
    let corner = b.anchor(v(0, 0, 65536));
    assert_eq!(corner, v(0, 0, 30));
}

#[test]
fn isqrt_brackets() {
    assert_eq!(isqrt(0), 0);
    assert_eq!(isqrt(1), 1);
    assert_eq!(isqrt(3), 1);
    assert_eq!(isqrt(4), 2);
    assert_eq!(isqrt(99), 9);
    assert_eq!(isqrt(1_000_000_000_000), 1_000_000);
    assert_eq!(isqrt(1_000_000_000_001), 1_000_000);
}

#[test]
fn gcd_values() {
    assert_eq!(gcd(12, 18), 6);
    assert_eq!(gcd(0, 5), 5);
    assert_eq!(gcd(7, 0), 7);
    assert_eq!(gcd(1, 1), 1);
    assert_eq!(gcd(48, 36), 12);
}

#[test]
fn rat_ordering() {
    let half = Rat::new(1, 2);
    let third = Rat::new(1, 3);
    assert!(third.lt(half));
    assert!(!half.lt(third));
    assert!(half.le(Rat::new(2, 4)));
    assert!(half.is_positive());
    assert!(!Rat::new(-1, 2).is_positive());
}

#[test]
fn hit_min_picks_closer() {
    let near = Hit::new(Rat::new(1, 2));
    let far = Hit::new(Rat::new(3, 2));
    assert_eq!(near.min(far), near);
    assert_eq!(far.min(near), near);
    assert_eq!(Hit::no_hit().min(near), near);
    assert_eq!(near.min(Hit::no_hit()), near);
    assert!(!Hit::no_hit().is_hit());
}

#[test]
fn triangle_hit_straight_down() {
    let t = Triangle::new(v(0, 0, 0), v(400, 0, 0), v(0, 400, 0));
    let ray = Ray::new(v(100, 100, 500), v(0, 0, -1));
    let h = t.intersect(ray);
    assert!(hit_equals(h, 500, 1));
}

#[test]
fn triangle_miss_outside() {
    let t = Triangle::new(v(0, 0, 0), v(400, 0, 0), v(0, 400, 0));
    let ray = Ray::new(v(300, 300, 500), v(0, 0, -1));
    assert_eq!(t.intersect(ray), Hit::Miss);
}

#[test]
fn triangle_miss_parallel() {
    let t = Triangle::new(v(0, 0, 0), v(400, 0, 0), v(0, 400, 0));
    let ray = Ray::new(v(100, 100, 500), v(1, 0, 0));
    assert_eq!(t.intersect(ray), Hit::Miss);
}

#[test]
fn triangle_behind_origin_misses() {
    let t = Triangle::new(v(0, 0, 0), v(400, 0, 0), v(0, 400, 0));
    let ray = Ray::new(v(100, 100, -500), v(0, 0, -1));
    assert_eq!(t.intersect(ray), Hit::Miss);
}

#[test]
fn triangle_contains_is_false() {
    let t = Triangle::new(v(0, 0, 0), v(400, 0, 0), v(0, 400, 0));
    assert!(!t.contains(v(1, 1, 0), 10));
}

#[test]
fn triangle_edge_paths() {
    let t = Triangle::new(v(0, 0, 0), v(4, 0, 0), v(0, 4, 0));
    let p = t.paths();
    assert_eq!(p.paths.len(), 3);
    assert_eq!(p.paths[0], vec![v(0, 0, 0), v(4, 0, 0)]);
    assert_eq!(p.paths[1], vec![v(4, 0, 0), v(0, 4, 0)]);
    assert_eq!(p.paths[2], vec![v(0, 4, 0), v(0, 0, 0)]);
}

#[test]
fn cube_contains_inflated() {
    let c = Cube::new(v(-100, -100, -100), v(100, 100, 100));
    assert!(c.contains(v(0, 0, 0), 0));
    assert!(c.contains(v(100, 100, 100), 0));
    assert!(!c.contains(v(101, 0, 0), 0));
    assert!(c.contains(v(101, 0, 0), 1));
    assert!(!c.contains(v(0, 0, 0), -101));
}

#[test]
fn cube_exit_hit_from_inside() {
    let c = Cube::new(v(-100, -100, -100), v(100, 100, 100));
    let h = c.intersect(Ray::new(v(0, 0, 0), v(1, 0, 0)));
    assert!(hit_equals(h, 100, 1));
}

#[test]
fn cube_entry_hit_from_outside() {
    let c = Cube::new(v(-100, -100, -100), v(100, 100, 100));
    let h = c.intersect(Ray::new(v(300, 0, 0), v(-1, 0, 0)));
    assert!(hit_equals(h, 200, 1));
}

#[test]
fn cube_miss_zero_axis() {
    let c = Cube::new(v(-100, -100, -100), v(100, 100, 100));
    let h = c.intersect(Ray::new(v(300, 300, 0), v(-1, 0, 0)));
    assert_eq!(h, Hit::Miss);
}

#[test]
fn cube_miss_pointing_away() {
    let c = Cube::new(v(-100, -100, -100), v(100, 100, 100));
    let h = c.intersect(Ray::new(v(300, 0, 0), v(1, 0, 0)));
    assert_eq!(h, Hit::Miss);
}

#[test]
fn cube_vanilla_paths_are_twelve_edges() {
    let c = Cube::new(v(0, 0, 0), v(10, 10, 10));
    let p = c.paths();
    assert_eq!(p.paths.len(), 12);
    // The four vertical strokes of the single stripe sit on the edges.
    assert_eq!(p.paths[0], vec![v(0, 0, 0), v(0, 0, 10)]);
    assert_eq!(p.paths[1], vec![v(10, 10, 0), v(10, 10, 10)]);
}

#[test]
fn cube_striped_path_count() {
    let c = Cube::new(v(0, 0, 0), v(10, 10, 10)).with_texture(CubeTexture::Striped(2));
    let p = c.paths();
    // Two vertical blocks of four strokes and three rim blocks of four.
    assert_eq!(p.paths.len(), 8 * 2 + 4);
}

#[test]
fn cube_texture_constructors() {
    assert_eq!(CubeTexture::vanilla(), CubeTexture::Vanilla);
    assert_eq!(CubeTexture::striped(8), CubeTexture::Striped(8));
}

#[test]
fn sphere_contains_by_squares() {
    let s = Sphere::new(v(0, 0, 0), 100);
    assert!(s.contains(v(100, 0, 0), 0));
    assert!(!s.contains(v(101, 0, 0), 0));
    assert!(s.contains(v(101, 0, 0), 1));
    assert!(s.contains(v(57, 57, 57), 0));
    assert!(!s.contains(v(58, 58, 58), 0));
    assert!(!s.contains(v(0, 0, 0), -101));
}

#[test]
fn sphere_hit_head_on() {
    let s = Sphere::new(v(0, 0, 0), 100);
    let h = s.intersect(Ray::new(v(-300, 0, 0), v(1, 0, 0)));
    assert!(hit_equals(h, 200, 1));
}

#[test]
fn sphere_exit_from_center() {
    let s = Sphere::new(v(0, 0, 0), 100);
    let h = s.intersect(Ray::new(v(0, 0, 0), v(1, 0, 0)));
    assert!(hit_equals(h, 100, 1));
}

#[test]
fn sphere_miss_tangent_discriminant() {
    let s = Sphere::new(v(0, 0, 0), 100);
    // Grazing ray: discriminant exactly zero counts as a miss.
    let h = s.intersect(Ray::new(v(-300, 100, 0), v(1, 0, 0)));
    assert_eq!(h, Hit::Miss);
}

#[test]
fn sphere_grazing_exit_rounds_up() {
    // From just inside the surface along (1,1,1) the exact exit parameter is
    // irrational; the ceiling root keeps it a positive hit.
    let s = Sphere::new(v(0, 0, 0), 2);
    let h = s.intersect(Ray::new(v(1, 1, 1), v(1, 1, 1)));
    assert!(hit_equals(h, 1, 3));
}

#[test]
fn sphere_interior_exit_along_axis() {
    // Radius-2 sphere, origin (1,1,1), direction +x: the exact exit lies at
    // an irrational parameter; the contract yields a positive hit at its
    // ceiling-root estimate.
    let s = Sphere::new(v(0, 0, 0), 2);
    let h = s.intersect(Ray::new(v(1, 1, 1), v(1, 0, 0)));
    assert!(hit_equals(h, 1, 1));
}

#[test]
fn cylinder_interior_exit_along_axis() {
    // Radius-3 cylinder, origin (2,2,0), direction +x: exact exit at an
    // irrational parameter; the ceiling-root estimate keeps the hit.
    let c = Cylinder::new(3, -100, 100);
    let h = c.intersect(Ray::new(v(2, 2, 0), v(1, 0, 0)));
    assert!(hit_equals(h, 1, 2));
}

#[test]
fn sphere_texture_and_outline() {
    let s = Sphere::new(v(1, 2, 3), 10).with_texture(SphereTexture::RandomFuzz(42));
    assert_eq!(s.texture, SphereTexture::RandomFuzz(42));
    assert_eq!(s.bounding_box().min, v(-9, -8, -7));
    assert_eq!(s.bounding_box().max, v(11, 12, 13));
    let o = OutlineSphere::new(v(0, 0, 0), 100);
    assert!(o.contains(v(99, 0, 0), 0));
    let h = o.intersect(Ray::new(v(-300, 0, 0), v(1, 0, 0)));
    assert!(hit_equals(h, 200, 1));
}

#[test]
fn cylinder_contains_radial_and_z() {
    let c = Cylinder::new(50, 0, 100);
    assert!(c.contains(v(30, 40, 50), 0));
    assert!(!c.contains(v(31, 40, 50), 0));
    assert!(!c.contains(v(30, 40, 101), 0));
    assert!(c.contains(v(30, 40, 101), 1));
}

#[test]
fn cylinder_hit_head_on() {
    let c = Cylinder::new(100, -100, 100);
    let h = c.intersect(Ray::new(v(-300, 0, 0), v(1, 0, 0)));
    assert!(hit_equals(h, 200, 1));
}

#[test]
fn cylinder_miss_axis_parallel() {
    let c = Cylinder::new(100, -100, 100);
    let h = c.intersect(Ray::new(v(0, 0, -300), v(0, 0, 1)));
    assert_eq!(h, Hit::Miss);
}

#[test]
fn cylinder_miss_above_span() {
    let c = Cylinder::new(100, -100, 100);
    let h = c.intersect(Ray::new(v(-300, 0, 200), v(1, 0, 0)));
    assert_eq!(h, Hit::Miss);
}

#[test]
fn cylinder_texture_constructors() {
    assert_eq!(CylinderTexture::outline(), CylinderTexture::Outline);
    assert_eq!(CylinderTexture::striped(36), CylinderTexture::Striped(36));
    let c = Cylinder::new(5, 0, 10).with_texture(CylinderTexture::Striped(4));
    assert_eq!(c.texture, CylinderTexture::Striped(4));
    assert_eq!(c.bounding_box(), BBox::new(v(-5, -5, 0), v(5, 5, 10)));
}

#[test]
fn matrix_identity_and_translate() {
    let p = v(10, 20, 30);
    assert_eq!(Matrix::identity().mul_position(p), p);
    let t = Matrix::translate(v(1, -2, 3));
    assert_eq!(t.mul_position(p), v(11, 18, 33));
}

#[test]
fn matrix_scale_fixed_point() {
    // A scale factor of one half is half the fixed-point unit.
    let s = Matrix::scale(v(32768, 32768, 131072));
    assert_eq!(s.mul_position(v(10, 20, 30)), v(5, 10, 60));
    // Truncation goes toward zero on both signs.
    assert_eq!(s.mul_position(v(3, -3, 0)), v(1, -1, 0));
}

#[test]
fn matrix_compose_translations() {
    let a = Matrix::translate(v(1, 2, 3));
    let m = a.translated(v(10, 20, 30));
    assert_eq!(m.mul_position(v(0, 0, 0)), v(11, 22, 33));
}

#[test]
fn function_direction_and_clamp() {
    assert!(height_contains(Direction::Below, 5, 10));
    assert!(!height_contains(Direction::Below, 10, 10));
    assert!(height_contains(Direction::Above, 15, 10));
    assert!(!height_contains(Direction::Above, 10, 10));
    assert_eq!(clamp_height(50, 0, 10), 10);
    assert_eq!(clamp_height(-5, 0, 10), 0);
    assert_eq!(clamp_height(7, 0, 10), 7);
    assert_eq!(FunctionTexture::Grid, FunctionTexture::Grid);
}

#[test]
fn cube_inside_origin_always_exits() {
    // A ray from strictly inside the cube meets the surface at a positive
    // parameter, whichever direction it points.
    let c = Cube::new(v(-100, -100, -100), v(100, 100, 100));
    let dirs = vec![
        v(1, 0, 0),
        v(-1, 0, 0),
        v(0, 1, 0),
        v(0, -1, 0),
        v(0, 0, 1),
        v(0, 0, -1),
        v(3, -2, 7),
    ];
    for d in dirs {
        let h = c.intersect(Ray::new(v(17, -23, 5), d));
        match h {
            Hit::At(t) => assert!(t.num > 0 && t.den > 0),
            Hit::Miss => panic!("ray from inside must leave the cube"),
        }
    }
}

#[test]
fn cube_stays_inside_until_exit() {
    // Halfway to the exit hit the ray is still inside the cube.
    let c = Cube::new(v(-100, -100, -100), v(100, 100, 100));
    let o = v(17, -23, 5);
    let d = v(3, -2, 7);
    match c.intersect(Ray::new(o, d)) {
        Hit::At(t) => {
            let half_den = 2 * t.den;
            let mid = v(
                o.x + ((d.x as i128 * t.num) / half_den) as i64,
                o.y + ((d.y as i128 * t.num) / half_den) as i64,
                o.z + ((d.z as i128 * t.num) / half_den) as i64,
            );
            assert!(c.contains(mid, 0));
        }
        Hit::Miss => panic!("ray from inside must leave the cube"),
    }
}

#[test]
fn lattice_cell_snaps_to_nearest_multiple() {
    assert_eq!(lattice_cell(0, 10), 0);
    assert_eq!(lattice_cell(4, 10), 0);
    assert_eq!(lattice_cell(5, 10), 10);
    assert_eq!(lattice_cell(14, 10), 10);
    assert_eq!(lattice_cell(-4, 10), 0);
    assert_eq!(lattice_cell(-5, 10), 0);
    assert_eq!(lattice_cell(-6, 10), -10);
    assert_eq!(lattice_cell(-14, 10), -10);
}
