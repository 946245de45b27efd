use refractor::color::Color;
use refractor::cube::Cube;
use refractor::material::Material;
use refractor::ray_intersect::{Fraction, Intersect, RayIntersect};
use refractor::vector::{isqrt, Vec3};

fn sand() -> Material {
    Material::new(Color::new(237, 201, 175), 1, [500, 100, 0, 0], 0, Color::black(), false)
}

fn unit_cube() -> Cube {
    Cube::new(Vec3::new(0, 0, 0), 2000, sand())
}

#[test]
fn ray_along_z_hits_near_face() {
    let r = unit_cube().ray_intersect(&Vec3::new(0, 0, 5000), &Vec3::new(0, 0, -1000));
    assert!(r.is_intersecting);
    assert_eq!(r.distance, Fraction { num: 8000, den: 2000 });
    assert_eq!(r.normal, Vec3::new(0, 0, 1000));
    assert_eq!(r.point, Vec3::new(0, 0, 1000));
}

#[test]
fn ray_along_negative_x_hits_near_face() {
    let r = unit_cube().ray_intersect(&Vec3::new(-3000, 0, 0), &Vec3::new(1000, 0, 0));
    assert!(r.is_intersecting);
    assert_eq!(r.distance, Fraction { num: 4000, den: 2000 });
    assert_eq!(r.normal, Vec3::new(-1000, 0, 0));
    assert_eq!(r.point, Vec3::new(-1000, 0, 0));
}

#[test]
fn ray_along_y_hits_top_face() {
    let r = unit_cube().ray_intersect(&Vec3::new(0, 5000, 0), &Vec3::new(0, -500, 0));
    assert!(r.is_intersecting);
    assert_eq!(r.distance, Fraction { num: 8000, den: 1000 });
    assert_eq!(r.normal, Vec3::new(0, 1000, 0));
    assert_eq!(r.point, Vec3::new(0, 1000, 0));
}

#[test]
fn parallel_ray_outside_slab_misses() {
    let r = unit_cube().ray_intersect(&Vec3::new(5000, 0, 5000), &Vec3::new(0, 0, -1000));
    assert!(!r.is_intersecting);
    assert_eq!(r.distance, Fraction { num: 0, den: 1 });
    assert_eq!(r.normal, Vec3::new(0, 0, 0));
}

#[test]
fn ray_heading_away_misses() {
    let r = unit_cube().ray_intersect(&Vec3::new(0, 0, 5000), &Vec3::new(0, 0, 1000));
    assert!(!r.is_intersecting);
}

#[test]
fn oblique_ray_outside_misses() {
    let r = unit_cube().ray_intersect(&Vec3::new(3000, 0, 5000), &Vec3::new(0, 100, -1000));
    assert!(!r.is_intersecting);
}

#[test]
fn parallel_ray_inside_slab_is_unconstrained() {
    let a = unit_cube().ray_intersect(&Vec3::new(500, 0, 5000), &Vec3::new(0, 0, -1000));
    let b = unit_cube().ray_intersect(&Vec3::new(0, 0, 5000), &Vec3::new(0, 0, -1000));
    assert!(a.is_intersecting);
    assert_eq!(a.distance, b.distance);
    assert_eq!(a.normal, b.normal);
    assert_eq!(a.point, Vec3::new(500, 0, 1000));
}

#[test]
fn ray_on_slab_boundary_is_unconstrained() {
    let r = unit_cube().ray_intersect(&Vec3::new(1000, 1000, 5000), &Vec3::new(0, 0, -1000));
    assert!(r.is_intersecting);
    assert_eq!(r.distance, Fraction { num: 8000, den: 2000 });
}

#[test]
fn origin_inside_reports_exit() {
    let r = unit_cube().ray_intersect(&Vec3::new(0, 0, 0), &Vec3::new(0, 0, -1000));
    assert!(r.is_intersecting);
    assert_eq!(r.distance, Fraction { num: 2000, den: 2000 });
    assert_eq!(r.point, Vec3::new(0, 0, -1000));
}

#[test]
fn odd_size_planes_are_exact() {
    let c = Cube::new(Vec3::new(0, 0, 0), 1, sand());
    let r = c.ray_intersect(&Vec3::new(0, 0, 10), &Vec3::new(0, 0, -1));
    assert!(r.is_intersecting);
    assert_eq!(r.distance, Fraction { num: 19, den: 2 });
}

#[test]
fn diagonal_ray_enters_latest_face() {
    let r = unit_cube().ray_intersect(&Vec3::new(3000, 0, 5000), &Vec3::new(-1000, 0, -1000));
    assert!(r.is_intersecting);
    assert_eq!(r.normal, Vec3::new(0, 0, 1000));
    assert_eq!(r.distance, Fraction { num: 8000, den: 2000 });
    assert_eq!(r.point, Vec3::new(-1000, 0, 1000));
}

#[test]
fn empty_record_is_a_miss() {
    let e = Intersect::empty();
    assert!(!e.is_intersecting);
    assert_eq!(e.distance, Fraction { num: 0, den: 1 });
    assert_eq!(e.point, Vec3::new(0, 0, 0));
    assert_eq!(e.normal, Vec3::new(0, 0, 0));
}

#[test]
fn new_record_is_a_hit() {
    let i = Intersect::new(Vec3::new(1, 2, 3), Vec3::new(0, 1000, 0), Fraction { num: 3, den: 4 }, sand());
    assert!(i.is_intersecting);
    assert_eq!(i.point, Vec3::new(1, 2, 3));
    assert_eq!(i.distance, Fraction { num: 3, den: 4 });
}

#[test]
fn integer_square_roots() {
    assert_eq!(isqrt(0), 0);
    assert_eq!(isqrt(15), 3);
    assert_eq!(isqrt(16), 4);
    assert_eq!(isqrt(1_000_000), 1000);
}

#[test]
fn normalize_rescales_to_unit() {
    assert_eq!(Vec3::new(3, 4, 0).normalize(), Vec3::new(600, 800, 0));
    assert_eq!(Vec3::new(0, -7, 0).normalize(), Vec3::new(0, -1000, 0));
    assert_eq!(Vec3::new(0, 0, 0).normalize(), Vec3::new(0, 0, 0));
}

#[test]
fn vector_products() {
    let a = Vec3::new(1, 2, 3);
    let b = Vec3::new(4, 5, 6);
    assert_eq!(a.dot(&b), 32);
    assert_eq!(a.cross(&b), Vec3::new(-3, 6, -3));
    assert_eq!(a.add(&b), Vec3::new(5, 7, 9));
    assert_eq!(a.sub(&b), Vec3::new(-3, -3, -3));
}
