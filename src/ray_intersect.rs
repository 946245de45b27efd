use vstd::prelude::*;
use crate::material::Material;
use crate::vector::{bounded, Vec3, LIMIT, SCALE};

verus! {

/// A ray parameter held exactly as `num / den`; `den` is positive.
#[derive(Clone, Copy, Debug, PartialEq, Eq, Structural)]
pub struct Fraction {
    pub num: i64,
    pub den: i64,
}

/// `a <= b` for fractions with positive denominators.
pub open spec fn frac_le(a: Fraction, b: Fraction) -> bool {
    a.num * b.den <= b.num * a.den
}

/// `a < b` for fractions with positive denominators.
pub open spec fn frac_lt(a: Fraction, b: Fraction) -> bool {
    a.num * b.den < b.num * a.den
}

/// What a ray found where it met a surface.
#[derive(Clone, Copy, Debug)]
pub struct Intersect {
    pub point: Vec3,
    pub normal: Vec3,
    pub distance: Fraction,
    pub material: Material,
    pub is_intersecting: bool,
}

pub open spec fn empty_spec() -> Intersect {
    Intersect {
        point: Vec3 { x: 0, y: 0, z: 0 },
        normal: Vec3 { x: 0, y: 0, z: 0 },
        distance: Fraction { num: 0, den: 1 },
        material: Material {
            diffuse: crate::color::black_spec(),
            specular: 0,
            albedo: [0, 0, 0, 0],
            refractive_index: 0,
            emission: crate::color::black_spec(),
            is_emissive: false,
        },
        is_intersecting: false,
    }
}

/// A ray that the intersection routines accept: its origin lies in the
/// scene's range, and its direction is at most twice that range long per axis.
pub open spec fn ray_ok(origin: Vec3, direction: Vec3) -> bool {
    bounded(origin, 2 * LIMIT) && bounded(direction, 4 * LIMIT)
}

/// The facts that shading relies on for a reported hit: a distance that is
/// a proper non-negative fraction, a point inside the scene's range, a normal
/// no longer than `SCALE` and a usable material.
pub open spec fn hit_facts(i: Intersect) -> bool {
    &&& i.distance.den > 0
    &&& 0 <= i.distance.num <= 8 * LIMIT
    &&& i.distance.den <= 8 * LIMIT
    &&& bounded(i.point, 2 * LIMIT - 1)
    &&& bounded(i.normal, SCALE as int)
    &&& i.material.well_formed()
}

impl Intersect {
    pub fn new(point: Vec3, normal: Vec3, distance: Fraction, material: Material) -> (i: Intersect)
        ensures
            i == (Intersect { point, normal, distance, material, is_intersecting: true }),
    {
        Intersect { point, normal, distance, material, is_intersecting: true }
    }

    /// The record of a miss.
    pub fn empty() -> (i: Intersect)
        ensures
            i == empty_spec(),
    {
        let i = Intersect {
            point: Vec3::new(0, 0, 0),
            normal: Vec3::new(0, 0, 0),
            distance: Fraction { num: 0, den: 1 },
            material: Material::black(),
            is_intersecting: false,
        };
        assert(i.material.albedo =~= empty_spec().material.albedo);
        i
    }
}

/// A shape that a ray can be traced against.
pub trait RayIntersect {
    spec fn well_formed(&self) -> bool;

    /// What a ray from `origin` along `direction` finds on this shape.
    spec fn intersect_spec(&self, origin: Vec3, direction: Vec3) -> Intersect;

    fn ray_intersect(&self, ray_origin: &Vec3, ray_direction: &Vec3) -> (r: Intersect)
        requires
            self.well_formed(),
            ray_ok(*ray_origin, *ray_direction),
        ensures
            r == self.intersect_spec(*ray_origin, *ray_direction),
            r.is_intersecting ==> hit_facts(r),
    ;
}

} // verus!
