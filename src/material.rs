use vstd::prelude::*;
use crate::color::{Color, FACTOR_LIMIT};

verus! {

/// Bound on a refractive index, in fixed-point units.
pub const IOR_LIMIT: i64 = 1000000;

/// Bound on a specular exponent.
pub const SPECULAR_LIMIT: u32 = 1000;

/// Shading parameters of a surface. Albedo weights and the refractive index
/// are fixed-point; the specular exponent is a whole number.
#[derive(Clone, Copy, Debug)]
pub struct Material {
    pub diffuse: Color,
    pub specular: u32,
    pub albedo: [i64; 4],
    pub refractive_index: i64,
    pub emission: Color,
    pub is_emissive: bool,
}

impl Material {
    /// Weights and index lie in the ranges that shading computes with.
    pub open spec fn well_formed(&self) -> bool {
        &&& 0 <= self.albedo[0] <= FACTOR_LIMIT
        &&& 0 <= self.albedo[1] <= FACTOR_LIMIT
        &&& 0 <= self.albedo[2] <= FACTOR_LIMIT
        &&& 0 <= self.albedo[3] <= FACTOR_LIMIT
        &&& 0 <= self.refractive_index <= IOR_LIMIT
        &&& self.specular <= SPECULAR_LIMIT
    }

    pub fn new(
        diffuse: Color,
        specular: u32,
        albedo: [i64; 4],
        refractive_index: i64,
        emission: Color,
        is_emissive: bool,
    ) -> (m: Material)
        ensures
            m == (Material { diffuse, specular, albedo, refractive_index, emission, is_emissive }),
    {
        Material { diffuse, specular, albedo, refractive_index, emission, is_emissive }
    }

    /// A black, non-emissive surface with all weights zero.
    pub fn black() -> (m: Material)
        ensures
            m.diffuse == (Color { r: 0, g: 0, b: 0 }),
            m.emission == (Color { r: 0, g: 0, b: 0 }),
            m.specular == 0,
            m.albedo@ == seq![0i64, 0, 0, 0],
            m.refractive_index == 0,
            !m.is_emissive,
            m.well_formed(),
    {
        let m = Material {
            diffuse: Color::new(0, 0, 0),
            specular: 0,
            albedo: [0, 0, 0, 0],
            refractive_index: 0,
            emission: Color::black(),
            is_emissive: false,
        };
        assert(m.albedo@ =~= seq![0i64, 0, 0, 0]);
        m
    }
}

} // verus!
