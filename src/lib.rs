//! A ray tracer over axis-aligned cubes in fixed-point arithmetic: slab
//! intersection, shading with shadows, Schlick reflectance, emission and a
//! day/night sky, a pinhole camera, and the scene's procedural layouts.

pub mod color;
pub mod vector;
pub mod material;
pub mod ray_intersect;
pub mod cube;
pub mod shading;
pub mod camera;
pub mod render;
pub mod scene;
