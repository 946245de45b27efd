use vstd::prelude::*;
use crate::camera::{base_change_spec, Camera};
use crate::color::hex_spec;
use crate::shading::{cast_ray, cast_ray_spec, lights_ok, scene_ok, Object};
use crate::vector::{bounded, div_toward_zero, div_trunc, normalize_spec, Vec3, SCALE};

verus! {

/// `tan(fov / 2)` for a 60 degree field of view, fixed-point.
pub const TAN_HALF_FOV: i64 = 577;

/// Largest width or height of an image.
pub const MAX_SIDE: usize = 65536;

/// Camera-space direction through pixel `(x, y)` of a `width` by `height`
/// image, before normalising: screen x grows rightward, screen y upward, and
/// the aspect ratio and field of view are applied.
pub open spec fn screen_dir(width: int, height: int, x: int, y: int) -> Vec3 {
    Vec3 {
        x: div_trunc((2 * x - width) * TAN_HALF_FOV, height) as i64,
        y: div_trunc((height - 2 * y) * TAN_HALF_FOV, height) as i64,
        z: (-SCALE) as i64,
    }
}

/// World-space unit direction of the primary ray through pixel `(x, y)`.
pub open spec fn pixel_dir(cam: Camera, width: int, height: int, x: int, y: int) -> Vec3 {
    base_change_spec(cam, normalize_spec(screen_dir(width, height, x, y)))
}

/// Packed colour of pixel `(x, y)`.
pub open spec fn pixel_spec(
    cam: Camera,
    width: int,
    height: int,
    x: int,
    y: int,
    objects: Seq<Object>,
    lights: Seq<Vec3>,
    ambient: int,
) -> u32 {
    hex_spec(cast_ray_spec(cam.eye, pixel_dir(cam, width, height, x, y), objects, lights, 0, ambient)) as u32
}

/// Fill the row-major `framebuffer` of `width` by `height` pixels: each
/// pixel gets the packed colour of the primary ray through it.
pub fn render(
    framebuffer: &mut Vec<u32>,
    width: usize,
    height: usize,
    objects: &[Object],
    camera: &Camera,
    light_positions: &[Vec3],
    light_intensity: i64,
)
    requires
        0 < width <= MAX_SIDE,
        0 < height <= MAX_SIDE,
        width * height <= usize::MAX,
        old(framebuffer)@.len() == width * height,
        camera.well_formed(),
        scene_ok(objects@),
        lights_ok(light_positions@),
        0 <= light_intensity <= SCALE,
    ensures
        final(framebuffer)@.len() == width * height,
        forall|k: int| 0 <= k < width * height ==> #[trigger] final(framebuffer)@[k] == pixel_spec(
            *camera, width as int, height as int, k % width as int, k / width as int,
            objects@, light_positions@, light_intensity as int),
{
    let total: usize = width * height;
    let mut k: usize = 0;
    while k < total
        invariant
            0 < width <= MAX_SIDE,
            0 < height <= MAX_SIDE,
            total == width * height,
            k <= total,
            framebuffer@.len() == total,
            camera.well_formed(),
            scene_ok(objects@),
            lights_ok(light_positions@),
            0 <= light_intensity <= SCALE,
            forall|j: int| 0 <= j < k ==> #[trigger] framebuffer@[j] == pixel_spec(
                *camera, width as int, height as int, j % width as int, j / width as int,
                objects@, light_positions@, light_intensity as int),
        decreases total - k,
    {
        let x: usize = k % width;
        let y: usize = k / width;
        proof {
            vstd::arithmetic::div_mod::lemma_div_is_ordered(k as int, total as int, width as int);
            vstd::arithmetic::div_mod::lemma_div_by_multiple(height as int, width as int);
            assert(total as int == height * width) by (nonlinear_arith) requires total == width * height;
            vstd::arithmetic::div_mod::lemma_mod_bound(k as int, width as int);
            assert(y <= height);
            assert(x < width);
        }
        let w: i64 = width as i64;
        let h: i64 = height as i64;
        let xi: i64 = x as i64;
        let yi: i64 = y as i64;
        proof {
            assert(-0x20000 * TAN_HALF_FOV <= (2 * xi - w) * TAN_HALF_FOV <= 0x20000 * TAN_HALF_FOV)
                by (nonlinear_arith) requires 0 <= xi < w, 0 < w <= 0x10000;
            assert(-0x20000 * TAN_HALF_FOV <= (h - 2 * yi) * TAN_HALF_FOV <= 0x20000 * TAN_HALF_FOV)
                by (nonlinear_arith) requires 0 <= yi <= h, 0 < h <= 0x10000;
            lemma_quotient_within((2 * xi - w) * TAN_HALF_FOV, h as int);
            lemma_quotient_within((h - 2 * yi) * TAN_HALF_FOV, h as int);
        }
        let sx: i64 = div_toward_zero((2 * xi - w) * TAN_HALF_FOV, h);
        let sy: i64 = div_toward_zero((h - 2 * yi) * TAN_HALF_FOV, h);
        let screen = Vec3::new(sx, sy, -SCALE);
        let ray_direction = camera.base_change(&screen.normalize());
        let color = cast_ray(&camera.eye, &ray_direction, objects, light_positions, 0, light_intensity);
        let packed: u32 = color.to_hex();
        framebuffer.set(k, packed);
        k = k + 1;
    }
}

proof fn lemma_quotient_within(a: int, h: int)
    requires
        -0x20000 * TAN_HALF_FOV <= a <= 0x20000 * TAN_HALF_FOV,
        h > 0,
    ensures
        -0x20000 * TAN_HALF_FOV <= div_trunc(a, h) <= 0x20000 * TAN_HALF_FOV,
{
    if a >= 0 {
        vstd::arithmetic::div_mod::lemma_div_is_ordered_by_denominator(a, 1, h);
        vstd::arithmetic::div_mod::lemma_div_pos_is_pos(a, h);
    } else {
        vstd::arithmetic::div_mod::lemma_div_is_ordered_by_denominator(-a, 1, h);
        vstd::arithmetic::div_mod::lemma_div_pos_is_pos(-a, h);
    }
}

} // verus!
