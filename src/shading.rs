use vstd::prelude::*;
use crate::color::{add_spec, black_spec, interpolate_color, interpolate_spec, scale_spec, Color};
use crate::cube::{
    axis_normal, lemma_axis_ray_hits_near_face, lemma_outside_slab_misses, on_axis, stays_outside, Cube,
};
use crate::material::Material;
use crate::ray_intersect::{empty_spec, frac_le, frac_lt, hit_facts, ray_ok, Fraction, Intersect, RayIntersect};
use crate::vector::{bounded, div_toward_zero, div_trunc, dot_spec, normalize_spec, vadd, vsub, Vec3, LIMIT, SCALE};

verus! {

/// How far, in fixed-point units, a shadow ray starts off its surface.
/// One unit (a thousandth of a world unit) is the finest step that
/// fixed-point coordinates can take, so this is coarser than a 1e-4 bias.
pub const ORIGIN_BIAS: i64 = 1;

/// Fixed-point brightness of an unshadowed light.
pub const LIGHT_GAIN: i64 = 1500;

/// Fixed-point day/night intensity when the sun is at or below the horizon.
pub const MIN_INTENSITY: i64 = 200;

/// Fixed-point day/night intensity at full day.
pub const MAX_INTENSITY: i64 = 1000;

/// Deepest recursion that still traces a ray.
pub const MAX_DEPTH: u32 = 3;

/// Exponent of the angle term in Schlick's approximation.
pub const FRESNEL_POWER: u32 = 5;

/// A shape of the scene, and whether it stands for a light.
#[derive(Clone, Copy, Debug)]
pub enum Object {
    Cube(Cube, bool),
}

impl RayIntersect for Object {
    open spec fn well_formed(&self) -> bool {
        match self {
            Object::Cube(c, _) => c.well_formed(),
        }
    }

    open spec fn intersect_spec(&self, origin: Vec3, direction: Vec3) -> Intersect {
        match self {
            Object::Cube(c, _) => c.intersect_spec(origin, direction),
        }
    }

    fn ray_intersect(&self, ray_origin: &Vec3, ray_direction: &Vec3) -> (r: Intersect) {
        match self {
            Object::Cube(c, _) => c.ray_intersect(ray_origin, ray_direction),
        }
    }
}

/// Every object of the scene is well formed.
pub open spec fn scene_ok(objects: Seq<Object>) -> bool {
    forall|i: int| 0 <= i < objects.len() ==> #[trigger] objects[i].well_formed()
}

/// Every light lies within twice the scene's range.
pub open spec fn lights_ok(lights: Seq<Vec3>) -> bool {
    forall|i: int| 0 <= i < lights.len() ==> bounded(#[trigger] lights[i], 2 * LIMIT)
}

/// One component of the bias vector: the sign of the normal's component,
/// times the bias. Rounding away from zero keeps every component of the
/// normal that is not zero, however small.
pub open spec fn bias_component(c: int) -> int {
    if c > 0 { ORIGIN_BIAS as int } else if c < 0 { -ORIGIN_BIAS } else { 0 }
}

/// The normal scaled to the bias, rounded away from zero per component.
pub open spec fn bias_spec(normal: Vec3) -> Vec3 {
    Vec3 {
        x: bias_component(normal.x as int) as i64,
        y: bias_component(normal.y as int) as i64,
        z: bias_component(normal.z as int) as i64,
    }
}

/// The hit point moved off the surface by the bias along the normal: back
/// through the surface when `direction` points into it, out of it otherwise.
/// The side is read against the bias vector itself, so that the move never
/// goes against `direction`.
pub open spec fn offset_spec(point: Vec3, normal: Vec3, direction: Vec3) -> Vec3 {
    let off = bias_spec(normal);
    if dot_spec(direction, off) < 0 { vsub(point, off) } else { vadd(point, off) }
}

/// `incident` mirrored about the unit (length `SCALE`) `normal`.
pub open spec fn reflect_spec(incident: Vec3, normal: Vec3) -> Vec3 {
    let k = 2 * dot_spec(incident, normal);
    let s2 = SCALE * SCALE;
    Vec3 {
        x: (incident.x - div_trunc(k * normal.x, s2)) as i64,
        y: (incident.y - div_trunc(k * normal.y, s2)) as i64,
        z: (incident.z - div_trunc(k * normal.z, s2)) as i64,
    }
}

/// Fixed-point shadow of an occluder met at parameter `t` of a ray whose
/// parameter 1 is the light: `1 - min(1, t^2)`, rounded.
pub open spec fn shadow_of(t: Fraction) -> int {
    let q = (t.num * t.num * SCALE) / (t.den * t.den);
    SCALE - (if q > SCALE { SCALE as int } else { q })
}

/// An object met strictly before the light.
pub open spec fn occludes(r: Intersect) -> bool {
    r.is_intersecting && r.distance.num < r.distance.den
}

/// Shadow cast by the first object of `objects`, in order, that lies between
/// the ray's origin and the light; zero when none does.
pub open spec fn first_shadow(objects: Seq<Object>, o: Vec3, d: Vec3) -> int
    decreases objects.len(),
{
    if objects.len() == 0 {
        0
    } else if occludes(objects[0].intersect_spec(o, d)) {
        shadow_of(objects[0].intersect_spec(o, d).distance)
    } else {
        first_shadow(objects.drop_first(), o, d)
    }
}

/// The ray toward the light runs from the offset hit point along
/// `light - point`, so that the light sits at parameter 1.
pub open spec fn shadow_spec(hit: Intersect, light: Vec3, objects: Seq<Object>) -> int {
    let d = vsub(light, hit.point);
    first_shadow(objects, offset_spec(hit.point, hit.normal, d), d)
}

/// Fixed-point day/night intensity for a sun at height `y`.
pub open spec fn ambient_spec(y: int) -> int {
    let h = if y + SCALE <= 0 { 0 } else { (y + SCALE) / 10 };
    let f = if h > SCALE { SCALE as int } else { h };
    MIN_INTENSITY + (MAX_INTENSITY - MIN_INTENSITY) * f / SCALE as int
}

pub open spec fn sky_day() -> Color {
    Color { r: 135, g: 206, b: 235 }
}

pub open spec fn ground_day() -> Color {
    Color { r: 222, g: 184, b: 135 }
}

pub open spec fn sky_night() -> Color {
    Color { r: 25, g: 25, b: 112 }
}

pub open spec fn ground_night() -> Color {
    Color { r: 50, g: 50, b: 50 }
}

/// The colour returned past the deepest recursion.
pub open spec fn fallback_sky() -> Color {
    Color { r: 68, g: 142, b: 228 }
}

/// Blend from ground (ray straight down) to sky (straight up), each of them
/// blended from night to day by `intensity`.
pub open spec fn skybox_spec(dir_y: int, intensity: int) -> Color {
    let sky = interpolate_spec(sky_night(), sky_day(), intensity);
    let ground = interpolate_spec(ground_night(), ground_day(), intensity);
    interpolate_spec(ground, sky, (dir_y + SCALE) / 2)
}

/// `x^k` in fixed point, rounding down after each product.
pub open spec fn fixed_pow(x: int, k: nat) -> int
    decreases k,
{
    if k == 0 { SCALE as int } else { fixed_pow(x, (k - 1) as nat) * x / SCALE as int }
}

/// Schlick's approximation: `r0 + (1 - r0)(1 - cos)^5` with
/// `r0 = ((1 - n) / (1 + n))^2`, all fixed-point. At `n = -1`, where the
/// quotient has no value, the surface is taken as fully transparent: zero.
pub open spec fn fresnel_spec(cos_theta: int, n: int) -> int {
    if SCALE + n == 0 {
        0
    } else {
        let r0 = (SCALE - n) * (SCALE - n) * SCALE / ((SCALE + n) * (SCALE + n));
        r0 + div_trunc((SCALE - r0) * fixed_pow(SCALE - cos_theta, FRESNEL_POWER as nat), SCALE as int)
    }
}

pub proof fn lemma_fixed_pow_range(x: int, k: nat)
    requires
        0 <= x <= SCALE,
    ensures
        0 <= fixed_pow(x, k) <= SCALE,
    decreases k,
{
    if k > 0 {
        lemma_fixed_pow_range(x, (k - 1) as nat);
        let p = fixed_pow(x, (k - 1) as nat);
        assert(0 <= p * x <= SCALE * SCALE) by (nonlinear_arith)
            requires 0 <= p <= SCALE, 0 <= x <= SCALE;
        vstd::arithmetic::div_mod::lemma_div_is_ordered(p * x, SCALE * SCALE, SCALE as int);
        vstd::arithmetic::div_mod::lemma_div_by_multiple(SCALE as int, SCALE as int);
        vstd::arithmetic::div_mod::lemma_div_pos_is_pos(p * x, SCALE as int);
    }
}

/// `x^k` in fixed point, rounding down after each product.
pub fn fixed_power(x: i64, k: u32) -> (p: i64)
    requires
        0 <= x <= SCALE,
    ensures
        p == fixed_pow(x as int, k as nat),
        0 <= p <= SCALE,
{
    let mut p: i64 = SCALE;
    let mut i: u32 = 0;
    while i < k
        invariant
            0 <= x <= SCALE,
            i <= k,
            p == fixed_pow(x as int, i as nat),
            0 <= p <= SCALE,
        decreases k - i,
    {
        proof {
            lemma_fixed_pow_range(x as int, (i + 1) as nat);
            assert(0 <= p * x <= SCALE * SCALE) by (nonlinear_arith)
                requires 0 <= p <= SCALE, 0 <= x <= SCALE;
        }
        p = p * x / SCALE;
        i = i + 1;
    }
    p
}

fn bias_of(c: i64) -> (b: i64)
    ensures
        b == bias_component(c as int),
{
    if c > 0 {
        ORIGIN_BIAS
    } else if c < 0 {
        -ORIGIN_BIAS
    } else {
        0
    }
}

/// The start of a ray that leaves a hit point toward `direction` without
/// meeting its own surface: the point moved by the bias along the normal, to
/// the side that `direction` heads for.
pub fn offset_origin(intersect: &Intersect, direction: &Vec3) -> (o: Vec3)
    requires
        bounded(intersect.point, 2 * LIMIT - 1),
        bounded(intersect.normal, SCALE as int),
        bounded(*direction, 0x4000_0000),
    ensures
        o == offset_spec(intersect.point, intersect.normal, *direction),
        intersect.normal != (Vec3 { x: 0, y: 0, z: 0 }) ==> o != intersect.point,
        dot_spec(vsub(o, intersect.point), *direction) >= 0,
        bounded(o, 2 * LIMIT),
{
    let n = intersect.normal;
    let off = Vec3 { x: bias_of(n.x), y: bias_of(n.y), z: bias_of(n.z) };
    let p = intersect.point;
    if direction.dot(&off) < 0 {
        let o = p.sub(&off);
        assert(vsub(o, p) == Vec3 { x: (-off.x) as i64, y: (-off.y) as i64, z: (-off.z) as i64 });
        let d = *direction;
        assert(dot_spec(vsub(o, p), d) == -dot_spec(d, off)) by (nonlinear_arith)
            requires vsub(o, p) == (Vec3 { x: (-off.x) as i64, y: (-off.y) as i64, z: (-off.z) as i64 }),
                -1 <= off.x <= 1, -1 <= off.y <= 1, -1 <= off.z <= 1;
        o
    } else {
        let o = p.add(&off);
        assert(vsub(o, p) == off);
        let d = *direction;
        assert(dot_spec(vsub(o, p), d) == dot_spec(d, off)) by (nonlinear_arith)
            requires vsub(o, p) == off;
        o
    }
}

/// `incident` mirrored about the unit `normal`.
pub fn reflect(incident: &Vec3, normal: &Vec3) -> (r: Vec3)
    requires
        bounded(*incident, SCALE as int),
        bounded(*normal, SCALE as int),
    ensures
        r == reflect_spec(*incident, *normal),
        bounded(r, 7 * SCALE),
{
    proof {
        crate::vector::lemma_dot_bound(*incident, *normal, SCALE as int);
    }
    let k: i64 = 2 * incident.dot(normal);
    proof {
        lemma_reflect_term(k as int, normal.x as int);
        lemma_reflect_term(k as int, normal.y as int);
        lemma_reflect_term(k as int, normal.z as int);
    }
    Vec3 {
        x: incident.x - div_toward_zero(k * normal.x, SCALE * SCALE),
        y: incident.y - div_toward_zero(k * normal.y, SCALE * SCALE),
        z: incident.z - div_toward_zero(k * normal.z, SCALE * SCALE),
    }
}

proof fn lemma_reflect_term(k: int, n: int)
    requires
        -6 * (SCALE * SCALE) <= k <= 6 * (SCALE * SCALE),
        -SCALE <= n <= SCALE,
    ensures
        -6 * (SCALE * SCALE) * SCALE <= k * n <= 6 * (SCALE * SCALE) * SCALE,
        -6 * SCALE <= div_trunc(k * n, SCALE * SCALE) <= 6 * SCALE,
{
    let s2 = SCALE * SCALE;
    let m = 6 * s2 * SCALE;
    assert(-m <= k * n <= m) by (nonlinear_arith)
        requires -6 * s2 <= k <= 6 * s2, -SCALE <= n <= SCALE, m == 6 * s2 * SCALE, s2 > 0;
    vstd::arithmetic::div_mod::lemma_div_by_multiple(6 * SCALE, s2);
    assert(m == (6 * SCALE) * s2) by (nonlinear_arith) requires m == 6 * s2 * SCALE;
    if k * n >= 0 {
        vstd::arithmetic::div_mod::lemma_div_is_ordered(k * n, m, s2);
        vstd::arithmetic::div_mod::lemma_div_pos_is_pos(k * n, s2);
    } else {
        vstd::arithmetic::div_mod::lemma_div_is_ordered(-(k * n), m, s2);
        vstd::arithmetic::div_mod::lemma_div_pos_is_pos(-(k * n), s2);
    }
}

/// Shadow of an occluder at parameter `t` in `[0, 1)`.
fn shadow_at(t: Fraction) -> (s: i64)
    requires
        0 <= t.num < t.den <= 8 * LIMIT,
    ensures
        s == shadow_of(t),
        0 <= s <= SCALE,
{
    let n: u128 = t.num as u128;
    let d: u128 = t.den as u128;
    proof {
        assert(0 <= n * n <= d * d) by (nonlinear_arith) requires 0 <= n < d;
        assert(d * d <= 0x40_0000_0000_0000) by (nonlinear_arith) requires 0 < d <= 0x800_0000;
        assert(d * d > 0) by (nonlinear_arith) requires d > 0;
        vstd::arithmetic::div_mod::lemma_div_pos_is_pos(n * n * 1000, d * d);
    }
    let q: u128 = n * n * 1000 / (d * d);
    if q > 1000 {
        0
    } else {
        1000 - q as i64
    }
}

/// Fixed-point shadow on `intersect` from the light at `light_position`:
/// `1 - min(1, t^2)` for the first object, in list order, met by the ray
/// toward the light at a parameter `t` before it; zero when none is.
pub fn cast_shadow(intersect: &Intersect, light_position: &Vec3, objects: &[Object]) -> (s: i64)
    requires
        intersect.is_intersecting ==> hit_facts(*intersect),
        bounded(intersect.point, 2 * LIMIT - 1),
        bounded(intersect.normal, SCALE as int),
        bounded(*light_position, 2 * LIMIT),
        scene_ok(objects@),
    ensures
        s == shadow_spec(*intersect, *light_position, objects@),
        0 <= s <= SCALE,
{
    let d = light_position.sub(&intersect.point);
    let o = offset_origin(intersect, &d);
    let n: usize = objects.len();
    let mut i: usize = 0;
    assert(objects@.subrange(0, n as int) =~= objects@);
    assert(shadow_spec(*intersect, *light_position, objects@) == first_shadow(objects@, o, d));
    while i < n
        invariant
            n == objects.len(),
            i <= n,
            scene_ok(objects@),
            ray_ok(o, d),
            shadow_spec(*intersect, *light_position, objects@) == first_shadow(objects@.subrange(i as int, n as int), o, d),
        decreases n - i,
    {
        let r = objects[i].ray_intersect(&o, &d);
        proof {
            let rest = objects@.subrange(i as int, n as int);
            assert(rest[0] == objects@[i as int]);
            assert(rest.drop_first() =~= objects@.subrange(i + 1, n as int));
            assert(r == rest[0].intersect_spec(o, d));
        }
        if r.is_intersecting && r.distance.num < r.distance.den {
            proof {
                let rest = objects@.subrange(i as int, n as int);
                assert(rest.len() > 0);
                assert(first_shadow(rest, o, d) == shadow_of(r.distance));
            }
            return shadow_at(r.distance);
        }
        i = i + 1;
    }
    proof {
        assert(objects@.subrange(n as int, n as int).len() == 0);
    }
    0
}

/// Fixed-point day/night intensity for a sun at `light_position`: from
/// `MIN_INTENSITY` at height -1 or below to `MAX_INTENSITY` at height 9 or above.
pub fn calculate_light_intensity(light_position: &Vec3) -> (r: i64)
    requires
        bounded(*light_position, 2 * LIMIT),
    ensures
        r == ambient_spec(light_position.y as int),
        MIN_INTENSITY <= r <= MAX_INTENSITY,
{
    let y: i64 = light_position.y;
    let h: i64 = if y + SCALE <= 0 { 0 } else { (y + SCALE) / 10 };
    let f: i64 = if h > SCALE { SCALE } else { h };
    proof {
        assert(0 <= (MAX_INTENSITY - MIN_INTENSITY) * f <= (MAX_INTENSITY - MIN_INTENSITY) * SCALE)
            by (nonlinear_arith) requires 0 <= f <= SCALE;
        vstd::arithmetic::div_mod::lemma_div_is_ordered(
            (MAX_INTENSITY - MIN_INTENSITY) * f, (MAX_INTENSITY - MIN_INTENSITY) * SCALE, SCALE as int);
        vstd::arithmetic::div_mod::lemma_div_by_multiple((MAX_INTENSITY - MIN_INTENSITY) as int, SCALE as int);
        vstd::arithmetic::div_mod::lemma_div_pos_is_pos((MAX_INTENSITY - MIN_INTENSITY) * f, SCALE as int);
    }
    MIN_INTENSITY + (MAX_INTENSITY - MIN_INTENSITY) * f / SCALE
}

/// Colour of the sky seen along the unit `ray_direction`, for the day/night
/// `light_intensity` in `[0, 1]`.
pub fn skybox_color(ray_direction: &Vec3, light_intensity: i64) -> (c: Color)
    requires
        bounded(*ray_direction, SCALE as int),
        0 <= light_intensity <= SCALE,
    ensures
        c == skybox_spec(ray_direction.y as int, light_intensity as int),
{
    let t: i64 = (ray_direction.y + SCALE) / 2;
    let sky_color_day = Color::new(135, 206, 235);
    let ground_color_day = Color::new(222, 184, 135);
    let sky_color_night = Color::new(25, 25, 112);
    let ground_color_night = Color::new(50, 50, 50);
    let sky_color = interpolate_color(sky_color_night, sky_color_day, light_intensity);
    let ground_color = interpolate_color(ground_color_night, ground_color_day, light_intensity);
    interpolate_color(ground_color, sky_color, t)
}

/// Schlick's approximation of the reflectance at fixed-point cosine
/// `cos_theta` in `[0, 1]` for the fixed-point refractive index
/// `refractive_index`; zero at index -1. For an index that is not negative
/// the reflectance lies in `[0, 1]`.
pub fn fresnel(cos_theta: i64, refractive_index: i64) -> (r: i64)
    requires
        0 <= cos_theta <= SCALE,
        -crate::material::IOR_LIMIT <= refractive_index <= crate::material::IOR_LIMIT,
    ensures
        r == fresnel_spec(cos_theta as int, refractive_index as int),
        refractive_index >= 0 ==> 0 <= r <= SCALE,
{
    let a: i64 = SCALE - refractive_index;
    let b: i64 = SCALE + refractive_index;
    if b == 0 {
        return 0;
    }
    proof {
        assert(0 <= a * a <= 1001000 * 1001000) by (nonlinear_arith) requires -1001000 <= a <= 1001000;
        assert(0 < b * b <= 1001000 * 1001000) by (nonlinear_arith) requires -1001000 <= b <= 1001000, b != 0;
        assert(0 <= a * a * SCALE <= 1001000 * 1001000 * SCALE) by (nonlinear_arith)
            requires 0 <= a * a <= 1001000 * 1001000;
        vstd::arithmetic::div_mod::lemma_div_pos_is_pos(a * a * SCALE, b * b);
        vstd::arithmetic::div_mod::lemma_div_is_ordered_by_denominator(a * a * SCALE, 1, b * b);
    }
    let r0: i64 = a * a * SCALE / (b * b);
    let p: i64 = fixed_power(SCALE - cos_theta, FRESNEL_POWER);
    proof {
        assert(-1002001000000000 * SCALE <= (SCALE - r0) * p <= SCALE * SCALE) by (nonlinear_arith)
            requires 0 <= r0 <= 1002001000000000, 0 <= p <= SCALE;
    }
    let t: i64 = div_toward_zero((SCALE - r0) * p, SCALE);
    proof {
        lemma_fresnel_term(r0 as int, p as int);
        if refractive_index >= 0 {
            assert(a * a <= b * b) by (nonlinear_arith)
                requires a == SCALE - refractive_index, b == SCALE + refractive_index, refractive_index >= 0;
            assert(a * a * SCALE <= b * b * SCALE) by (nonlinear_arith) requires a * a <= b * b;
            vstd::arithmetic::div_mod::lemma_div_is_ordered(a * a * SCALE, b * b * SCALE, b * b);
            assert(b * b * SCALE == SCALE * (b * b)) by (nonlinear_arith);
            vstd::arithmetic::div_mod::lemma_div_by_multiple(SCALE as int, b * b);
        }
    }
    r0 + t
}

proof fn lemma_fresnel_term(r0: int, p: int)
    requires
        0 <= r0 <= 1002001000000000,
        0 <= p <= SCALE,
    ensures
        -1002001000000000 <= div_trunc((SCALE - r0) * p, SCALE as int) <= SCALE,
        r0 <= SCALE ==> 0 <= div_trunc((SCALE - r0) * p, SCALE as int) <= SCALE - r0,
{
    let x = (SCALE - r0) * p;
    if x >= 0 {
        assert(x <= SCALE * SCALE) by (nonlinear_arith)
            requires x == (SCALE - r0) * p, 0 <= p <= SCALE, r0 >= 0;
        vstd::arithmetic::div_mod::lemma_div_is_ordered(x, SCALE * SCALE, SCALE as int);
        vstd::arithmetic::div_mod::lemma_div_by_multiple(SCALE as int, SCALE as int);
        vstd::arithmetic::div_mod::lemma_div_pos_is_pos(x, SCALE as int);
        if r0 <= SCALE {
            assert(x <= (SCALE - r0) * SCALE) by (nonlinear_arith)
                requires x == (SCALE - r0) * p, 0 <= p <= SCALE, r0 <= SCALE;
            vstd::arithmetic::div_mod::lemma_div_is_ordered(x, (SCALE - r0) * SCALE, SCALE as int);
            vstd::arithmetic::div_mod::lemma_div_by_multiple(SCALE - r0, SCALE as int);
        }
    } else {
        assert(r0 > SCALE) by (nonlinear_arith) requires x == (SCALE - r0) * p, x < 0, p >= 0;
        assert(-x <= r0 * SCALE) by (nonlinear_arith)
            requires x == (SCALE - r0) * p, 0 <= p <= SCALE, r0 > SCALE;
        vstd::arithmetic::div_mod::lemma_div_is_ordered(-x, r0 * SCALE, SCALE as int);
        vstd::arithmetic::div_mod::lemma_div_by_multiple(r0, SCALE as int);
        vstd::arithmetic::div_mod::lemma_div_pos_is_pos(-x, SCALE as int);
    }
}

/// The nearest hit among `objects`: a later object replaces the current one
/// only when it is strictly closer.
pub open spec fn nearest(objects: Seq<Object>, o: Vec3, d: Vec3) -> Intersect
    decreases objects.len(),
{
    if objects.len() == 0 {
        empty_spec()
    } else {
        let best = nearest(objects.drop_last(), o, d);
        let i = objects.last().intersect_spec(o, d);
        if i.is_intersecting && (!best.is_intersecting || frac_lt(i.distance, best.distance)) {
            i
        } else {
            best
        }
    }
}

/// `v` limited to the fixed-point range `[0, 1]`.
pub open spec fn clamp_unit(v: int) -> int {
    if v < 0 { 0 } else if v > SCALE { SCALE as int } else { v }
}

pub open spec fn white_spec() -> Color {
    Color { r: 255, g: 255, b: 255 }
}

/// The diffuse and the specular colour that one light adds at `hit`, for a
/// ray from `o` along the unit `d`.
pub open spec fn light_terms(hit: Intersect, o: Vec3, d: Vec3, objects: Seq<Object>, light: Vec3) -> (Color, Color) {
    let m = hit.material;
    let n = hit.normal;
    let light_dir = normalize_spec(vsub(light, hit.point));
    let view_dir = normalize_spec(vsub(o, hit.point));
    let reflect_dir = normalize_spec(reflect_spec(vsub(Vec3 { x: 0, y: 0, z: 0 }, light_dir), n));
    let shadow = shadow_spec(hit, light, objects);
    let intensity = LIGHT_GAIN * (SCALE - shadow) / SCALE as int;
    let cos_theta = clamp_unit(div_trunc(-dot_spec(d, n), SCALE as int));
    let reflectance = fresnel_spec(cos_theta, m.refractive_index as int);
    let diffuse_intensity = clamp_unit(div_trunc(dot_spec(n, light_dir), SCALE as int));
    let specular_intensity = fixed_pow(
        clamp_unit(div_trunc(dot_spec(view_dir, reflect_dir), SCALE as int)),
        m.specular as nat,
    );
    let diffuse = scale_spec(scale_spec(scale_spec(m.diffuse, m.albedo[0] as int), diffuse_intensity), intensity);
    let specular = scale_spec(
        scale_spec(scale_spec(scale_spec(white_spec(), m.albedo[1] as int), specular_intensity), intensity),
        reflectance,
    );
    (diffuse, specular)
}

/// The diffuse and specular sums over `lights`, taken in order.
pub open spec fn light_sums(hit: Intersect, o: Vec3, d: Vec3, objects: Seq<Object>, lights: Seq<Vec3>) -> (Color, Color)
    decreases lights.len(),
{
    if lights.len() == 0 {
        (black_spec(), black_spec())
    } else {
        let (td, ts) = light_sums(hit, o, d, objects, lights.drop_last());
        let (ld, ls) = light_terms(hit, o, d, objects, lights.last());
        (add_spec(td, ld), add_spec(ts, ls))
    }
}

/// The emission of a material that emits, black otherwise.
pub open spec fn emission_of(hit: Intersect) -> Color {
    if hit.material.is_emissive { hit.material.emission } else { black_spec() }
}

/// The colour seen along a ray.
pub open spec fn cast_ray_spec(
    o: Vec3,
    d: Vec3,
    objects: Seq<Object>,
    lights: Seq<Vec3>,
    depth: int,
    ambient: int,
) -> Color {
    if depth > MAX_DEPTH {
        fallback_sky()
    } else {
        let hit = nearest(objects, o, d);
        if !hit.is_intersecting {
            skybox_spec(d.y as int, ambient)
        } else {
            let (td, ts) = light_sums(hit, o, d, objects, lights);
            add_spec(add_spec(td, ts), emission_of(hit))
        }
    }
}

fn clamp_to_unit(v: i64) -> (r: i64)
    ensures
        r == clamp_unit(v as int),
{
    if v < 0 {
        0
    } else if v > SCALE {
        SCALE
    } else {
        v
    }
}

/// The nearest object that a ray meets, or the empty record.
pub fn nearest_hit(ray_origin: &Vec3, ray_direction: &Vec3, objects: &[Object]) -> (r: Intersect)
    requires
        ray_ok(*ray_origin, *ray_direction),
        scene_ok(objects@),
    ensures
        r == nearest(objects@, *ray_origin, *ray_direction),
        r.is_intersecting ==> hit_facts(r),
{
    let mut best = Intersect::empty();
    let n: usize = objects.len();
    let mut i: usize = 0;
    while i < n
        invariant
            n == objects.len(),
            i <= n,
            ray_ok(*ray_origin, *ray_direction),
            scene_ok(objects@),
            best == nearest(objects@.subrange(0, i as int), *ray_origin, *ray_direction),
            best.is_intersecting ==> hit_facts(best),
        decreases n - i,
    {
        let hit = objects[i].ray_intersect(ray_origin, ray_direction);
        proof {
            let pre = objects@.subrange(0, i + 1);
            assert(pre.drop_last() =~= objects@.subrange(0, i as int));
            assert(pre.last() == objects@[i as int]);
        }
        if hit.is_intersecting {
            if !best.is_intersecting {
                best = hit;
            } else {
                proof {
                    let (a, b, c, e) = (hit.distance.num as int, best.distance.den as int,
                        best.distance.num as int, hit.distance.den as int);
                    assert(0 <= a * b <= 0x40_0000_0000_0000) by (nonlinear_arith)
                        requires 0 <= a <= 0x800_0000, 0 <= b <= 0x800_0000;
                    assert(0 <= c * e <= 0x40_0000_0000_0000) by (nonlinear_arith)
                        requires 0 <= c <= 0x800_0000, 0 <= e <= 0x800_0000;
                }
                if hit.distance.num * best.distance.den < best.distance.num * hit.distance.den {
                    best = hit;
                }
            }
        }
        i = i + 1;
    }
    assert(objects@.subrange(0, n as int) =~= objects@);
    best
}

/// The diffuse and the specular colour that the light at `light_position`
/// adds at `hit`.
fn light_contribution(
    hit: &Intersect,
    ray_origin: &Vec3,
    ray_direction: &Vec3,
    objects: &[Object],
    light_position: &Vec3,
) -> (r: (Color, Color))
    requires
        hit.is_intersecting,
        hit_facts(*hit),
        bounded(*ray_origin, 2 * LIMIT),
        bounded(*ray_direction, SCALE as int),
        bounded(*light_position, 2 * LIMIT),
        scene_ok(objects@),
    ensures
        r == light_terms(*hit, *ray_origin, *ray_direction, objects@, *light_position),
{
    let m = hit.material;
    let n = hit.normal;
    let light_dir = light_position.sub(&hit.point).normalize();
    let view_dir = ray_origin.sub(&hit.point).normalize();
    let zero = Vec3::new(0, 0, 0);
    let reflect_dir = reflect(&zero.sub(&light_dir), &n).normalize();
    let shadow = cast_shadow(hit, light_position, objects);
    let intensity: i64 = LIGHT_GAIN * (SCALE - shadow) / SCALE;
    proof {
        assert(0 <= LIGHT_GAIN * (SCALE - shadow) <= LIGHT_GAIN * SCALE) by (nonlinear_arith)
            requires 0 <= shadow <= SCALE;
        vstd::arithmetic::div_mod::lemma_div_is_ordered(LIGHT_GAIN * (SCALE - shadow), LIGHT_GAIN * SCALE, SCALE as int);
        vstd::arithmetic::div_mod::lemma_div_by_multiple(LIGHT_GAIN as int, SCALE as int);
        vstd::arithmetic::div_mod::lemma_div_pos_is_pos(LIGHT_GAIN * (SCALE - shadow), SCALE as int);
        crate::vector::lemma_dot_bound(*ray_direction, n, SCALE as int);
        crate::vector::lemma_dot_bound(n, light_dir, SCALE as int);
        crate::vector::lemma_dot_bound(view_dir, reflect_dir, SCALE as int);
    }
    let cos_theta = clamp_to_unit(div_toward_zero(-ray_direction.dot(&n), SCALE));
    let reflectance = fresnel(cos_theta, m.refractive_index);
    let diffuse_intensity = clamp_to_unit(div_toward_zero(n.dot(&light_dir), SCALE));
    let specular_intensity = fixed_power(clamp_to_unit(div_toward_zero(view_dir.dot(&reflect_dir), SCALE)), m.specular);
    let diffuse = m.diffuse.scale(m.albedo[0]).scale(diffuse_intensity).scale(intensity);
    let white = Color::new(255, 255, 255);
    let specular = white.scale(m.albedo[1]).scale(specular_intensity).scale(intensity).scale(reflectance);
    (diffuse, specular)
}

/// The colour seen along the unit `ray_direction` from `ray_origin`:
/// past `MAX_DEPTH` the fallback sky; on a miss the skybox for the day/night
/// `light_intensity`; on a hit the sum of every light's diffuse and specular
/// terms and the material's emission.
pub fn cast_ray(
    ray_origin: &Vec3,
    ray_direction: &Vec3,
    objects: &[Object],
    light_positions: &[Vec3],
    depth: u32,
    light_intensity: i64,
) -> (c: Color)
    requires
        bounded(*ray_origin, 2 * LIMIT),
        bounded(*ray_direction, SCALE as int),
        scene_ok(objects@),
        lights_ok(light_positions@),
        0 <= light_intensity <= SCALE,
    ensures
        c == cast_ray_spec(*ray_origin, *ray_direction, objects@, light_positions@, depth as int, light_intensity as int),
{
    if depth > MAX_DEPTH {
        return Color::new(68, 142, 228);
    }
    let hit = nearest_hit(ray_origin, ray_direction, objects);
    if !hit.is_intersecting {
        return skybox_color(ray_direction, light_intensity);
    }
    let mut total_diffuse = Color::black();
    let mut total_specular = Color::black();
    let n: usize = light_positions.len();
    let mut i: usize = 0;
    while i < n
        invariant
            n == light_positions.len(),
            i <= n,
            hit.is_intersecting,
            hit_facts(hit),
            bounded(*ray_origin, 2 * LIMIT),
            bounded(*ray_direction, SCALE as int),
            scene_ok(objects@),
            lights_ok(light_positions@),
            (total_diffuse, total_specular) == light_sums(
                hit, *ray_origin, *ray_direction, objects@, light_positions@.subrange(0, i as int)),
        decreases n - i,
    {
        let (d, s) = light_contribution(&hit, ray_origin, ray_direction, objects, &light_positions[i]);
        proof {
            let pre = light_positions@.subrange(0, i + 1);
            assert(pre.drop_last() =~= light_positions@.subrange(0, i as int));
            assert(pre.last() == light_positions@[i as int]);
        }
        total_diffuse = total_diffuse.add(&d);
        total_specular = total_specular.add(&s);
        i = i + 1;
    }
    assert(light_positions@.subrange(0, n as int) =~= light_positions@);
    let emission = if hit.material.is_emissive { hit.material.emission } else { Color::black() };
    total_diffuse.add(&total_specular).add(&emission)
}

proof fn lemma_floor_ordered(a: int, b: int, c: int, e: int)
    requires
        b > 0,
        e > 0,
        a >= 0,
        a * e <= c * b,
    ensures
        a / b <= c / e,
{
    let q = a / b;
    vstd::arithmetic::div_mod::lemma_fundamental_div_mod(a, b);
    vstd::arithmetic::div_mod::lemma_div_pos_is_pos(a, b);
    assert(q * b <= a);
    assert(q * e <= c) by (nonlinear_arith)
        requires q * b <= a, a * e <= c * b, b > 0, e > 0, q >= 0;
    vstd::arithmetic::div_mod::lemma_div_is_ordered(q * e, c, e);
    vstd::arithmetic::div_mod::lemma_div_by_multiple(q, e);
}

/// The shadow of an occluder lies in `[0, 1]` and does not grow as the ratio
/// of the occluder's distance to the light's grows.
pub proof fn lemma_shadow_monotonic(t1: Fraction, t2: Fraction)
    requires
        0 <= t1.num < t1.den,
        0 <= t2.num < t2.den,
        frac_le(t1, t2),
    ensures
        0 <= shadow_of(t2) <= shadow_of(t1) <= SCALE,
{
    let (n1, d1, n2, d2) = (t1.num as int, t1.den as int, t2.num as int, t2.den as int);
    assert(n1 * n1 * (d2 * d2) <= n2 * n2 * (d1 * d1)) by (nonlinear_arith)
        requires 0 <= n1, 0 <= n2, 0 < d1, 0 < d2, n1 * d2 <= n2 * d1;
    assert((n1 * n1 * SCALE) * (d2 * d2) <= (n2 * n2 * SCALE) * (d1 * d1)) by (nonlinear_arith)
        requires n1 * n1 * (d2 * d2) <= n2 * n2 * (d1 * d1);
    assert(d1 * d1 > 0 && d2 * d2 > 0 && n1 * n1 * SCALE >= 0 && n2 * n2 * SCALE >= 0) by (nonlinear_arith)
        requires 0 < d1, 0 < d2;
    lemma_floor_ordered(n1 * n1 * SCALE, d1 * d1, n2 * n2 * SCALE, d2 * d2);
    vstd::arithmetic::div_mod::lemma_div_pos_is_pos(n1 * n1 * SCALE, d1 * d1);
    vstd::arithmetic::div_mod::lemma_div_pos_is_pos(n2 * n2 * SCALE, d2 * d2);
}

/// The first object, in list order, that lies between the shadow ray's
/// origin and the light decides the shadow alone.
pub proof fn lemma_first_occluder_decides(objects: Seq<Object>, o: Vec3, d: Vec3, k: int)
    requires
        0 <= k < objects.len(),
        occludes(objects[k].intersect_spec(o, d)),
        forall|i: int| 0 <= i < k ==> !occludes(#[trigger] objects[i].intersect_spec(o, d)),
    ensures
        first_shadow(objects, o, d) == shadow_of(objects[k].intersect_spec(o, d).distance),
    decreases k,
{
    if k > 0 {
        let rest = objects.drop_first();
        assert forall|i: int| 0 <= i < k - 1 implies !occludes(#[trigger] rest[i].intersect_spec(o, d)) by {
            assert(rest[i] == objects[i + 1]);
        }
        assert(!occludes(objects[0].intersect_spec(o, d)));
        assert(rest[k - 1] == objects[k]);
        lemma_first_occluder_decides(rest, o, d, k - 1);
    }
}

/// At a hit, the shadow from a light is zero when no object lies strictly
/// between the offset hit point and the light, and otherwise is set by the
/// first such object in list order, as `1 - min(1, t^2)` for its distance
/// ratio `t`, which does not grow as `t` does.
pub proof fn lemma_shadow_at_hit(hit: Intersect, light: Vec3, objects: Seq<Object>, k: int)
    requires
        0 <= k <= objects.len(),
        forall|i: int| 0 <= i < k ==> !occludes(#[trigger] objects[i].intersect_spec(
            offset_spec(hit.point, hit.normal, vsub(light, hit.point)), vsub(light, hit.point))),
    ensures
        ({
            let d = vsub(light, hit.point);
            let o = offset_spec(hit.point, hit.normal, d);
            &&& k == objects.len() ==> shadow_spec(hit, light, objects) == 0
            &&& k < objects.len() && occludes(objects[k].intersect_spec(o, d))
                ==> shadow_spec(hit, light, objects) == shadow_of(objects[k].intersect_spec(o, d).distance)
        }),
{
    let d = vsub(light, hit.point);
    let o = offset_spec(hit.point, hit.normal, d);
    if k == objects.len() {
        lemma_no_occluder_no_shadow(objects, o, d);
    } else if occludes(objects[k].intersect_spec(o, d)) {
        lemma_first_occluder_decides(objects, o, d, k);
    }
}

/// A cube that the shadow ray stays outside of, on some axis, casts no
/// shadow.
pub proof fn lemma_missed_cube_casts_no_shadow(hit: Intersect, light: Vec3, cube: Cube, is_light: bool)
    requires
        cube.well_formed(),
        ray_ok(offset_spec(hit.point, hit.normal, vsub(light, hit.point)), vsub(light, hit.point)),
        ({
            let d = vsub(light, hit.point);
            let o = offset_spec(hit.point, hit.normal, d);
            let (c, s) = (cube.center, cube.size as int);
            stays_outside(c.x as int, s, o.x as int, d.x as int)
                || stays_outside(c.y as int, s, o.y as int, d.y as int)
                || stays_outside(c.z as int, s, o.z as int, d.z as int)
        }),
    ensures
        shadow_spec(hit, light, seq![Object::Cube(cube, is_light)]) == 0,
{
    let d = vsub(light, hit.point);
    let o = offset_spec(hit.point, hit.normal, d);
    let objects = seq![Object::Cube(cube, is_light)];
    lemma_outside_slab_misses(cube, o, d);
    assert(!occludes(objects[0].intersect_spec(o, d)));
    lemma_shadow_at_hit(hit, light, objects, 1);
}

/// A shadow ray that leaves `k` away from a cube's centre along one axis and
/// heads straight at it, with the light `m` further on that axis, is shadowed
/// by the cube's near face: the distance ratio is `(k - size / 2) / m`.
pub proof fn lemma_axis_shadow_from_near_face(
    hit: Intersect,
    light: Vec3,
    cube: Cube,
    is_light: bool,
    axis: int,
    sign: int,
    k: int,
    m: int,
)
    requires
        cube.well_formed(),
        0 <= axis <= 2,
        sign == 1 || sign == -1,
        cube.size < 2 * k,
        k <= LIMIT,
        0 < m <= 4 * LIMIT,
        vsub(light, hit.point) == on_axis(axis, -sign * m),
        offset_spec(hit.point, hit.normal, vsub(light, hit.point)) == (Vec3 {
            x: (cube.center.x + on_axis(axis, sign * k).x) as i64,
            y: (cube.center.y + on_axis(axis, sign * k).y) as i64,
            z: (cube.center.z + on_axis(axis, sign * k).z) as i64,
        }),
    ensures
        2 * k - cube.size < 2 * m ==> shadow_spec(hit, light, seq![Object::Cube(cube, is_light)])
            == shadow_of(Fraction { num: (2 * k - cube.size) as i64, den: (2 * m) as i64 }),
        2 * k - cube.size >= 2 * m ==> shadow_spec(hit, light, seq![Object::Cube(cube, is_light)]) == 0,
{
    let d = vsub(light, hit.point);
    let o = offset_spec(hit.point, hit.normal, d);
    let objects = seq![Object::Cube(cube, is_light)];
    lemma_axis_ray_hits_near_face(cube, axis, sign, k, m);
    if 2 * k - cube.size < 2 * m {
        lemma_shadow_at_hit(hit, light, objects, 0);
    } else {
        assert(!occludes(objects[0].intersect_spec(o, d)));
        lemma_shadow_at_hit(hit, light, objects, 1);
    }
}

proof fn lemma_normalize_axis(axis: int, sign: int, e: int)
    requires
        0 <= axis <= 2,
        sign == 1 || sign == -1,
        0 < e <= 0x4000_0000,
    ensures
        normalize_spec(on_axis(axis, sign * e)) == axis_normal(axis, sign),
{
    assert(e * e < (e + 1) * (e + 1)) by (nonlinear_arith) requires e > 0;
    crate::vector::lemma_isqrt_unique(e * e, e);
    vstd::arithmetic::div_mod::lemma_div_by_multiple(SCALE as int, e);
    assert(e * SCALE == SCALE * e) by (nonlinear_arith);
    assert(div_trunc(0, e) == 0);
    assert((e as i64) as int == e);
    assert(((-e) as i64) as int == -e);
    assert((-e) * (-e) == e * e) by (nonlinear_arith);
    assert((-e) * SCALE == -(e * SCALE)) by (nonlinear_arith);
    let v = on_axis(axis, sign * e);
    let w = sign * e;
    assert(w == e || w == -e) by (nonlinear_arith) requires sign == 1 || sign == -1, w == sign * e;
    assert(w * w == e * e) by (nonlinear_arith) requires w == e || w == -e;
    assert(w * SCALE == sign * (e * SCALE)) by (nonlinear_arith) requires w == sign * e;
    let wi = w as i64;
    assert(wi as int == w);
    assert(wi * wi == e * e);
    if axis == 0 {
        assert(v == Vec3 { x: wi, y: 0, z: 0 });
        assert(dot_spec(v, v) == wi * wi) by (nonlinear_arith) requires v == (Vec3 { x: wi, y: 0, z: 0 });
    } else if axis == 1 {
        assert(v == Vec3 { x: 0, y: wi, z: 0 });
        assert(dot_spec(v, v) == wi * wi) by (nonlinear_arith) requires v == (Vec3 { x: 0, y: wi, z: 0 });
    } else {
        assert(v == Vec3 { x: 0, y: 0, z: wi });
        assert(dot_spec(v, v) == wi * wi) by (nonlinear_arith) requires v == (Vec3 { x: 0, y: 0, z: wi });
    }
}

/// The reflection facts of a unit axis normal: it mirrors its own opposite
/// onto itself, and a ray straight into it meets it at a full cosine.
#[verifier::spinoff_prover]
proof fn lemma_axis_reflection(axis: int, sign: int)
    requires
        0 <= axis <= 2,
        sign == 1 || sign == -1,
    ensures
        reflect_spec(vsub(Vec3 { x: 0, y: 0, z: 0 }, axis_normal(axis, sign)), axis_normal(axis, sign))
            == axis_normal(axis, sign),
        dot_spec(on_axis(axis, -sign * SCALE), axis_normal(axis, sign)) == -(SCALE * SCALE),
        dot_spec(axis_normal(axis, sign), axis_normal(axis, sign)) == SCALE * SCALE,
        on_axis(axis, sign * SCALE) == axis_normal(axis, sign),
{
    vstd::arithmetic::div_mod::lemma_div_by_multiple(2000, 1000000);
    assert(SCALE * SCALE == 1000000);
    let n = axis_normal(axis, sign);
    let neg = vsub(Vec3 { x: 0, y: 0, z: 0 }, n);
    if axis == 0 && sign == 1 {
        assert(n == Vec3 { x: 1000, y: 0, z: 0 });
        assert(neg == Vec3 { x: -1000i64, y: 0, z: 0 });
        assert(dot_spec(neg, n) == -1000000);
        assert(2 * dot_spec(neg, n) == -2000000);
        assert(dot_spec(n, n) == 1000000);
        assert(div_trunc(-2000000 * n.x, SCALE * SCALE) == -2 * n.x);
        assert(div_trunc(-2000000 * n.y, SCALE * SCALE) == -2 * n.y);
        assert(div_trunc(-2000000 * n.z, SCALE * SCALE) == -2 * n.z);
        assert(reflect_spec(neg, n) == n);
        assert(on_axis(axis, -sign * SCALE) == Vec3 { x: -1000i64, y: 0, z: 0 });
        assert(on_axis(axis, sign * SCALE) == n);
    } else if axis == 0 {
        assert(n == Vec3 { x: -1000i64, y: 0, z: 0 });
        assert(neg == Vec3 { x: 1000, y: 0, z: 0 });
        assert(dot_spec(neg, n) == -1000000);
        assert(2 * dot_spec(neg, n) == -2000000);
        assert(dot_spec(n, n) == 1000000);
        assert(div_trunc(-2000000 * n.x, SCALE * SCALE) == -2 * n.x);
        assert(div_trunc(-2000000 * n.y, SCALE * SCALE) == -2 * n.y);
        assert(div_trunc(-2000000 * n.z, SCALE * SCALE) == -2 * n.z);
        assert(reflect_spec(neg, n) == n);
        assert(on_axis(axis, -sign * SCALE) == Vec3 { x: 1000, y: 0, z: 0 });
        assert(on_axis(axis, sign * SCALE) == n);
    } else if axis == 1 && sign == 1 {
        assert(n == Vec3 { x: 0, y: 1000, z: 0 });
        assert(neg == Vec3 { x: 0, y: -1000i64, z: 0 });
        assert(dot_spec(neg, n) == -1000000);
        assert(2 * dot_spec(neg, n) == -2000000);
        assert(dot_spec(n, n) == 1000000);
        assert(div_trunc(-2000000 * n.x, SCALE * SCALE) == -2 * n.x);
        assert(div_trunc(-2000000 * n.y, SCALE * SCALE) == -2 * n.y);
        assert(div_trunc(-2000000 * n.z, SCALE * SCALE) == -2 * n.z);
        assert(reflect_spec(neg, n) == n);
        assert(on_axis(axis, -sign * SCALE) == Vec3 { x: 0, y: -1000i64, z: 0 });
        assert(on_axis(axis, sign * SCALE) == n);
    } else if axis == 1 {
        assert(n == Vec3 { x: 0, y: -1000i64, z: 0 });
        assert(neg == Vec3 { x: 0, y: 1000, z: 0 });
        assert(dot_spec(neg, n) == -1000000);
        assert(2 * dot_spec(neg, n) == -2000000);
        assert(dot_spec(n, n) == 1000000);
        assert(div_trunc(-2000000 * n.x, SCALE * SCALE) == -2 * n.x);
        assert(div_trunc(-2000000 * n.y, SCALE * SCALE) == -2 * n.y);
        assert(div_trunc(-2000000 * n.z, SCALE * SCALE) == -2 * n.z);
        assert(reflect_spec(neg, n) == n);
        assert(on_axis(axis, -sign * SCALE) == Vec3 { x: 0, y: 1000, z: 0 });
        assert(on_axis(axis, sign * SCALE) == n);
    } else if sign == 1 {
        assert(n == Vec3 { x: 0, y: 0, z: 1000 });
        assert(neg == Vec3 { x: 0, y: 0, z: -1000i64 });
        assert(dot_spec(neg, n) == -1000000);
        assert(2 * dot_spec(neg, n) == -2000000);
        assert(dot_spec(n, n) == 1000000);
        assert(div_trunc(-2000000 * n.x, SCALE * SCALE) == -2 * n.x);
        assert(div_trunc(-2000000 * n.y, SCALE * SCALE) == -2 * n.y);
        assert(div_trunc(-2000000 * n.z, SCALE * SCALE) == -2 * n.z);
        assert(reflect_spec(neg, n) == n);
        assert(on_axis(axis, -sign * SCALE) == Vec3 { x: 0, y: 0, z: -1000i64 });
        assert(on_axis(axis, sign * SCALE) == n);
    } else {
        assert(n == Vec3 { x: 0, y: 0, z: -1000i64 });
        assert(neg == Vec3 { x: 0, y: 0, z: 1000 });
        assert(dot_spec(neg, n) == -1000000);
        assert(2 * dot_spec(neg, n) == -2000000);
        assert(dot_spec(n, n) == 1000000);
        assert(div_trunc(-2000000 * n.x, SCALE * SCALE) == -2 * n.x);
        assert(div_trunc(-2000000 * n.y, SCALE * SCALE) == -2 * n.y);
        assert(div_trunc(-2000000 * n.z, SCALE * SCALE) == -2 * n.z);
        assert(reflect_spec(neg, n) == n);
        assert(on_axis(axis, -sign * SCALE) == Vec3 { x: 0, y: 0, z: 1000 });
        assert(on_axis(axis, sign * SCALE) == n);
    }
}

/// A face lit and seen straight on: with the light and the viewer on the
/// normal's side along the face's axis, no shadow, and no specular weight,
/// the colour is the diffuse colour scaled by its weight, by a full cosine
/// and by the light's gain of one and a half.
pub proof fn lemma_face_lit_head_on(
    o: Vec3,
    d: Vec3,
    objects: Seq<Object>,
    light: Vec3,
    depth: int,
    ambient: int,
    axis: int,
    sign: int,
    e: int,
)
    requires
        depth <= MAX_DEPTH,
        0 <= axis <= 2,
        sign == 1 || sign == -1,
        0 < e <= 4 * LIMIT,
        nearest(objects, o, d).is_intersecting,
        nearest(objects, o, d).normal == axis_normal(axis, sign),
        nearest(objects, o, d).material.albedo[1] == 0,
        !nearest(objects, o, d).material.is_emissive,
        0 <= nearest(objects, o, d).material.albedo[0] <= crate::color::FACTOR_LIMIT,
        d == on_axis(axis, -sign * SCALE),
        bounded(vsub(o, nearest(objects, o, d).point), 4 * LIMIT),
        normalize_spec(vsub(o, nearest(objects, o, d).point)) == axis_normal(axis, sign),
        vsub(light, nearest(objects, o, d).point) == on_axis(axis, sign * e),
        shadow_spec(nearest(objects, o, d), light, objects) == 0,
    ensures
        cast_ray_spec(o, d, objects, seq![light], depth, ambient) == scale_spec(
            scale_spec(scale_spec(nearest(objects, o, d).material.diffuse, nearest(objects, o, d).material.albedo[0] as int), SCALE as int),
            LIGHT_GAIN as int,
        ),
{
    let hit = nearest(objects, o, d);
    let n = axis_normal(axis, sign);
    lemma_normalize_axis(axis, sign, e);
    lemma_axis_reflection(axis, sign);
    lemma_normalize_axis(axis, sign, SCALE as int);
    assert(div_trunc(SCALE * SCALE, SCALE as int) == SCALE) by {
        vstd::arithmetic::div_mod::lemma_div_by_multiple(SCALE as int, SCALE as int);
    }
    assert(LIGHT_GAIN * (SCALE - 0) / SCALE as int == LIGHT_GAIN) by {
        vstd::arithmetic::div_mod::lemma_div_by_multiple(LIGHT_GAIN as int, SCALE as int);
    }
    let (ld, ls) = light_terms(hit, o, d, objects, light);
    let m = hit.material;
    assert(normalize_spec(vsub(light, hit.point)) == n);
    assert(normalize_spec(reflect_spec(vsub(Vec3 { x: 0, y: 0, z: 0 }, n), n)) == n);
    assert(dot_spec(d, n) == -(SCALE * SCALE));
    assert(clamp_unit(div_trunc(-dot_spec(d, n), SCALE as int)) == SCALE);
    assert(clamp_unit(div_trunc(dot_spec(n, n), SCALE as int)) == SCALE);
    assert(ld == scale_spec(scale_spec(scale_spec(m.diffuse, m.albedo[0] as int), SCALE as int), LIGHT_GAIN as int));
    lemma_scale_zero(white_spec());
    assert(ls == black_spec());
    let lights = seq![light];
    assert(lights.drop_last() =~= Seq::<Vec3>::empty());
    assert(lights.last() == light);
    let c = ld;
    assert(add_spec(black_spec(), c) == c);
    assert(add_spec(c, black_spec()) == c);
    assert(add_spec(black_spec(), black_spec()) == black_spec());
    assert(light_sums(hit, o, d, objects, lights.drop_last()) == (black_spec(), black_spec()));
    assert(light_sums(hit, o, d, objects, lights) == (c, black_spec()));
    assert(emission_of(hit) == black_spec());
}

/// With no object between the ray's origin and the light, there is no shadow.
pub proof fn lemma_no_occluder_no_shadow(objects: Seq<Object>, o: Vec3, d: Vec3)
    requires
        forall|i: int| 0 <= i < objects.len() ==> !occludes(#[trigger] objects[i].intersect_spec(o, d)),
    ensures
        first_shadow(objects, o, d) == 0,
    decreases objects.len(),
{
    if objects.len() > 0 {
        let rest = objects.drop_first();
        assert forall|i: int| 0 <= i < rest.len() implies !occludes(#[trigger] rest[i].intersect_spec(o, d)) by {
            assert(rest[i] == objects[i + 1]);
        }
        assert(!occludes(objects[0].intersect_spec(o, d)));
        lemma_no_occluder_no_shadow(rest, o, d);
    }
}

/// When every object misses the ray, so does the nearest-hit scan.
pub proof fn lemma_all_miss_no_hit(objects: Seq<Object>, o: Vec3, d: Vec3)
    requires
        forall|i: int| 0 <= i < objects.len() ==> !(#[trigger] objects[i].intersect_spec(o, d)).is_intersecting,
    ensures
        !nearest(objects, o, d).is_intersecting,
    decreases objects.len(),
{
    if objects.len() > 0 {
        let rest = objects.drop_last();
        assert forall|i: int| 0 <= i < rest.len() implies !(#[trigger] rest[i].intersect_spec(o, d)).is_intersecting by {
            assert(rest[i] == objects[i]);
        }
        assert(!objects[objects.len() - 1].intersect_spec(o, d).is_intersecting);
        lemma_all_miss_no_hit(rest, o, d);
    }
}

/// A ray that meets none of the objects shows the skybox, set by its
/// direction and the day/night intensity alone, whatever the lights: its
/// ground and sky colours lie channel by channel between their night and day
/// values, and are the night ones at intensity 0 and the day ones at full
/// intensity.
pub proof fn lemma_miss_shows_sky(
    o: Vec3,
    d: Vec3,
    objects: Seq<Object>,
    lights: Seq<Vec3>,
    other_lights: Seq<Vec3>,
    depth: int,
    ambient: int,
)
    requires
        depth <= MAX_DEPTH,
        forall|i: int| 0 <= i < objects.len() ==> !(#[trigger] objects[i].intersect_spec(o, d)).is_intersecting,
        bounded(d, SCALE as int),
        0 <= ambient <= SCALE,
    ensures
        cast_ray_spec(o, d, objects, lights, depth, ambient) == skybox_spec(d.y as int, ambient),
        cast_ray_spec(o, d, objects, lights, depth, ambient)
            == cast_ray_spec(o, d, objects, other_lights, depth, ambient),
        cast_ray_spec(o, d, objects, lights, depth, ambient) == interpolate_spec(
            interpolate_spec(ground_night(), ground_day(), ambient),
            interpolate_spec(sky_night(), sky_day(), ambient),
            (d.y + SCALE) / 2,
        ),
        colour_between(interpolate_spec(sky_night(), sky_day(), ambient), sky_night(), sky_day()),
        colour_between(interpolate_spec(ground_night(), ground_day(), ambient), ground_night(), ground_day()),
        skybox_spec(d.y as int, 0) == interpolate_spec(ground_night(), sky_night(), (d.y + SCALE) / 2),
        skybox_spec(d.y as int, SCALE as int) == interpolate_spec(ground_day(), sky_day(), (d.y + SCALE) / 2),
{
    lemma_all_miss_no_hit(objects, o, d);
    lemma_interpolate_between(sky_night(), sky_day(), ambient);
    lemma_interpolate_between(ground_night(), ground_day(), ambient);
    lemma_interpolate_between(sky_night(), sky_day(), 0);
    lemma_interpolate_between(ground_night(), ground_day(), 0);
    lemma_interpolate_between(sky_night(), sky_day(), SCALE as int);
    lemma_interpolate_between(ground_night(), ground_day(), SCALE as int);
}

/// Each channel of `c` lies between those of `a` and `b`.
pub open spec fn colour_between(c: Color, a: Color, b: Color) -> bool {
    &&& (a.r <= c.r <= b.r || b.r <= c.r <= a.r)
    &&& (a.g <= c.g <= b.g || b.g <= c.g <= a.g)
    &&& (a.b <= c.b <= b.b || b.b <= c.b <= a.b)
}

proof fn lemma_interpolate_between(a: Color, b: Color, f: int)
    requires
        0 <= f <= SCALE,
    ensures
        colour_between(interpolate_spec(a, b, f), a, b),
        interpolate_spec(a, b, 0) == a,
        interpolate_spec(a, b, SCALE as int) == b,
{
    crate::color::lemma_lerp_between(a.r as int, b.r as int, f);
    crate::color::lemma_lerp_between(a.g as int, b.g as int, f);
    crate::color::lemma_lerp_between(a.b as int, b.b as int, f);
}

proof fn lemma_dark_lights(hit: Intersect, o: Vec3, d: Vec3, objects: Seq<Object>, lights: Seq<Vec3>)
    requires
        hit.material.albedo[0] == 0,
        hit.material.albedo[1] == 0,
    ensures
        light_sums(hit, o, d, objects, lights) == (black_spec(), black_spec()),
    decreases lights.len(),
{
    if lights.len() > 0 {
        lemma_dark_lights(hit, o, d, objects, lights.drop_last());
        let (ld, ls) = light_terms(hit, o, d, objects, lights.last());
        lemma_scale_zero(hit.material.diffuse);
        lemma_scale_zero(white_spec());
        assert(ld == black_spec());
        assert(ls == black_spec());
    }
}

proof fn lemma_scale_zero(c: Color)
    ensures
        scale_spec(c, 0) == black_spec(),
        forall|f: int| #[trigger] scale_spec(black_spec(), f) == black_spec(),
{
    assert(c.r * 0 == 0 && c.g * 0 == 0 && c.b * 0 == 0);
    assert forall|f: int| #[trigger] scale_spec(black_spec(), f) == black_spec() by {
        assert(0 * f == 0);
    }
}

/// Emission is added once, after the lights: the colour at an emissive hit
/// is the colour the same surface would have without emitting, plus its
/// emission, whatever the lights and shadows.
pub proof fn lemma_emission_added_once(
    o: Vec3,
    d: Vec3,
    objects: Seq<Object>,
    lights: Seq<Vec3>,
    depth: int,
    ambient: int,
)
    requires
        depth <= MAX_DEPTH,
        nearest(objects, o, d).is_intersecting,
    ensures
        ({
            let hit = nearest(objects, o, d);
            let plain = Intersect { material: Material { is_emissive: false, ..hit.material }, ..hit };
            let (td, ts) = light_sums(plain, o, d, objects, lights);
            cast_ray_spec(o, d, objects, lights, depth, ambient) == add_spec(add_spec(td, ts), emission_of(hit))
        }),
{
    let hit = nearest(objects, o, d);
    let plain = Intersect { material: Material { is_emissive: false, ..hit.material }, ..hit };
    lemma_emission_ignored_by_lights(hit, plain, o, d, objects, lights);
}

proof fn lemma_emission_ignored_by_lights(
    hit: Intersect,
    plain: Intersect,
    o: Vec3,
    d: Vec3,
    objects: Seq<Object>,
    lights: Seq<Vec3>,
)
    requires
        plain == (Intersect { material: Material { is_emissive: false, ..hit.material }, ..hit }),
    ensures
        light_sums(plain, o, d, objects, lights) == light_sums(hit, o, d, objects, lights),
    decreases lights.len(),
{
    if lights.len() > 0 {
        lemma_emission_ignored_by_lights(hit, plain, o, d, objects, lights.drop_last());
        assert(light_terms(plain, o, d, objects, lights.last()) == light_terms(hit, o, d, objects, lights.last()));
    }
}

/// A surface that emits and has no diffuse or specular weight shows exactly
/// its emission, whatever the lights and shadows.
pub proof fn lemma_emission_only(
    o: Vec3,
    d: Vec3,
    objects: Seq<Object>,
    lights: Seq<Vec3>,
    depth: int,
    ambient: int,
)
    requires
        depth <= MAX_DEPTH,
        nearest(objects, o, d).is_intersecting,
        nearest(objects, o, d).material.is_emissive,
        nearest(objects, o, d).material.albedo[0] == 0,
        nearest(objects, o, d).material.albedo[1] == 0,
    ensures
        cast_ray_spec(o, d, objects, lights, depth, ambient) == nearest(objects, o, d).material.emission,
{
    let hit = nearest(objects, o, d);
    lemma_dark_lights(hit, o, d, objects, lights);
}

} // verus!
