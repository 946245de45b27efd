use refractor::camera::{Camera, Movement};
use refractor::color::{interpolate_color, Color};
use refractor::cube::Cube;
use refractor::material::Material;
use refractor::ray_intersect::{Fraction, Intersect};
use refractor::render::{render, TAN_HALF_FOV};
use refractor::scene::{generate_palm_tree, generate_sand_border, generate_sand_house, generate_wave_grid};
use refractor::shading::{
    calculate_light_intensity, cast_ray, cast_shadow, fixed_power, fresnel, nearest_hit, offset_origin,
    reflect, skybox_color, Object,
};
use refractor::vector::Vec3;

fn sand() -> Material {
    Material::new(Color::new(237, 201, 175), 1, [500, 100, 0, 0], 0, Color::black(), false)
}

fn lamp() -> Material {
    Material::new(Color::black(), 0, [0, 0, 0, 0], 0, Color::new(255, 223, 0), true)
}

fn ground() -> Object {
    Object::Cube(Cube::new(Vec3::new(0, 0, 0), 2000, sand()), false)
}

fn ground_top_hit() -> Intersect {
    Intersect::new(Vec3::new(0, 1000, 0), Vec3::new(0, 1000, 0), Fraction { num: 8000, den: 2000 }, sand())
}

fn blocker(y: i64) -> Object {
    Object::Cube(Cube::new(Vec3::new(0, y, 0), 1000, sand()), false)
}

#[test]
fn channel_arithmetic_saturates() {
    let a = Color::new(200, 100, 0);
    let b = Color::new(100, 100, 0);
    assert_eq!(a.add(&b), Color::new(255, 200, 0));
    assert_eq!(Color::new(100, 200, 255).scale(1500), Color::new(150, 255, 255));
    assert_eq!(Color::new(100, 201, 3).scale(500), Color::new(50, 100, 1));
    assert_eq!(Color::new(0x12, 0x34, 0x56).to_hex(), 0x123456);
    assert_eq!(Color::black(), Color::new(0, 0, 0));
    let c = Color::new(1, 2, 3);
    assert_eq!((c.red(), c.green(), c.blue()), (1, 2, 3));
}

#[test]
fn interpolation_endpoints_and_middle() {
    let a = Color::new(0, 0, 0);
    let b = Color::new(255, 255, 255);
    assert_eq!(interpolate_color(a, b, 0), a);
    assert_eq!(interpolate_color(a, b, 1000), b);
    assert_eq!(interpolate_color(a, b, 500), Color::new(127, 127, 127));
}

#[test]
fn black_material_is_inert() {
    let m = Material::black();
    assert_eq!(m.diffuse, Color::new(0, 0, 0));
    assert_eq!(m.albedo, [0, 0, 0, 0]);
    assert!(!m.is_emissive);
}

#[test]
fn day_night_intensity_formula() {
    assert_eq!(calculate_light_intensity(&Vec3::new(0, -15000, 0)), 200);
    assert_eq!(calculate_light_intensity(&Vec3::new(0, -1000, 0)), 200);
    assert_eq!(calculate_light_intensity(&Vec3::new(0, 4000, 0)), 600);
    assert_eq!(calculate_light_intensity(&Vec3::new(0, 9000, 0)), 1000);
    assert_eq!(calculate_light_intensity(&Vec3::new(15000, 15000, 0)), 1000);
}

#[test]
fn schlick_values() {
    assert_eq!(fresnel(1000, 1500), 40);
    assert_eq!(fresnel(0, 1500), 1000);
    assert_eq!(fresnel(500, 1000), 31);
    assert_eq!(fixed_power(500, 3), 125);
    assert_eq!(fixed_power(700, 0), 1000);
}

#[test]
fn reflection_mirrors_about_normal() {
    let r = reflect(&Vec3::new(1000, -1000, 0), &Vec3::new(0, 1000, 0));
    assert_eq!(r, Vec3::new(1000, 1000, 0));
}

#[test]
fn offset_moves_toward_direction_side() {
    let hit = ground_top_hit();
    assert_eq!(offset_origin(&hit, &Vec3::new(0, 5, 0)), Vec3::new(0, 1001, 0));
    assert_eq!(offset_origin(&hit, &Vec3::new(0, -5, 0)), Vec3::new(0, 999, 0));
}

#[test]
fn shadow_from_first_occluder() {
    let objects = vec![ground(), blocker(5000)];
    let s = cast_shadow(&ground_top_hit(), &Vec3::new(0, 10000, 0), &objects);
    assert_eq!(s, 849);
}

#[test]
fn shadow_shrinks_as_occluder_nears_light() {
    let near = cast_shadow(&ground_top_hit(), &Vec3::new(0, 10000, 0), &vec![blocker(5000)]);
    let far = cast_shadow(&ground_top_hit(), &Vec3::new(0, 10000, 0), &vec![blocker(8000)]);
    assert_eq!(far, 479);
    assert!(far <= near);
}

#[test]
fn no_occluder_no_shadow() {
    let s = cast_shadow(&ground_top_hit(), &Vec3::new(0, 10000, 0), &vec![ground()]);
    assert_eq!(s, 0);
    let beyond = cast_shadow(&ground_top_hit(), &Vec3::new(0, 10000, 0), &vec![blocker(20000)]);
    assert_eq!(beyond, 0);
}

#[test]
fn shadow_stops_at_first_occluder_in_list_order() {
    let objects = vec![blocker(8000), blocker(5000)];
    let s = cast_shadow(&ground_top_hit(), &Vec3::new(0, 10000, 0), &objects);
    assert_eq!(s, 479);
}

#[test]
fn miss_shows_night_and_day_sky() {
    let none: Vec<Object> = Vec::new();
    let lights = vec![Vec3::new(0, 10000, 0)];
    let up = Vec3::new(0, 1000, 0);
    let down = Vec3::new(0, -1000, 0);
    let level = Vec3::new(1000, 0, 0);
    let o = Vec3::new(0, 0, 0);
    assert_eq!(cast_ray(&o, &up, &none, &lights, 0, 0), Color::new(25, 25, 112));
    assert_eq!(cast_ray(&o, &up, &none, &lights, 0, 1000), Color::new(135, 206, 235));
    assert_eq!(cast_ray(&o, &down, &none, &lights, 0, 0), Color::new(50, 50, 50));
    assert_eq!(cast_ray(&o, &down, &none, &lights, 0, 1000), Color::new(222, 184, 135));
    assert_eq!(cast_ray(&o, &level, &none, &lights, 0, 0), Color::new(37, 37, 81));
    assert_eq!(skybox_color(&level, 0), Color::new(37, 37, 81));
}

#[test]
fn deep_ray_gets_fallback_sky() {
    let o = Vec3::new(0, 5000, 0);
    let c = cast_ray(&o, &Vec3::new(0, -1000, 0), &vec![ground()], &vec![Vec3::new(0, 10000, 0)], 4, 1000);
    assert_eq!(c, Color::new(68, 142, 228));
}

#[test]
fn lit_surface_colour() {
    let o = Vec3::new(0, 5000, 0);
    let c = cast_ray(&o, &Vec3::new(0, -1000, 0), &vec![ground()], &vec![Vec3::new(0, 10000, 0)], 0, 1000);
    assert_eq!(c, Color::new(214, 187, 167));
}

#[test]
fn emission_alone_whatever_the_shadow() {
    let lamp_cube = Object::Cube(Cube::new(Vec3::new(0, 0, 0), 2000, lamp()), true);
    let objects = vec![lamp_cube, blocker(5000)];
    let lights = vec![Vec3::new(0, 10000, 0), Vec3::new(0, 20000, 0)];
    let c = cast_ray(&Vec3::new(0, 0, 5000), &Vec3::new(0, 0, -1000), &objects, &lights, 0, 1000);
    assert_eq!(c, Color::new(255, 223, 0));
    let dark = cast_ray(&Vec3::new(0, 0, 5000), &Vec3::new(0, 0, -1000), &objects, &Vec::new(), 0, 0);
    assert_eq!(dark, Color::new(255, 223, 0));
}

#[test]
fn nearest_of_two_cubes_wins() {
    let far = Object::Cube(Cube::new(Vec3::new(0, 0, -5000), 2000, lamp()), false);
    let objects = vec![far, ground()];
    let h = nearest_hit(&Vec3::new(0, 0, 5000), &Vec3::new(0, 0, -1000), &objects);
    assert!(h.is_intersecting);
    assert_eq!(h.distance, Fraction { num: 8000, den: 2000 });
    assert!(!h.material.is_emissive);
}

fn straight_camera() -> Camera {
    Camera::new(Vec3::new(0, 0, 0), Vec3::new(0, 0, -5000), Vec3::new(0, 1000, 0))
}

#[test]
fn camera_basis_maps_axes() {
    let cam = straight_camera();
    assert_eq!(cam.base_change(&Vec3::new(0, 0, -1000)), Vec3::new(0, 0, -1000));
    assert_eq!(cam.base_change(&Vec3::new(1000, 0, 0)), Vec3::new(1000, 0, 0));
    assert_eq!(cam.base_change(&Vec3::new(0, 1000, 0)), Vec3::new(0, 1000, 0));
}

#[test]
fn camera_moves_along_its_axes() {
    let mut cam = straight_camera();
    cam.move_camera(Movement::Forward);
    assert_eq!(cam.eye, Vec3::new(0, 0, -100));
    assert_eq!(cam.center, Vec3::new(0, 0, -5100));
    cam.move_camera(Movement::Backward);
    assert_eq!(cam.eye, Vec3::new(0, 0, 0));
    cam.move_camera(Movement::Left);
    assert_eq!(cam.eye, Vec3::new(-100, 0, 0));
    cam.move_camera(Movement::Right);
    assert_eq!(cam.eye, Vec3::new(0, 0, 0));
}

#[test]
fn render_matches_cast_ray_per_pixel() {
    let cam = Camera::new(Vec3::new(0, 3000, 5000), Vec3::new(0, 0, 0), Vec3::new(0, 1000, 0));
    let objects = vec![ground()];
    let lights = vec![Vec3::new(0, 10000, 0)];
    let (w, h) = (4usize, 3usize);
    let mut fb = vec![0u32; w * h];
    render(&mut fb, w, h, &objects, &cam, &lights, 1000);
    for k in 0..w * h {
        let (x, y) = ((k % w) as i64, (k / w) as i64);
        let sx = ((2 * x - w as i64) * TAN_HALF_FOV) / h as i64;
        let sy = ((h as i64 - 2 * y) * TAN_HALF_FOV) / h as i64;
        let dir = cam.base_change(&Vec3::new(sx, sy, -1000).normalize());
        let c = cast_ray(&cam.eye, &dir, &objects, &lights, 0, 1000);
        assert_eq!(fb[k], c.to_hex());
    }
}

#[test]
fn end_to_end_center_pixel_hits_cube() {
    let cam = Camera::new(Vec3::new(5000, 5000, 10000), Vec3::new(0, 2000, 0), Vec3::new(0, 1000, 0));
    let cube = Object::Cube(Cube::new(Vec3::new(0, 0, 0), 20000, sand()), false);
    let objects = vec![cube];
    let lights = vec![Vec3::new(0, 20000, 0)];
    let dir = cam.base_change(&Vec3::new(0, 0, -1000));
    let hit = nearest_hit(&cam.eye, &dir, &objects);
    assert!(hit.is_intersecting);
    assert_eq!(hit.distance.num, 0);
    assert_eq!(hit.normal, Vec3::new(0, 0, 1000));
    let (w, h) = (8usize, 6usize);
    let mut fb = vec![0u32; w * h];
    render(&mut fb, w, h, &objects, &cam, &lights, 1000);
    let centre = fb[(h / 2) * w + w / 2];
    let sky = skybox_color(&dir, 1000).to_hex();
    assert_ne!(centre, sky);
}

#[test]
fn sand_border_skips_interior() {
    let cubes = generate_sand_border(sand(), 3, 500);
    assert_eq!(cubes.len(), 8);
    let Object::Cube(first, _) = cubes[0];
    assert_eq!(first.center, Vec3::new(0, 4900, 0));
    let Object::Cube(last, _) = cubes[7];
    assert_eq!(last.center, Vec3::new(1000, 4900, 1000));
    assert_eq!(generate_sand_border(sand(), 1, 500).len(), 1);
    assert_eq!(generate_sand_border(sand(), 0, 500).len(), 0);
}

#[test]
fn sand_house_leaves_door_and_windows() {
    let cubes = generate_sand_house(sand(), Vec3::new(-4500, 5200, -4000), 500);
    assert_eq!(cubes.len(), 94);
    let Object::Cube(first, _) = cubes[0];
    assert_eq!(first.center, Vec3::new(-4500, 5200, -4000));
    let Object::Cube(roof, _) = cubes[93];
    assert_eq!(roof.center, Vec3::new(-2500, 6700, -2000));
}

#[test]
fn wave_grid_raises_each_cell() {
    let cubes = generate_wave_grid(sand(), 2, 500, &vec![0, 10, 20, -30]);
    assert_eq!(cubes.len(), 4);
    let Object::Cube(c1, _) = cubes[1];
    assert_eq!(c1.center, Vec3::new(0, 4910, 500));
    let Object::Cube(c3, _) = cubes[3];
    assert_eq!(c3.center, Vec3::new(500, 4870, 500));
}

#[test]
fn palm_tree_trunk_then_crown() {
    let trunk = Material::new(Color::new(139, 69, 19), 1, [900, 100, 0, 0], 0, Color::black(), false);
    let cubes = generate_palm_tree(trunk, sand());
    assert_eq!(cubes.len(), 10);
    let Object::Cube(base, _) = cubes[0];
    assert_eq!(base.center, Vec3::new(0, 5000, 0));
    assert_eq!(base.size, 400);
    let Object::Cube(top, _) = cubes[4];
    assert_eq!(top.center, Vec3::new(0, 6600, 0));
    let Object::Cube(leaf, _) = cubes[9];
    assert_eq!(leaf.center, Vec3::new(-500, 7000, -500));
    assert_eq!(leaf.size, 500);
}

#[test]
fn oblique_camera_moves_undo_exactly() {
    let start = Camera::new(Vec3::new(5000, 5000, 10000), Vec3::new(0, 2000, 0), Vec3::new(0, 1000, 0));
    let mut cam = start;
    cam.move_camera(Movement::Forward);
    assert_ne!(cam.eye, start.eye);
    cam.move_camera(Movement::Backward);
    assert_eq!(cam, start);
    cam.move_camera(Movement::Left);
    assert_ne!(cam.eye, start.eye);
    cam.move_camera(Movement::Right);
    assert_eq!(cam, start);
}

#[test]
fn offset_moves_off_slanted_normal() {
    let hit = Intersect::new(Vec3::new(0, 1000, 0), Vec3::new(600, 800, 0), Fraction { num: 1, den: 1 }, sand());
    let up = offset_origin(&hit, &Vec3::new(0, 5, 0));
    assert_eq!(up, Vec3::new(1, 1001, 0));
    let back = offset_origin(&hit, &Vec3::new(-1000, 2, 0));
    assert_eq!(back, Vec3::new(-1, 999, 0));
    assert!(back.sub(&hit.point).dot(&Vec3::new(-1000, 2, 0)) >= 0);
}

#[test]
fn schlick_at_and_below_zero_index() {
    assert_eq!(fresnel(1000, -1000), 0);
    assert_eq!(fresnel(0, -1000), 0);
    assert_eq!(fresnel(1000, -500), 9000);
    assert_eq!(fresnel(0, -500), 1000);
}

#[test]
fn head_on_face_without_specular() {
    let matte = Material::new(Color::new(237, 201, 175), 1, [500, 0, 0, 0], 0, Color::black(), false);
    let cube = Object::Cube(Cube::new(Vec3::new(0, 0, 0), 2000, matte), false);
    let c = cast_ray(&Vec3::new(0, 5000, 0), &Vec3::new(0, -1000, 0), &vec![cube], &vec![Vec3::new(0, 10000, 0)], 0, 1000);
    assert_eq!(c, Color::new(177, 150, 130));
}
