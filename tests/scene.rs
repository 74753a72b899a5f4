use raytracer::color::{Color, FIXED_ONE};
use raytracer::cube::{Cube, Intersect, RayIntersect, Vec3};
use raytracer::light::Light;
use raytracer::material::{CubeFace, Material, TexturePolicy};
use raytracer::render::{background_color, cast_ray, generate_lights_from_emissive_objects, offset_origin};
use raytracer::texture::Texture;
use raytracer::trace::{cast_shadow, SHADOW_PARTIAL};

const U: i64 = FIXED_ONE as i64;

fn unit_cube(m: Material) -> Cube {
    Cube::new(Vec3::new(-U / 2, -U / 2, -U / 2), Vec3::new(U / 2, U / 2, U / 2), m)
}

fn matte(c: Color) -> Material {
    Material::new(c, 0, [FIXED_ONE, 0, 0, 0], FIXED_ONE)
}

#[test]
fn frontal_ray_hits_front_face_at_entry() {
    let c = unit_cube(matte(Color::new(1, 2, 3)));
    let i = c.intersect(&Vec3::new(0, 0, 5 * U), &Vec3::new(0, 0, -U));
    assert!(i.is_intersecting);
    assert_eq!(i.face, CubeFace::Front);
    assert_eq!(i.normal, Vec3::new(0, 0, 1));
    assert_eq!(i.point, Vec3::new(0, 0, U / 2));
    // entry at t = 4.5 direction lengths
    assert_eq!(i.distance_num * 2, 9 * i.distance_den);
}

#[test]
fn ray_pointing_away_misses() {
    let c = unit_cube(matte(Color::new(1, 2, 3)));
    let i = c.intersect(&Vec3::new(0, 0, 5 * U), &Vec3::new(3, -2, U));
    assert_eq!(i, Intersect::empty());
    assert!(!i.is_intersecting);
}

#[test]
fn ray_from_inside_reports_exit() {
    let c = unit_cube(matte(Color::new(1, 2, 3)));
    let i = c.intersect(&Vec3::new(0, 0, 0), &Vec3::new(0, U, 0));
    assert!(i.is_intersecting);
    assert!(i.distance_num >= 0);
    assert_eq!(i.face, CubeFace::Top);
    assert_eq!(i.distance_num * 2, i.distance_den);
    assert_eq!(i.point, Vec3::new(0, U / 2, 0));
}

#[test]
fn parallel_ray_outside_slab_misses() {
    let c = unit_cube(matte(Color::new(1, 2, 3)));
    let i = c.intersect(&Vec3::new(U, 0, 5 * U), &Vec3::new(0, 0, -U));
    assert!(!i.is_intersecting);
}

#[test]
fn edge_hit_prefers_minus_x() {
    let c = unit_cube(matte(Color::new(1, 2, 3)));
    let i = c.intersect(&Vec3::new(-U / 2, U / 2, 5 * U), &Vec3::new(0, 0, -U));
    assert!(i.is_intersecting);
    assert_eq!(i.face, CubeFace::Left);
}

#[test]
fn face_coordinates_repeat_every_unit() {
    let c = Cube::new(Vec3::new(0, 0, 0), Vec3::new(4 * U, U, 4 * U), matte(Color::black()));
    let i = c.intersect(&Vec3::new(U + U / 4, 3 * U, -(U / 2)), &Vec3::new(0, -U, 0));
    assert!(!i.is_intersecting);
    let i = c.intersect(&Vec3::new(U + U / 4, 3 * U, 2 * U + U / 2), &Vec3::new(0, -U, 0));
    assert_eq!(i.face, CubeFace::Top);
    assert_eq!(i.texture_coords(), (FIXED_ONE / 4, FIXED_ONE / 2));
}

fn white_light(y: i64, radius: i64) -> Light {
    Light::new(Vec3::new(0, y, 0), Color::new(255, 255, 255), FIXED_ONE, radius)
}

fn top_hit(c: &Cube) -> Intersect {
    c.intersect(&Vec3::new(0, 5 * U, 0), &Vec3::new(0, -U, 0))
}

#[test]
fn shadow_out_of_range_is_full() {
    let c = unit_cube(matte(Color::new(1, 2, 3)));
    let blocker = Cube::new(Vec3::new(-U, 2 * U, -U), Vec3::new(U, 2 * U + U / 2, U), matte(Color::black()));
    let hit = top_hit(&c);
    let objects = vec![c.clone(), blocker];
    assert_eq!(cast_shadow(&hit, &white_light(3 * U, U), &objects), FIXED_ONE);
}

#[test]
fn shadow_with_one_blocker_is_partial() {
    let c = unit_cube(matte(Color::new(1, 2, 3)));
    let blocker = Cube::new(Vec3::new(-U, 2 * U, -U), Vec3::new(U, 2 * U + U / 2, U), matte(Color::black()));
    let hit = top_hit(&c);
    let objects = vec![c.clone(), blocker];
    assert_eq!(cast_shadow(&hit, &white_light(3 * U, 10 * U), &objects), SHADOW_PARTIAL);
    let alone = vec![c.clone()];
    assert_eq!(cast_shadow(&hit, &white_light(3 * U, 10 * U), &alone), 0);
}

#[test]
fn past_max_depth_gives_background() {
    let objects = vec![unit_cube(matte(Color::new(1, 2, 3)))];
    let lights = vec![white_light(3 * U, 10 * U)];
    let c = cast_ray(&Vec3::new(0, 5 * U, 0), &Vec3::new(0, -U, 0), &objects, &lights, &Color::black(), 4);
    assert_eq!(c, background_color());
    assert_eq!(c, Color::new(68, 142, 228));
}

#[test]
fn missed_ray_sees_sky_and_sun() {
    let objects = vec![unit_cube(matte(Color::new(1, 2, 3)))];
    let lights = vec![white_light(3 * U, 10 * U)];
    let c = cast_ray(&Vec3::new(0, 5 * U, 0), &Vec3::new(0, U, 0), &objects, &lights, &Color::new(100, 100, 100), 0);
    assert_eq!(c, Color::new(255, 255, 250));
    let away = cast_ray(&Vec3::new(0, 5 * U, 0), &Vec3::new(U, 0, 0), &objects, &lights, &Color::new(100, 100, 100), 0);
    assert_eq!(away, Color::new(50, 50, 50));
}

#[test]
fn lit_top_face_of_matte_cube() {
    let material_color = Color::new(200, 100, 50);
    let objects = vec![unit_cube(matte(material_color))];
    let lights = vec![white_light(3 * U, 10 * U)];
    let c = cast_ray(&Vec3::new(0, 5 * U, 0), &Vec3::new(0, -U, 0), &objects, &lights, &Color::new(255, 255, 255), 0);
    // diffuse weight 1, attenuation 16/17, plus a tenth of the color as ambient
    assert_eq!(c, Color::new(208, 104, 52));
    let expected = [200.0f64, 100.0, 50.0].map(|ch| ch * 16.0 / 17.0 + ch * 0.1);
    for (got, want) in [c.r, c.g, c.b].iter().zip(expected.iter()) {
        assert!((*got as f64 - want).abs() <= 2.0);
    }
    let dark = cast_ray(&Vec3::new(0, 5 * U, 0), &Vec3::new(0, -U, 0), &objects, &lights, &Color::black(), 0);
    assert_eq!(dark, Color::new(188, 94, 47));
}

#[test]
fn transparent_unit_index_passes_straight_through() {
    let glass = Material::new(Color::new(9, 9, 9), 10, [FIXED_ONE / 2, FIXED_ONE / 2, 0, FIXED_ONE], FIXED_ONE);
    let back = Cube::new(Vec3::new(-4 * U, -4 * U, -6 * U), Vec3::new(4 * U, 4 * U, -5 * U), matte(Color::new(200, 30, 30)));
    let objects = vec![unit_cube(glass), back];
    let lights = vec![Light::new(Vec3::new(0, 0, 3 * U), Color::new(255, 255, 255), FIXED_ONE, 20 * U)];
    let amb = Color::new(40, 40, 40);
    let d = Vec3::new(0, 0, -U);
    let through = cast_ray(&Vec3::new(0, 0, 5 * U), &d, &objects, &lights, &amb, 0);
    let hit = objects[0].intersect(&Vec3::new(0, 0, 5 * U), &d);
    let origin = offset_origin(&hit, &d);
    assert_eq!(origin, Vec3::new(0, 0, U / 2 - 1));
    let straight = cast_ray(&origin, &d, &objects, &lights, &amb, 1);
    assert_eq!(through, straight);
    assert_ne!(through, Color::black());
}

#[test]
fn textured_material_uses_policy_slot() {
    let top = Texture::from_rgba(1, 1, &vec![0, 200, 0, 255]);
    let side = Texture::from_rgba(1, 1, &vec![120, 60, 0, 255]);
    let grass = matte(Color::new(0, 255, 0)).with_textures(vec![top, side]).with_texture_policy(TexturePolicy::TopAndSides);
    let objects = vec![unit_cube(grass)];
    let lights = vec![white_light(3 * U, 10 * U)];
    let from_top = cast_ray(&Vec3::new(0, 5 * U, 0), &Vec3::new(0, -U, 0), &objects, &lights, &Color::black(), 0);
    assert_eq!(from_top, Color::new(0, 188, 0));
    assert_eq!(TexturePolicy::TopAndSides.slot(CubeFace::Left), 1);
    assert_eq!(TexturePolicy::Uniform.slot(CubeFace::Left), 0);
}

#[test]
fn material_builders_and_flags() {
    let m = Material::new(Color::new(1, 1, 1), 5, [FIXED_ONE, 0, 0, 0], FIXED_ONE);
    assert!(m.is_diffuse() && !m.is_reflective() && !m.is_transparent() && !m.is_emissive());
    let m = m.with_emission(Color::new(0, 0, 1));
    assert!(m.is_emissive());
    let b = Material::black();
    assert_eq!(b.properties, [0, 0, 0, 0]);
    assert_eq!(b.refractive_index, FIXED_ONE);
    assert!(Material::new(Color::black(), 0, [0, 1, 1, 1], FIXED_ONE).is_reflective());
}

#[test]
fn emissive_boxes_become_lights() {
    let glow = matte(Color::new(255, 255, 200)).with_emission(Color::new(255, 255, 255));
    let objects = vec![
        unit_cube(matte(Color::new(1, 1, 1))),
        Cube::new(Vec3::new(0, 0, 0), Vec3::new(3 * U, 0, 4 * U), glow),
    ];
    let ls = generate_lights_from_emissive_objects(&objects);
    assert_eq!(ls.len(), 1);
    assert_eq!(ls[0].position, Vec3::new(3 * U / 2, 0, 2 * U));
    assert_eq!(ls[0].intensity, 10 * FIXED_ONE);
    assert_eq!(ls[0].radius, 50 * U);
    assert_eq!(ls[0].color, Color::new(255, 255, 255));
}

#[test]
fn empty_intersect_is_sentinel() {
    let e = Intersect::new();
    assert!(!e.is_intersecting);
    assert_eq!(e.distance_num, i64::MAX);
    assert_eq!(e, Intersect::empty());
    assert_eq!(e.material, Material::black());
}

#[test]
fn hit_carries_box_material() {
    let m = matte(Color::new(7, 8, 9)).with_textures(vec![Texture::from_rgba(1, 1, &vec![1, 2, 3, 4])]);
    let c = unit_cube(m.clone());
    let i = c.intersect(&Vec3::new(0, 0, 5 * U), &Vec3::new(0, 0, -U));
    assert!(i.is_intersecting);
    assert_eq!(i.material, m);
    assert_eq!(m.duplicate(), m);
}

#[test]
fn face_within_tolerance_of_earlier_plane() {
    let c = unit_cube(matte(Color::new(1, 2, 3)));
    // the hit lies 0.45 steps (4.5e-5 world units) inside the -X plane
    let i = c.intersect(&Vec3::new(-U / 2, 0, 5 * U), &Vec3::new(1, 0, -10 * U));
    assert!(i.is_intersecting);
    assert_eq!(i.face, CubeFace::Left);
    assert_eq!(i.normal, Vec3::new(-1, 0, 0));
    // 2.25 steps inside is beyond the tolerance: the +Z face
    let j = c.intersect(&Vec3::new(-U / 2, 0, 5 * U), &Vec3::new(1, 0, -2 * U));
    assert_eq!(j.face, CubeFace::Front);
}

#[test]
fn ambient_term_is_a_tenth() {
    let far = Cube::new(Vec3::new(-U / 2, -U / 2, -7 * U / 2), Vec3::new(U / 2, U / 2, -5 * U / 2), Material::new(Color::new(200, 0, 0), 0, [0; 4], FIXED_ONE));
    let near = unit_cube(Material::new(Color::new(0, 200, 0), 0, [0; 4], FIXED_ONE));
    let lights = vec![white_light(100 * U, U)];
    let w = Color::new(255, 255, 255);
    let o = Vec3::new(0, 0, 5 * U);
    let d = Vec3::new(0, 0, -U);
    assert_eq!(cast_ray(&o, &d, &[far.clone(), near.clone()], &lights, &w, 0), Color::new(0, 20, 0));
    assert_eq!(cast_ray(&o, &d, &[near, far], &lights, &w, 0), Color::new(0, 20, 0));
}

#[test]
fn past_max_depth_needs_no_lights() {
    let c = cast_ray(&Vec3::new(0, 0, 0), &Vec3::new(0, 0, 0), &[], &[], &Color::black(), 7);
    assert_eq!(c, Color::new(68, 142, 228));
}

#[test]
fn trait_test_matches_slab_test() {
    let c = unit_cube(matte(Color::new(1, 2, 3)));
    let o = Vec3::new(3 * U, U / 4, 0);
    let d = Vec3::new(-U, 0, 0);
    let i = c.ray_intersect(&o, &d);
    assert_eq!(i, c.intersect(&o, &d));
    assert_eq!(i.face, CubeFace::Right);
    assert_eq!(i.point, Vec3::new(U / 2, U / 4, 0));
}

#[test]
fn box_beyond_the_light_casts_no_shadow() {
    let c = unit_cube(matte(Color::new(1, 2, 3)));
    let beyond = Cube::new(Vec3::new(-U, 4 * U, -U), Vec3::new(U, 5 * U, U), matte(Color::black()));
    let hit = top_hit(&c);
    let objects = vec![c.clone(), beyond];
    assert_eq!(cast_shadow(&hit, &white_light(3 * U, 10 * U), &objects), 0);
}
