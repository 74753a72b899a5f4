use vstd::prelude::*;
use crate::color::{add_colors, mul_colors, scale_color, Color, FIXED_ONE};
use crate::cube::{face_uv, normal_of, Cube, Intersect, Vec3};
use crate::light::{in_scene, Light};
use crate::material::{texture_slot, Material};
use crate::texture::cell_of;
use crate::trace::{diff, scene_boxes, shadow_factor, cast_shadow};
use crate::vector::{dot, normalize, unit};

verus! {

/// Weight of the raw surface color per light on an emissive surface.
pub const GLOW_SURFACE: u32 = 7000;
/// Weight of the computed lighting per light on an emissive surface.
pub const GLOW_LIGHTING: u32 = 3000;
/// Weight of the accumulated lighting in the final emissive blend.
pub const EMISSIVE_LIGHTING: u32 = 6000;
/// Weight of the raw surface color in the final emissive blend.
pub const EMISSIVE_SURFACE: u32 = 4000;
/// Weight of the ambient term.
pub const AMBIENT_WEIGHT: u32 = 1000;
/// Weight of the ambient color in the sky.
pub const SKY_AMBIENT: u32 = 5000;
/// Exponent of the sun's glow in the sky.
pub const SUN_EXPONENT: u32 = 20;

pub open spec fn clamp0(x: int) -> int {
    if x < 0 { 0 } else { x }
}

pub open spec fn clamp1(x: int) -> int {
    if x > FIXED_ONE { FIXED_ONE as int } else { x }
}

/// `x` to the power `e` in fixed point, rounding down after each product.
pub open spec fn pow_fixed(x: int, e: nat) -> int
    decreases e,
{
    if e == 0 { FIXED_ONE as int } else { pow_fixed(x, (e - 1) as nat) * x / FIXED_ONE as int }
}

pub open spec fn vadd(a: Vec3, b: Vec3) -> Vec3 {
    Vec3 { x: (a.x + b.x) as i64, y: (a.y + b.y) as i64, z: (a.z + b.z) as i64 }
}

/// Color of the surface at a hit: the material's flat color, or the texture that
/// the material's policy picks for the face, sampled at twice the face coordinates.
pub open spec fn surface_color(m: Material, hit: Intersect) -> Color {
    if m.textures@.len() == 0 {
        m.color
    } else {
        let (u, v) = face_uv(hit.point, hit.face);
        let t = m.textures@[texture_slot(m.texture_policy, hit.face)];
        t.at(cell_of((2 * u) % FIXED_ONE as int, t.width as int), cell_of((2 * v) % FIXED_ONE as int, t.height as int))
    }
}

/// `1 / (1 + d2 / r^2)` in fixed point.
pub open spec fn attenuation(d2: int, r: int) -> int {
    r * r * FIXED_ONE as int / (r * r + d2)
}

/// Diffuse and specular color that one light adds at a point, or nothing when the
/// light is out of range.
pub open spec fn light_terms(p: Vec3, n: Vec3, eye: Vec3, m: Material, sc: Color, l: Light, objects: Seq<Cube>) -> Option<(Color, Color)> {
    let v = diff(l.position, p);
    let d2 = dot(v, v);
    let s = shadow_factor(p, l, objects);
    if d2 > l.radius * l.radius || s >= FIXED_ONE {
        None
    } else {
        let one = FIXED_ONE as int;
        let ld = unit(v);
        let li = (one - s) * l.intensity / one * attenuation(d2, l.radius as int) / one;
        let di = clamp0(dot(n, ld));
        let diffuse = scale_color(mul_colors(sc, l.color), m.properties@[0] * di / one * li / one);
        let h = unit(vadd(ld, unit(diff(eye, p))));
        let si = pow_fixed(clamp0(dot(h, n)), m.shininess as nat);
        let specular = scale_color(l.color, m.properties@[1] * si / one * li / one);
        Some((diffuse, specular))
    }
}

/// Direct lighting from the first `k` lights.
pub open spec fn lit(p: Vec3, n: Vec3, eye: Vec3, m: Material, sc: Color, lights: Seq<Light>, objects: Seq<Cube>, k: int) -> Color
    decreases k,
{
    if k <= 0 {
        Color::black_spec()
    } else {
        let acc = lit(p, n, eye, m, sc, lights, objects, k - 1);
        match light_terms(p, n, eye, m, sc, lights[k - 1], objects) {
            None => acc,
            Some((d, s)) => if m.is_emissive_spec() {
                add_colors(add_colors(acc, scale_color(sc, GLOW_SURFACE as int)), scale_color(add_colors(d, s), GLOW_LIGHTING as int))
            } else {
                add_colors(add_colors(acc, d), s)
            },
        }
    }
}

/// Surface color with direct lighting, emission and the ambient term.
pub open spec fn local_color(p: Vec3, n: Vec3, eye: Vec3, m: Material, sc: Color, lights: Seq<Light>, objects: Seq<Cube>, ambient: Color) -> Color {
    let l = lit(p, n, eye, m, sc, lights, objects, lights.len() as int);
    let e = if m.is_emissive_spec() {
        add_colors(scale_color(l, EMISSIVE_LIGHTING as int), scale_color(sc, EMISSIVE_SURFACE as int))
    } else {
        add_colors(l, m.emission)
    };
    add_colors(e, scale_color(mul_colors(sc, ambient), AMBIENT_WEIGHT as int))
}

/// The final blend: `base * (1 - r - t) + reflected * r + refracted * t`, with the
/// base weight floored at zero.
pub open spec fn blend(base: Color, reflected: Color, refracted: Color, r: int, t: int) -> Color {
    let w = if r + t >= FIXED_ONE { 0 } else { FIXED_ONE - r - t };
    add_colors(add_colors(scale_color(base, w), scale_color(reflected, r)), scale_color(refracted, t))
}

/// Sky seen along `d`: half the ambient color plus a warm glow where `d` meets the
/// direction of the sun at `sun`.
pub open spec fn sky_gradient(d: Vec3, sun: Vec3, ambient: Color) -> Color {
    let glow = pow_fixed(clamp1(clamp0(dot(unit(d), unit(sun)) / FIXED_ONE as int)), SUN_EXPONENT as nat);
    add_colors(scale_color(ambient, SKY_AMBIENT as int), scale_color(Color { r: 255, g: 255, b: 200 }, glow))
}

/// Product of two fixed-point values.
fn fixed_mul(a: u64, b: u64) -> (r: u64)
    requires
        a <= 0x8000_0000,
        b <= 0x8000_0000,
    ensures
        r == a * b / FIXED_ONE as int,
        b <= FIXED_ONE ==> r <= a,
        a <= FIXED_ONE ==> r <= b,
        a <= 0x10_0000 && b <= 0x10_0000 ==> r <= 0x4000_0000,
{
    proof {
        assert(a * b <= 0x8000_0000 * 0x8000_0000) by (nonlinear_arith)
            requires a <= 0x8000_0000, b <= 0x8000_0000;
        if b <= 10000 {
            assert(a * b / 10000 <= a) by (nonlinear_arith)
                requires b <= 10000, a >= 0, b >= 0;
        }
        if a <= 10000 {
            assert(a * b / 10000 <= b) by (nonlinear_arith)
                requires a <= 10000, a >= 0, b >= 0;
        }
        if a <= 0x10_0000 && b <= 0x10_0000 {
            assert(a * b / 10000 <= 0x4000_0000) by (nonlinear_arith)
                requires a <= 0x10_0000, b <= 0x10_0000, a >= 0, b >= 0;
        }
    }
    a * b / FIXED_ONE as u64
}

/// Fixed-point power (see `pow_fixed`).
pub fn pow_fixed_exec(x: u32, e: u32) -> (r: u32)
    requires
        x <= FIXED_ONE,
    ensures
        r == pow_fixed(x as int, e as nat),
        r <= FIXED_ONE,
{
    let mut acc: u32 = FIXED_ONE;
    let mut i: u32 = 0;
    while i < e
        invariant
            i <= e,
            x <= FIXED_ONE,
            acc <= FIXED_ONE,
            acc == pow_fixed(x as int, i as nat),
        decreases e - i,
    {
        acc = fixed_mul(acc as u64, x as u64) as u32;
        i = i + 1;
    }
    acc
}

/// A face normal's dot product with `v`, by cases.
pub proof fn lemma_normal_dot(f: crate::material::CubeFace, v: Vec3)
    ensures
        dot(normal_of(f), v) == dot(v, normal_of(f)),
        dot(normal_of(f), v) == match f {
            crate::material::CubeFace::Left => -v.x,
            crate::material::CubeFace::Right => v.x as int,
            crate::material::CubeFace::Bottom => -v.y,
            crate::material::CubeFace::Top => v.y as int,
            crate::material::CubeFace::Back => -v.z,
            crate::material::CubeFace::Front => v.z as int,
        },
{
    let n = normal_of(f);
    assert(dot(n, v) == dot(v, n)) by (nonlinear_arith)
        requires dot(n, v) == n.x * v.x + n.y * v.y + n.z * v.z, dot(v, n) == v.x * n.x + v.y * n.y + v.z * n.z;
    assert(-1 <= n.x <= 1 && -1 <= n.y <= 1 && -1 <= n.z <= 1);
    assert(dot(n, v) == n.x * v.x + n.y * v.y + n.z * v.z);
    if n.x == -1 && n.y == 0 && n.z == 0 {
        assert(n.x * v.x + n.y * v.y + n.z * v.z == -v.x) by (nonlinear_arith) requires n.x == -1, n.y == 0, n.z == 0;
    } else if n.x == 1 && n.y == 0 && n.z == 0 {
        assert(n.x * v.x + n.y * v.y + n.z * v.z == v.x) by (nonlinear_arith) requires n.x == 1, n.y == 0, n.z == 0;
    } else if n.y == -1 && n.x == 0 && n.z == 0 {
        assert(n.x * v.x + n.y * v.y + n.z * v.z == -v.y) by (nonlinear_arith) requires n.y == -1, n.x == 0, n.z == 0;
    } else if n.y == 1 && n.x == 0 && n.z == 0 {
        assert(n.x * v.x + n.y * v.y + n.z * v.z == v.y) by (nonlinear_arith) requires n.y == 1, n.x == 0, n.z == 0;
    } else if n.z == -1 && n.x == 0 && n.y == 0 {
        assert(n.x * v.x + n.y * v.y + n.z * v.z == -v.z) by (nonlinear_arith) requires n.z == -1, n.x == 0, n.y == 0;
    } else {
        assert(n.x * v.x + n.y * v.y + n.z * v.z == v.z) by (nonlinear_arith) requires n.z == 1, n.x == 0, n.y == 0;
    }
}

/// Dot product of a face's outward normal with `v`.
pub fn face_dot(f: crate::material::CubeFace, v: &Vec3) -> (r: i64)
    requires
        -10000 <= v.x <= 10000 && -10000 <= v.y <= 10000 && -10000 <= v.z <= 10000,
    ensures
        r == dot(normal_of(f), *v),
        r == dot(*v, normal_of(f)),
        -10000 <= r <= 10000,
{
    proof {
        lemma_normal_dot(f, *v);
    }
    match f {
        crate::material::CubeFace::Left => -v.x,
        crate::material::CubeFace::Right => v.x,
        crate::material::CubeFace::Bottom => -v.y,
        crate::material::CubeFace::Top => v.y,
        crate::material::CubeFace::Back => -v.z,
        crate::material::CubeFace::Front => v.z,
    }
}

/// Color of the surface at a hit (see `surface_color`).
pub fn surface_color_at(m: &Material, hit: &Intersect) -> (c: Color)
    requires
        m.wf(),
        hit.point.bounded(),
    ensures
        c == surface_color(*m, *hit),
{
    if m.textures.len() == 0 {
        return m.color;
    }
    let (u, v) = hit.texture_coords();
    let slot = m.texture_policy.slot(hit.face);
    assert(texture_slot(m.texture_policy, hit.face) < m.textures@.len());
    let t = &m.textures[slot];
    assert(t.wf());
    t.sample((2 * u) % FIXED_ONE, (2 * v) % FIXED_ONE)
}

/// Diffuse and specular color that one light adds at a hit (see `light_terms`).
pub fn light_terms_at(
    p: &Vec3,
    n: &Vec3,
    eye: &Vec3,
    m: &Material,
    sc: Color,
    l: &Light,
    objects: &[Cube],
    hit: &Intersect,
) -> (r: Option<(Color, Color)>)
    requires
        in_scene(*p),
        *p == hit.point,
        *n == normal_of(hit.face),
        eye.bounded(),
        l.wf(),
        scene_boxes(objects@),
        m.properties@[0] <= crate::light::WEIGHT_LIMIT,
        m.properties@[1] <= crate::light::WEIGHT_LIMIT,
    ensures
        r == light_terms(*p, *n, *eye, *m, sc, *l, objects@),
{
    let v = crate::trace::vsub(&l.position, p);
    let d2 = crate::vector::norm2(&v);
    let rr = l.radius as u64;
    assert(rr * rr <= 0x1000_0000 * 0x1000_0000) by (nonlinear_arith)
        requires 0 < rr <= 0x1000_0000;
    if d2 > rr * rr {
        return None;
    }
    let s = cast_shadow(hit, l, objects);
    if s >= FIXED_ONE {
        return None;
    }
    let ld = normalize(&v);
    let r2 = rr * rr;
    assert(r2 > 0) by (nonlinear_arith)
        requires r2 == rr * rr, rr > 0;
    let att128 = r2 as u128 * FIXED_ONE as u128 / (r2 as u128 + d2 as u128);
    assert(att128 <= 10000) by (nonlinear_arith)
        requires att128 == r2 * 10000 / (r2 + d2), r2 > 0, d2 >= 0;
    let att = att128 as u64;
    let li = fixed_mul(fixed_mul((FIXED_ONE - s) as u64, l.intensity as u64), att);
    let dn = face_dot(hit.face, &ld);
    let di: u64 = if dn < 0 { 0 } else { dn as u64 };
    let diffuse = sc.mul(&l.color).mul_scalar(fixed_mul(fixed_mul(m.properties[0] as u64, di), li) as u32);
    let vd = normalize(&crate::trace::vsub(eye, p));
    let h = normalize(&Vec3 { x: ld.x + vd.x, y: ld.y + vd.y, z: ld.z + vd.z });
    let hn = face_dot(hit.face, &h);
    let si = pow_fixed_exec(if hn < 0 { 0 } else { hn as u32 }, m.shininess);
    let specular = l.color.mul_scalar(fixed_mul(fixed_mul(m.properties[1] as u64, si as u64), li) as u32);
    Some((diffuse, specular))
}

/// Surface color with lighting, emission and ambient term (see `local_color`).
pub fn local_color_at(
    eye: &Vec3,
    m: &Material,
    sc: Color,
    lights: &[Light],
    objects: &[Cube],
    ambient: &Color,
    hit: &Intersect,
) -> (c: Color)
    requires
        in_scene(hit.point),
        eye.bounded(),
        crate::trace::scene_lights(lights@),
        scene_boxes(objects@),
        m.properties@[0] <= crate::light::WEIGHT_LIMIT,
        m.properties@[1] <= crate::light::WEIGHT_LIMIT,
    ensures
        c == local_color(hit.point, normal_of(hit.face), *eye, *m, sc, lights@, objects@, *ambient),
{
    let p = hit.point;
    let n = crate::cube::face_normal(hit.face);
    let glow = m.is_emissive();
    let mut acc = Color::black();
    let mut i: usize = 0;
    while i < lights.len()
        invariant
            in_scene(hit.point),
            p == hit.point,
            n == normal_of(hit.face),
            eye.bounded(),
            crate::trace::scene_lights(lights@),
            scene_boxes(objects@),
            m.properties@[0] <= crate::light::WEIGHT_LIMIT,
            m.properties@[1] <= crate::light::WEIGHT_LIMIT,
            glow == m.is_emissive_spec(),
            i <= lights@.len(),
            acc == lit(p, n, *eye, *m, sc, lights@, objects@, i as int),
        decreases lights.len() - i,
    {
        assert(lights@[i as int].wf());
        match light_terms_at(&p, &n, eye, m, sc, &lights[i], objects, hit) {
            None => {},
            Some((d, s)) => {
                if glow {
                    acc = acc.add(&sc.mul_scalar(GLOW_SURFACE)).add(&d.add(&s).mul_scalar(GLOW_LIGHTING));
                } else {
                    acc = acc.add(&d).add(&s);
                }
            },
        }
        i = i + 1;
    }
    let e = if glow {
        acc.mul_scalar(EMISSIVE_LIGHTING).add(&sc.mul_scalar(EMISSIVE_SURFACE))
    } else {
        acc.add(&m.emission)
    };
    e.add(&sc.mul(ambient).mul_scalar(AMBIENT_WEIGHT))
}

/// The final blend of local, reflected and refracted color (see `blend`).
pub fn blend_colors(base: &Color, reflected: &Color, refracted: &Color, r: u32, t: u32) -> (c: Color)
    ensures
        c == blend(*base, *reflected, *refracted, r as int, t as int),
{
    let w: u32 = if r as u64 + t as u64 >= FIXED_ONE as u64 { 0 } else { FIXED_ONE - r - t };
    base.mul_scalar(w).add(&reflected.mul_scalar(r)).add(&refracted.mul_scalar(t))
}

/// Sky color along a direction (see `sky_gradient`).
pub fn sky_color(d: &Vec3, sun: &Vec3, ambient: &Color) -> (c: Color)
    requires
        crate::vector::small(*d),
        crate::vector::small(*sun),
    ensures
        c == sky_gradient(*d, *sun, *ambient),
{
    let u = normalize(d);
    let s = normalize(sun);
    proof {
        assert(-10000 * 10000 <= u.x * s.x <= 10000 * 10000) by (nonlinear_arith)
            requires -10000 <= u.x <= 10000, -10000 <= s.x <= 10000;
        assert(-10000 * 10000 <= u.y * s.y <= 10000 * 10000) by (nonlinear_arith)
            requires -10000 <= u.y <= 10000, -10000 <= s.y <= 10000;
        assert(-10000 * 10000 <= u.z * s.z <= 10000 * 10000) by (nonlinear_arith)
            requires -10000 <= u.z <= 10000, -10000 <= s.z <= 10000;
    }
    let k = u.x * s.x + u.y * s.y + u.z * s.z;
    let c = if k < 0 { 0 } else { k / FIXED_ONE as i64 };
    let c32: u32 = if c > FIXED_ONE as i64 { FIXED_ONE } else { c as u32 };
    assert(c32 == clamp1(clamp0(dot(u, s) / FIXED_ONE as int)));
    let glow = pow_fixed_exec(c32, SUN_EXPONENT);
    ambient.mul_scalar(SKY_AMBIENT).add(&Color::new(255, 255, 200).mul_scalar(glow))
}

} // verus!
