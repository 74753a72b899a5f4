use vstd::prelude::*;
use crate::color::{Color, FIXED_ONE};
use crate::cube::{face_normal, floor_div, normal_of, ray_hits, slab_result, Cube, Intersect, RayIntersect, Vec3};
use crate::light::{in_scene, Light};
use crate::material::CubeFace;
use crate::shade::{
    blend_colors, face_dot, local_color_at, sky_color, sky_gradient,
    surface_color_at,
};
use crate::trace::{scene_box, scene_boxes, scene_lights};
use crate::vector::{dot, isqrt, normalize, sqrt_floor, unit};

verus! {

/// Deepest recursion level that still traces; deeper calls return the background.
pub const MAX_DEPTH: u32 = 3;

/// Distance that a secondary ray's origin is moved off the surface: one step, `1e-4`
/// world units.
pub const ORIGIN_BIAS: i64 = 1;

/// The background color returned past the deepest recursion level.
pub open spec fn background() -> Color {
    Color { r: 68, g: 142, b: 228 }
}

pub fn background_color() -> (c: Color)
    ensures
        c == background(),
{
    Color { r: 68, g: 142, b: 228 }
}

/// The mirror image `i - 2 (i . n) n` of `i` for the outward normal of face `f`.
pub open spec fn mirror(i: Vec3, f: CubeFace) -> Vec3 {
    match f {
        CubeFace::Left | CubeFace::Right => Vec3 { x: (-i.x) as i64, y: i.y, z: i.z },
        CubeFace::Bottom | CubeFace::Top => Vec3 { x: i.x, y: (-i.y) as i64, z: i.z },
        CubeFace::Back | CubeFace::Front => Vec3 { x: i.x, y: i.y, z: (-i.z) as i64 },
    }
}

/// Mirror reflection of a direction off face `f`.
pub fn reflect(incident: &Vec3, f: CubeFace) -> (r: Vec3)
    requires
        crate::vector::small(*incident),
        incident.x > i64::MIN && incident.y > i64::MIN && incident.z > i64::MIN,
    ensures
        r == mirror(*incident, f),
{
    match f {
        CubeFace::Left | CubeFace::Right => Vec3 { x: -incident.x, y: incident.y, z: incident.z },
        CubeFace::Bottom | CubeFace::Top => Vec3 { x: incident.x, y: -incident.y, z: incident.z },
        CubeFace::Back | CubeFace::Front => Vec3 { x: incident.x, y: incident.y, z: -incident.z },
    }
}

/// Snell refraction of a unit direction `i` through face `f` of a material with
/// fixed-point refractive index `eta_t`. A ray going against the normal enters (ratio
/// `1 / eta_t`, normal flipped); otherwise it leaves (ratio `eta_t`). With a negative
/// discriminant the ray is mirrored instead; equal indices leave it unchanged.
pub open spec fn refracted(i: Vec3, f: CubeFace, eta_t: int) -> Vec3 {
    let one = FIXED_ONE as int;
    if eta_t == one {
        i
    } else {
        let c0 = dot(i, normal_of(f));
        let c = if c0 < -one { -one } else if c0 > one { one } else { c0 };
        let entering = c < 0;
        let nc = if entering { -c } else { c };
        let eta = if entering { one * one / eta_t } else { eta_t };
        let s: int = if entering { -1 } else { 1 };
        let k = one - eta * eta / one * (one - nc * nc / one) / one;
        if k < 0 {
            mirror(i, f)
        } else {
            let a = s * (eta * nc / one - sqrt_floor(k * one));
            let n = normal_of(f);
            Vec3 {
                x: (eta * i.x / one + a * n.x) as i64,
                y: (eta * i.y / one + a * n.y) as i64,
                z: (eta * i.z / one + a * n.z) as i64,
            }
        }
    }
}

fn refract_component(eta: i64, c: i64, a: i64, n: i64) -> (r: i64)
    requires
        0 < eta <= 100_000_000,
        -10000 <= c <= 10000,
        -200_000_000 <= a <= 200_000_000,
        -1 <= n <= 1,
    ensures
        r == eta * c / FIXED_ONE as int + a * n,
        -400_000_000 <= r <= 400_000_000,
{
    proof {
        assert(-100_000_000 * 10000 <= eta * c <= 100_000_000 * 10000) by (nonlinear_arith)
            requires 0 < eta <= 100_000_000, -10000 <= c <= 10000;
        assert(-200_000_000 <= a * n <= 200_000_000) by (nonlinear_arith)
            requires -200_000_000 <= a <= 200_000_000, -1 <= n <= 1;
        crate::cube::lemma_floor_in_range(eta * c, 10000, -100_000_000, 100_000_000);
    }
    let q = floor_div(eta as i128 * c as i128, FIXED_ONE as i64);
    (q + a as i128 * n as i128) as i64
}

/// Refraction of a unit direction (see `refracted`).
pub fn refract(incident: &Vec3, f: CubeFace, eta_t: u32) -> (r: Vec3)
    requires
        -10000 <= incident.x <= 10000 && -10000 <= incident.y <= 10000 && -10000 <= incident.z <= 10000,
        0 < eta_t <= crate::light::WEIGHT_LIMIT,
    ensures
        r == refracted(*incident, f, eta_t as int),
        crate::vector::small(r),
{
    if eta_t == FIXED_ONE {
        return *incident;
    }
    let c0 = face_dot(f, incident);
    let c: i64 = if c0 < -10000 { -10000 } else if c0 > 10000 { 10000 } else { c0 };
    let entering = c < 0;
    let nc: i64 = if entering { -c } else { c };
    let eta: i64 = if entering { (10000 * 10000 / eta_t) as i64 } else { eta_t as i64 };
    let s: i64 = if entering { -1 } else { 1 };
    assert(0 < eta <= 100_000_000) by (nonlinear_arith)
        requires entering ==> eta == 100_000_000int / (eta_t as int), !entering ==> eta == eta_t, 0 < eta_t <= 0x10_0000;
    assert(0 <= eta * eta <= 100_000_000 * 100_000_000) by (nonlinear_arith)
        requires 0 < eta <= 100_000_000;
    assert(0 <= nc <= 10000);
    assert(0 <= nc * nc <= 10000 * 10000) by (nonlinear_arith)
        requires 0 <= nc <= 10000;
    let e2 = eta * eta / 10000;
    assert(0 <= e2 <= 1_000_000_000_000) by (nonlinear_arith)
        requires e2 == eta * eta / 10000, 0 < eta <= 100_000_000;
    let nc2 = nc * nc / 10000;
    assert(0 <= nc2 <= 10000) by (nonlinear_arith)
        requires nc2 == nc * nc / 10000, 0 <= nc <= 10000;
    assert(0 <= e2 * (10000 - nc2) <= 1_000_000_000_000 * 10000) by (nonlinear_arith)
        requires 0 <= e2 <= 1_000_000_000_000, 0 <= nc2 <= 10000;
    let prod = e2 * (10000 - nc2);
    assert(0 <= prod <= 1_000_000_000_000 * 10000) by (nonlinear_arith)
        requires prod == e2 * (10000 - nc2), 0 <= e2 <= 1_000_000_000_000, 0 <= nc2 <= 10000;
    let k = 10000 - prod / 10000;
    if k < 0 {
        return reflect(incident, f);
    }
    let sq = isqrt((k * 10000) as u64);
    assert(sq <= 10000) by (nonlinear_arith)
        requires sq * sq <= k * 10000, k <= 10000, sq >= 0;
    assert(0 <= eta * nc <= 100_000_000 * 10000) by (nonlinear_arith)
        requires 0 < eta <= 100_000_000, 0 <= nc <= 10000;
    let en = eta * nc / 10000;
    assert(0 <= en <= 100_000_000) by (nonlinear_arith)
        requires en == eta * nc / 10000, 0 < eta <= 100_000_000, 0 <= nc <= 10000;
    let a = s * (en - sq as i64);
    let n = face_normal(f);
    Vec3 {
        x: refract_component(eta, incident.x, a, n.x),
        y: refract_component(eta, incident.y, a, n.y),
        z: refract_component(eta, incident.z, a, n.z),
    }
}

/// Origin of a secondary ray leaving `p` on face `f` along `d`: `p` moved by
/// `ORIGIN_BIAS` along the normal, to the side that `d` travels into.
pub open spec fn offset(p: Vec3, f: CubeFace, d: Vec3) -> Vec3 {
    let n = normal_of(f);
    if dot(d, n) < 0 {
        Vec3 { x: (p.x - n.x) as i64, y: (p.y - n.y) as i64, z: (p.z - n.z) as i64 }
    } else {
        Vec3 { x: (p.x + n.x) as i64, y: (p.y + n.y) as i64, z: (p.z + n.z) as i64 }
    }
}

/// Secondary ray origin off a hit (see `offset`).
pub fn offset_origin(intersect: &Intersect, direction: &Vec3) -> (o: Vec3)
    requires
        in_scene(intersect.point),
        -10000 <= direction.x <= 10000 && -10000 <= direction.y <= 10000 && -10000 <= direction.z <= 10000,
    ensures
        o == offset(intersect.point, intersect.face, *direction),
        o.bounded(),
{
    let n = face_normal(intersect.face);
    let p = intersect.point;
    if face_dot(intersect.face, direction) < 0 {
        Vec3 { x: p.x - n.x * ORIGIN_BIAS, y: p.y - n.y * ORIGIN_BIAS, z: p.z - n.z * ORIGIN_BIAS }
    } else {
        Vec3 { x: p.x + n.x * ORIGIN_BIAS, y: p.y + n.y * ORIGIN_BIAS, z: p.z + n.z * ORIGIN_BIAS }
    }
}

/// `a` is reported strictly nearer than `b`.
pub open spec fn nearer(a: Intersect, b: Intersect) -> bool {
    a.distance_num * b.distance_den < b.distance_num * a.distance_den
}

/// Two reports of a hit on one box and one ray give the same distance.
proof fn lemma_distance_unique(lo: Vec3, hi: Vec3, o: Vec3, d: Vec3, a: Intersect, b: Intersect)
    requires
        slab_result(lo, hi, o, d, a),
        slab_result(lo, hi, o, d, b),
        a.is_intersecting,
    ensures
        !nearer(a, b) && !nearer(b, a),
{
    let (na, ma, nb, mb) = (a.distance_num as int, a.distance_den as int, b.distance_num as int, b.distance_den as int);
    assert(crate::cube::on_box(lo, hi, o, d, na, ma));
    assert(crate::cube::on_box(lo, hi, o, d, nb, mb));
}

proof fn lemma_lt_le_trans(a: int, b: int, c: int, d: int, e: int, f: int)
    requires
        b > 0,
        d > 0,
        f > 0,
        a * d < c * b,
        c * f <= e * d,
    ensures
        a * f < e * b,
{
    assert(a * d * f < c * b * f) by (nonlinear_arith)
        requires a * d < c * b, f > 0;
    assert(c * f * b <= e * d * b) by (nonlinear_arith)
        requires c * f <= e * d, b > 0;
    assert(a * f * d < e * b * d) by (nonlinear_arith)
        requires a * d * f < c * b * f, c * f * b <= e * d * b;
    assert(a * f < e * b) by (nonlinear_arith)
        requires a * f * d < e * b * d, d > 0;
}

proof fn lemma_le_lt_trans(a: int, b: int, c: int, d: int, e: int, f: int)
    requires
        b > 0,
        d > 0,
        f > 0,
        a * d <= c * b,
        c * f < e * d,
    ensures
        a * f < e * b,
{
    assert(a * d * f <= c * b * f) by (nonlinear_arith)
        requires a * d <= c * b, f > 0;
    assert(c * f * b < e * d * b) by (nonlinear_arith)
        requires c * f < e * d, b > 0;
    assert(a * f * d < e * b * d) by (nonlinear_arith)
        requires a * d * f <= c * b * f, c * f * b < e * d * b;
    assert(a * f < e * b) by (nonlinear_arith)
        requires a * f * d < e * b * d, d > 0;
}

/// The box that a ray meets first, scanning in order: `None` when it meets none;
/// otherwise the first box at the least distance, with its hit report.
pub fn nearest_hit(o: &Vec3, d: &Vec3, objects: &[Cube]) -> (r: (Option<usize>, Intersect))
    requires
        o.bounded(),
        d.bounded(),
        !d.is_zero(),
        scene_boxes(objects@),
    ensures
        r.0 is None <==> forall|i: int| 0 <= i < objects@.len() ==> !#[trigger] ray_hits(objects@[i].min, objects@[i].max, *o, *d),
        r.0 is None ==> r.1.is_empty_record(),
        r.0 is Some ==> {
            let k = r.0->Some_0 as int;
            &&& 0 <= k < objects@.len()
            &&& slab_result(objects@[k].min, objects@[k].max, *o, *d, r.1)
            &&& r.1.is_intersecting
            &&& r.1.carries(objects@[k].material)
            &&& forall|j: int, h: Intersect| 0 <= j < objects@.len() && #[trigger] slab_result(objects@[j].min, objects@[j].max, *o, *d, h) && h.is_intersecting
                ==> !nearer(h, r.1) && (j < k ==> nearer(r.1, h))
        },
{
    let mut best: Option<usize> = None;
    let mut hit = Intersect::empty();
    let mut i: usize = 0;
    while i < objects.len()
        invariant
            o.bounded(),
            d.bounded(),
            !d.is_zero(),
            scene_boxes(objects@),
            i <= objects@.len(),
            best is None ==> hit.is_empty_record(),
            best is None ==> forall|j: int| 0 <= j < i ==> !#[trigger] ray_hits(objects@[j].min, objects@[j].max, *o, *d),
            best is Some ==> {
                let k = best->Some_0 as int;
                &&& 0 <= k < i
                &&& slab_result(objects@[k].min, objects@[k].max, *o, *d, hit)
                &&& hit.is_intersecting
                &&& hit.carries(objects@[k].material)
                &&& hit.distance_den > 0
                &&& forall|j: int, h: Intersect| 0 <= j < i && #[trigger] slab_result(objects@[j].min, objects@[j].max, *o, *d, h) && h.is_intersecting
                    ==> !nearer(h, hit) && (j < k ==> nearer(hit, h))
            },
        decreases objects.len() - i,
    {
        assert(scene_box(objects@[i as int]));
        let c = &objects[i];
        let h = c.ray_intersect(o, d);
        proof {
            let (a, b, c2, d2) = (h.distance_num as int, hit.distance_den as int, hit.distance_num as int, h.distance_den as int);
            assert(-0x8000_0000_0000_0000 * 0x8000_0000_0000_0000 <= a * b <= 0x8000_0000_0000_0000 * 0x8000_0000_0000_0000) by (nonlinear_arith)
                requires -0x8000_0000_0000_0000 <= a <= 0x8000_0000_0000_0000, -0x8000_0000_0000_0000 <= b <= 0x8000_0000_0000_0000;
            assert(-0x8000_0000_0000_0000 * 0x8000_0000_0000_0000 <= c2 * d2 <= 0x8000_0000_0000_0000 * 0x8000_0000_0000_0000) by (nonlinear_arith)
                requires -0x8000_0000_0000_0000 <= c2 <= 0x8000_0000_0000_0000, -0x8000_0000_0000_0000 <= d2 <= 0x8000_0000_0000_0000;
        }
        let closer = h.is_intersecting && (best.is_none() || (h.distance_num as i128) * (hit.distance_den as i128) < (hit.distance_num as i128) * (h.distance_den as i128));
        if closer {
            proof {
                if best is Some {
                    let k = best->Some_0 as int;
                    assert forall|j: int, h2: Intersect| 0 <= j < i + 1 && #[trigger] slab_result(objects@[j].min, objects@[j].max, *o, *d, h2) && h2.is_intersecting
                        implies !nearer(h2, h) && (j < i ==> nearer(h, h2)) by {
                        if j < i {
                            lemma_lt_le_trans(h.distance_num as int, h.distance_den as int, hit.distance_num as int, hit.distance_den as int, h2.distance_num as int, h2.distance_den as int);
                        } else {
                            lemma_distance_unique(objects@[j].min, objects@[j].max, *o, *d, h, h2);
                        }
                    }
                } else {
                    assert forall|j: int, h2: Intersect| 0 <= j < i + 1 && #[trigger] slab_result(objects@[j].min, objects@[j].max, *o, *d, h2) && h2.is_intersecting
                        implies !nearer(h2, h) && (j < i ==> nearer(h, h2)) by {
                        if j < i {
                            assert(!ray_hits(objects@[j].min, objects@[j].max, *o, *d));
                        } else {
                            lemma_distance_unique(objects@[j].min, objects@[j].max, *o, *d, h, h2);
                        }
                    }
                }
            }
            best = Some(i);
            hit = h;
        } else {
            proof {
                if best is Some {
                    let k = best->Some_0 as int;
                    assert forall|j: int, h2: Intersect| 0 <= j < i + 1 && #[trigger] slab_result(objects@[j].min, objects@[j].max, *o, *d, h2) && h2.is_intersecting
                        implies !nearer(h2, hit) && (j < k ==> nearer(hit, h2)) by {
                        if j == i {
                            lemma_distance_unique(objects@[j].min, objects@[j].max, *o, *d, h2, h);
                            if nearer(h2, hit) {
                                lemma_le_lt_trans(h.distance_num as int, h.distance_den as int, h2.distance_num as int, h2.distance_den as int, hit.distance_num as int, hit.distance_den as int);
                            }
                        }
                    }
                }
            }
        }
        i = i + 1;
    }
    (best, hit)
}

/// `h` is a hit report of box `k`, the first box at the least distance along the ray.
pub open spec fn nearest_report(objects: Seq<Cube>, o: Vec3, d: Vec3, k: int, h: Intersect) -> bool {
    &&& 0 <= k < objects.len()
    &&& slab_result(objects[k].min, objects[k].max, o, d, h)
    &&& h.is_intersecting
    &&& forall|j: int, h2: Intersect| 0 <= j < objects.len() && #[trigger] slab_result(objects[j].min, objects[j].max, o, d, h2) && h2.is_intersecting
        ==> !nearer(h2, h) && (j < k ==> nearer(h, h2))
}

/// Lit surface color of box `k` at hit `h`, seen from `eye`.
pub open spec fn shaded(objects: Seq<Cube>, lights: Seq<Light>, ambient: Color, eye: Vec3, k: int, h: Intersect) -> Color {
    let m = objects[k].material;
    crate::shade::local_color(h.point, normal_of(h.face), eye, m, crate::shade::surface_color(m, h), lights, objects, ambient)
}

/// The final color at a hit: the lit surface blended with the colors of the mirrored
/// and refracted rays, each black when its weight is zero.
pub open spec fn composed(objects: Seq<Cube>, lights: Seq<Light>, ambient: Color, eye: Vec3, k: int, h: Intersect, rc: Color, tc: Color, c: Color) -> bool {
    let p = objects[k].material.properties@;
    &&& c == crate::shade::blend(shaded(objects, lights, ambient, eye, k, h), rc, tc, p[2] as int, p[3] as int)
    &&& p[2] == 0 ==> rc == Color::black_spec()
    &&& p[3] == 0 ==> tc == Color::black_spec()
}

/// Direction of the mirrored ray at hit `h`.
pub open spec fn mirrored_dir(d: Vec3, h: Intersect) -> Vec3 {
    unit(mirror(d, h.face))
}

/// Direction of the refracted ray at hit `h` on a material of index `eta`.
pub open spec fn refracted_dir(d: Vec3, h: Intersect, eta: int) -> Vec3 {
    unit(refracted(unit(d), h.face, eta))
}

/// `c` is the color traced along `o + t * d` at recursion level `depth`: the
/// background past `MAX_DEPTH`; the sky when no box is hit; otherwise the lit surface
/// of the nearest box blended with the colors traced one level deeper along the
/// mirrored ray (when the reflectivity is positive) and the refracted ray (when the
/// transparency is positive), each leaving from the hit point offset by the bias.
pub open spec fn traces(o: Vec3, d: Vec3, objects: Seq<Cube>, lights: Seq<Light>, ambient: Color, depth: int, c: Color) -> bool
    decreases MAX_DEPTH + 1 - depth,
{
    if depth > MAX_DEPTH {
        c == background()
    } else if forall|i: int| 0 <= i < objects.len() ==> !#[trigger] ray_hits(objects[i].min, objects[i].max, o, d) {
        c == sky_gradient(d, lights[0].position, ambient)
    } else {
        exists|k: int, h: Intersect, rc: Color, tc: Color| {
            let p = objects[k].material.properties@;
            let rd = mirrored_dir(d, h);
            let td = refracted_dir(d, h, objects[k].material.refractive_index as int);
            &&& nearest_report(objects, o, d, k, h)
            &&& #[trigger] composed(objects, lights, ambient, o, k, h, rc, tc, c)
            &&& if p[2] > 0 && !rd.is_zero() {
                traces(offset(h.point, h.face, rd), rd, objects, lights, ambient, depth + 1, rc)
            } else {
                rc == Color::black_spec()
            }
            &&& if p[3] > 0 && !td.is_zero() {
                traces(offset(h.point, h.face, td), td, objects, lights, ambient, depth + 1, tc)
            } else {
                tc == Color::black_spec()
            }
        }
    }
}

/// Color seen along the ray `o + t * d`. Past `MAX_DEPTH` it is the background; a
/// ray that meets no box sees the sky; otherwise the nearest box's surface is lit,
/// and mirrored and refracted rays are traced one level deeper and blended in by the
/// material's reflectivity and transparency.
pub fn cast_ray(
    ray_origin: &Vec3,
    ray_direction: &Vec3,
    objects: &[Cube],
    lights: &[Light],
    ambient_color: &Color,
    depth: u32,
) -> (c: Color)
    requires
        depth <= MAX_DEPTH ==> {
            &&& ray_origin.bounded()
            &&& ray_direction.bounded()
            &&& !ray_direction.is_zero()
            &&& scene_boxes(objects@)
            &&& scene_lights(lights@)
            &&& lights@.len() > 0
        },
    ensures
        traces(*ray_origin, *ray_direction, objects@, lights@, *ambient_color, depth as int, c),
        depth > MAX_DEPTH ==> c == background(),
        depth <= MAX_DEPTH && (forall|i: int| 0 <= i < objects@.len() ==> !#[trigger] ray_hits(objects@[i].min, objects@[i].max, *ray_origin, *ray_direction))
            ==> c == sky_gradient(*ray_direction, lights@[0].position, *ambient_color),
        depth <= MAX_DEPTH && (exists|i: int| 0 <= i < objects@.len() && #[trigger] ray_hits(objects@[i].min, objects@[i].max, *ray_origin, *ray_direction))
            ==> exists|k: int, h: Intersect, rc: Color, tc: Color| nearest_report(objects@, *ray_origin, *ray_direction, k, h)
                && #[trigger] composed(objects@, lights@, *ambient_color, *ray_origin, k, h, rc, tc, c),
    decreases MAX_DEPTH + 1 - depth,
{
    if depth > MAX_DEPTH {
        return background_color();
    }
    let (found, hit) = nearest_hit(ray_origin, ray_direction, objects);
    let k = match found {
        None => {
            assert(lights@[0].wf());
            return sky_color(ray_direction, &lights[0].position, ambient_color);
        },
        Some(k) => k,
    };
    proof {
        assert(!(forall|i: int| 0 <= i < objects@.len() ==> !#[trigger] ray_hits(objects@[i].min, objects@[i].max, *ray_origin, *ray_direction)));
        assert(scene_box(objects@[k as int]));
    }
    let m = &objects[k].material;
    let sc = surface_color_at(m, &hit);
    assert(m.properties@[0] <= crate::light::WEIGHT_LIMIT && m.properties@[1] <= crate::light::WEIGHT_LIMIT);
    let base = local_color_at(ray_origin, m, sc, lights, objects, ambient_color, &hit);
    let reflectivity = m.properties[2];
    let transparency = m.properties[3];
    let mut reflected = Color::black();
    if reflectivity > 0 {
        let dir = normalize(&reflect(ray_direction, hit.face));
        if !(dir.x == 0 && dir.y == 0 && dir.z == 0) {
            let origin = offset_origin(&hit, &dir);
            reflected = cast_ray(&origin, &dir, objects, lights, ambient_color, depth + 1);
        }
    }
    let mut refracted = Color::black();
    if transparency > 0 {
        let incident = normalize(ray_direction);
        let dir = normalize(&refract(&incident, hit.face, m.refractive_index));
        if !(dir.x == 0 && dir.y == 0 && dir.z == 0) {
            let origin = offset_origin(&hit, &dir);
            refracted = cast_ray(&origin, &dir, objects, lights, ambient_color, depth + 1);
        }
    }
    let c = blend_colors(&base, &reflected, &refracted, reflectivity, transparency);
    assert(nearest_report(objects@, *ray_origin, *ray_direction, k as int, hit));
    assert(composed(objects@, lights@, *ambient_color, *ray_origin, k as int, hit, reflected, refracted, c));
    c
}

/// The light that an emissive box gives off: at the box's center (rounded down), in
/// its emission color, with its emission's intensity scaled by `intensity_scale`
/// (fixed-point), reaching `radius_scale` times the box's diagonal (rounded down).
pub open spec fn glow_light(c: Cube, intensity_scale: int, radius_scale: int) -> Light {
    let e = c.material.emission;
    let diag = crate::trace::diff(c.max, c.min);
    Light {
        position: Vec3 {
            x: ((c.min.x + c.max.x) / 2) as i64,
            y: ((c.min.y + c.max.y) / 2) as i64,
            z: ((c.min.z + c.max.z) / 2) as i64,
        },
        color: e,
        intensity: ((e.r + e.g + e.b) * FIXED_ONE / 765 * intensity_scale / FIXED_ONE as int) as u32,
        radius: (sqrt_floor(dot(diag, diag)) * radius_scale) as i64,
    }
}

/// Lights of the emissive boxes among the first `k`, in order.
pub open spec fn glow_lights(objects: Seq<Cube>, k: int, intensity_scale: int, radius_scale: int) -> Seq<Light>
    decreases k,
{
    if k <= 0 {
        Seq::empty()
    } else {
        let prev = glow_lights(objects, k - 1, intensity_scale, radius_scale);
        if objects[k - 1].material.is_emissive_spec() {
            prev.push(glow_light(objects[k - 1], intensity_scale, radius_scale))
        } else {
            prev
        }
    }
}

fn glow_light_of(c: &Cube, intensity_scale: u32, radius_scale: u32) -> (l: Light)
    requires
        scene_box(*c),
        intensity_scale <= 0x10_0000,
        radius_scale <= 10000,
    ensures
        l == glow_light(*c, intensity_scale as int, radius_scale as int),
{
    let e = c.material.emission;
    let diag = crate::trace::vsub(&c.max, &c.min);
    let len = isqrt(crate::vector::norm2(&diag));
    proof {
        assert(0 <= dot(diag, diag) <= 3 * 0x2000_0000 * 0x2000_0000) by (nonlinear_arith)
            requires -0x2000_0000 <= diag.x <= 0x2000_0000, -0x2000_0000 <= diag.y <= 0x2000_0000, -0x2000_0000 <= diag.z <= 0x2000_0000,
                dot(diag, diag) == diag.x * diag.x + diag.y * diag.y + diag.z * diag.z;
        assert(len <= 0x4000_0000) by (nonlinear_arith)
            requires len * len <= dot(diag, diag), dot(diag, diag) <= 3 * 0x2000_0000 * 0x2000_0000, len >= 0;
    }
    let i = e.intensity();
    assert(len * radius_scale <= 0x4000_0000 * 10000) by (nonlinear_arith)
        requires len <= 0x4000_0000, radius_scale <= 10000;
    Light {
        position: Vec3 {
            x: floor_div(c.min.x as i128 + c.max.x as i128, 2) as i64,
            y: floor_div(c.min.y as i128 + c.max.y as i128, 2) as i64,
            z: floor_div(c.min.z as i128 + c.max.z as i128, 2) as i64,
        },
        color: e,
        intensity: fixed_scale(i, intensity_scale),
        radius: (len * radius_scale as u64) as i64,
    }
}

fn fixed_scale(i: u32, s: u32) -> (r: u32)
    requires
        i <= FIXED_ONE,
        s <= 0x10_0000,
    ensures
        r == i * s / FIXED_ONE as int,
{
    assert(i * s <= 10000 * 0x10_0000) by (nonlinear_arith)
        requires i <= 10000, s <= 0x10_0000;
    assert(i * s / 10000 <= 0x10_0000) by (nonlinear_arith)
        requires i <= 10000, s <= 0x10_0000, i >= 0, s >= 0;
    (i as u64 * s as u64 / FIXED_ONE as u64) as u32
}

/// A light for every emissive box, in order (see `glow_light`).
pub fn lights_from_emissive(objects: &[Cube], intensity_scale: u32, radius_scale: u32) -> (ls: Vec<Light>)
    requires
        scene_boxes(objects@),
        intensity_scale <= 0x10_0000,
        radius_scale <= 10000,
    ensures
        ls@ == glow_lights(objects@, objects@.len() as int, intensity_scale as int, radius_scale as int),
{
    let mut ls: Vec<Light> = Vec::new();
    let mut i: usize = 0;
    while i < objects.len()
        invariant
            scene_boxes(objects@),
            intensity_scale <= 0x10_0000,
            radius_scale <= 10000,
            i <= objects@.len(),
            ls@ == glow_lights(objects@, i as int, intensity_scale as int, radius_scale as int),
        decreases objects.len() - i,
    {
        assert(scene_box(objects@[i as int]));
        if objects[i].material.is_emissive() {
            ls.push(glow_light_of(&objects[i], intensity_scale, radius_scale));
        }
        i = i + 1;
    }
    ls
}

/// Lights of the emissive boxes: ten times their emission's intensity, reaching ten
/// times their diagonal.
pub fn generate_lights_from_emissive_objects(objects: &[Cube]) -> (ls: Vec<Light>)
    requires
        scene_boxes(objects@),
    ensures
        ls@ == glow_lights(objects@, objects@.len() as int, 10 * FIXED_ONE as int, 10),
{
    lights_from_emissive(objects, 10 * FIXED_ONE, 10)
}

/// Lights of the emissive boxes: a tenth of their emission's intensity, reaching
/// twice their diagonal.
pub fn generate_lights_from_emissive_materials(objects: &[Cube]) -> (ls: Vec<Light>)
    requires
        scene_boxes(objects@),
    ensures
        ls@ == glow_lights(objects@, objects@.len() as int, FIXED_ONE as int / 10, 2),
{
    lights_from_emissive(objects, FIXED_ONE / 10, 2)
}

/// A fully transparent, non-reflective material with refractive index 1 passes a
/// ray straight on: the refracted direction is the incident one, and the blend gives
/// exactly the color traced along it.
pub proof fn lemma_clear_material_passes_through(i: Vec3, f: CubeFace, base: Color, through: Color)
    ensures
        refracted(i, f, FIXED_ONE as int) == i,
        crate::shade::blend(base, Color::black_spec(), through, 0, FIXED_ONE as int) == through,
{
    let b = crate::shade::blend(base, Color::black_spec(), through, 0, FIXED_ONE as int);
    assert(crate::color::scale_channel(through.r as int, 10000) == through.r) by (nonlinear_arith)
        requires 0 <= through.r <= 255;
    assert(crate::color::scale_channel(through.g as int, 10000) == through.g) by (nonlinear_arith)
        requires 0 <= through.g <= 255;
    assert(crate::color::scale_channel(through.b as int, 10000) == through.b) by (nonlinear_arith)
        requires 0 <= through.b <= 255;
    assert(crate::color::scale_channel(base.r as int, 0) == 0);
    assert(crate::color::scale_channel(base.g as int, 0) == 0);
    assert(crate::color::scale_channel(base.b as int, 0) == 0);
    assert(b == through);
}

/// When the nearest box along a ray is fully transparent, not reflective and of
/// refractive index 1, the traced color is exactly the color traced one level deeper
/// along the unbent ray (the direction normalised) from the offset hit point.
pub proof fn lemma_clear_box_traces_through(
    o: Vec3,
    d: Vec3,
    objects: Seq<Cube>,
    lights: Seq<Light>,
    ambient: Color,
    depth: int,
    c: Color,
)
    requires
        depth <= MAX_DEPTH,
        exists|i: int| 0 <= i < objects.len() && #[trigger] ray_hits(objects[i].min, objects[i].max, o, d),
        forall|k: int, h: Intersect| #[trigger] nearest_report(objects, o, d, k, h) ==> {
            let m = objects[k].material;
            m.properties@[2] == 0 && m.properties@[3] == FIXED_ONE && m.refractive_index == FIXED_ONE
        },
        traces(o, d, objects, lights, ambient, depth, c),
    ensures
        exists|k: int, h: Intersect| {
            let td = unit(unit(d));
            &&& #[trigger] nearest_report(objects, o, d, k, h)
            &&& !td.is_zero() ==> traces(offset(h.point, h.face, td), td, objects, lights, ambient, depth + 1, c)
            &&& td.is_zero() ==> c == Color::black_spec()
        },
{
    let (k, h, rc, tc) = choose|k: int, h: Intersect, rc: Color, tc: Color| {
        let p = objects[k].material.properties@;
        let rd = mirrored_dir(d, h);
        let td = refracted_dir(d, h, objects[k].material.refractive_index as int);
        &&& nearest_report(objects, o, d, k, h)
        &&& #[trigger] composed(objects, lights, ambient, o, k, h, rc, tc, c)
        &&& if p[2] > 0 && !rd.is_zero() {
            traces(offset(h.point, h.face, rd), rd, objects, lights, ambient, depth + 1, rc)
        } else {
            rc == Color::black_spec()
        }
        &&& if p[3] > 0 && !td.is_zero() {
            traces(offset(h.point, h.face, td), td, objects, lights, ambient, depth + 1, tc)
        } else {
            tc == Color::black_spec()
        }
    };
    assert(nearest_report(objects, o, d, k, h));
    lemma_clear_material_passes_through(unit(d), h.face, shaded(objects, lights, ambient, o, k, h), tc);
    assert(c == tc);
}

/// When the nearest box along a ray neither reflects nor lets light through, the
/// traced color is exactly its lit surface color: the blend gives that color weight 1.
pub proof fn lemma_opaque_box_shows_surface(
    o: Vec3,
    d: Vec3,
    objects: Seq<Cube>,
    lights: Seq<Light>,
    ambient: Color,
    depth: int,
    c: Color,
)
    requires
        depth <= MAX_DEPTH,
        exists|i: int| 0 <= i < objects.len() && #[trigger] ray_hits(objects[i].min, objects[i].max, o, d),
        forall|k: int, h: Intersect| #[trigger] nearest_report(objects, o, d, k, h) ==> {
            let m = objects[k].material;
            m.properties@[2] == 0 && m.properties@[3] == 0
        },
        traces(o, d, objects, lights, ambient, depth, c),
    ensures
        exists|k: int, h: Intersect| #[trigger] nearest_report(objects, o, d, k, h)
            && c == shaded(objects, lights, ambient, o, k, h),
{
    let (k, h, rc, tc) = choose|k: int, h: Intersect, rc: Color, tc: Color| {
        let p = objects[k].material.properties@;
        let rd = mirrored_dir(d, h);
        let td = refracted_dir(d, h, objects[k].material.refractive_index as int);
        &&& nearest_report(objects, o, d, k, h)
        &&& #[trigger] composed(objects, lights, ambient, o, k, h, rc, tc, c)
        &&& if p[2] > 0 && !rd.is_zero() {
            traces(offset(h.point, h.face, rd), rd, objects, lights, ambient, depth + 1, rc)
        } else {
            rc == Color::black_spec()
        }
        &&& if p[3] > 0 && !td.is_zero() {
            traces(offset(h.point, h.face, td), td, objects, lights, ambient, depth + 1, tc)
        } else {
            tc == Color::black_spec()
        }
    };
    assert(nearest_report(objects, o, d, k, h));
    let base = shaded(objects, lights, ambient, o, k, h);
    assert(crate::color::scale_channel(base.r as int, 10000) == base.r) by (nonlinear_arith)
        requires 0 <= base.r <= 255;
    assert(crate::color::scale_channel(base.g as int, 10000) == base.g) by (nonlinear_arith)
        requires 0 <= base.g <= 255;
    assert(crate::color::scale_channel(base.b as int, 10000) == base.b) by (nonlinear_arith)
        requires 0 <= base.b <= 255;
    assert(c == base);
}

/// Equal fractions `a / m1 == b / m2` round down alike.
proof fn lemma_floor_equal(a: int, m1: int, b: int, m2: int)
    requires
        m1 > 0,
        m2 > 0,
        a * m2 == b * m1,
    ensures
        a / m1 == b / m2,
{
    crate::cube::lemma_div_mod_parts(a, m1);
    let q = a / m1;
    let r = a % m1;
    assert((b - q * m2) * m1 == r * m2) by (nonlinear_arith)
        requires a * m2 == b * m1, a == m1 * q + r;
    assert(0 <= b - q * m2 < m2) by (nonlinear_arith)
        requires (b - q * m2) * m1 == r * m2, 0 <= r < m1, m1 > 0, m2 > 0;
    vstd::arithmetic::div_mod::lemma_fundamental_div_mod_converse(b, m2, q, b - q * m2);
}

/// Whether a point lies near a plane does not depend on how its fraction is written.
proof fn lemma_near_equal(p1: int, m1: int, p2: int, m2: int, c: int)
    requires
        m1 > 0,
        m2 > 0,
        p1 * m2 == p2 * m1,
    ensures
        crate::cube::near_plane(p1, c, m1) == crate::cube::near_plane(p2, c, m2),
{
    let x = p1 - c * m1;
    let y = p2 - c * m2;
    assert(x * m2 == y * m1) by (nonlinear_arith)
        requires p1 * m2 == p2 * m1, x == p1 - c * m1, y == p2 - c * m2;
    let mm = m1 * m2;
    assert(m2 * m1 == mm);
    assert((-m1 < x < m1) == (-mm < x * m2 < mm)) by (nonlinear_arith)
        requires m2 > 0, mm == m1 * m2;
    assert((-m2 < y < m2) == (-mm < y * m1 < mm)) by (nonlinear_arith)
        requires m1 > 0, mm == m2 * m1;
    assert(crate::cube::near_plane(p1, c, m1) == (-m1 < x < m1));
    assert(crate::cube::near_plane(p2, c, m2) == (-m2 < y < m2));
}

/// Two nearest-hit reports for one ray name the same box, point and face.
pub proof fn lemma_report_unique(objects: Seq<Cube>, o: Vec3, d: Vec3, k1: int, h1: Intersect, k2: int, h2: Intersect)
    requires
        nearest_report(objects, o, d, k1, h1),
        nearest_report(objects, o, d, k2, h2),
    ensures
        k1 == k2,
        h1.point == h2.point,
        h1.face == h2.face,
{
    if k1 < k2 {
        assert(nearer(h2, h1));
    } else if k2 < k1 {
        assert(nearer(h1, h2));
    }
    let lo = objects[k1].min;
    let hi = objects[k1].max;
    lemma_distance_unique(lo, hi, o, d, h1, h2);
    let (n1, m1, n2, m2) = (h1.distance_num as int, h1.distance_den as int, h2.distance_num as int, h2.distance_den as int);
    assert(n1 * m2 == n2 * m1);
    assert((o.x * m1 + d.x * n1) * m2 == (o.x * m2 + d.x * n2) * m1) by (nonlinear_arith)
        requires n1 * m2 == n2 * m1;
    assert((o.y * m1 + d.y * n1) * m2 == (o.y * m2 + d.y * n2) * m1) by (nonlinear_arith)
        requires n1 * m2 == n2 * m1;
    assert((o.z * m1 + d.z * n1) * m2 == (o.z * m2 + d.z * n2) * m1) by (nonlinear_arith)
        requires n1 * m2 == n2 * m1;
    lemma_floor_equal(o.x * m1 + d.x * n1, m1, o.x * m2 + d.x * n2, m2);
    lemma_floor_equal(o.y * m1 + d.y * n1, m1, o.y * m2 + d.y * n2, m2);
    lemma_floor_equal(o.z * m1 + d.z * n1, m1, o.z * m2 + d.z * n2, m2);
    lemma_near_equal(o.x * m1 + d.x * n1, m1, o.x * m2 + d.x * n2, m2, lo.x as int);
    lemma_near_equal(o.x * m1 + d.x * n1, m1, o.x * m2 + d.x * n2, m2, hi.x as int);
    lemma_near_equal(o.y * m1 + d.y * n1, m1, o.y * m2 + d.y * n2, m2, lo.y as int);
    lemma_near_equal(o.y * m1 + d.y * n1, m1, o.y * m2 + d.y * n2, m2, hi.y as int);
    lemma_near_equal(o.z * m1 + d.z * n1, m1, o.z * m2 + d.z * n2, m2, lo.z as int);
}

/// The traced color is unique: equal rays over equal scenes trace to equal colors,
/// so pixels can be traced independently and in any order.
pub proof fn lemma_traces_unique(
    o: Vec3,
    d: Vec3,
    objects: Seq<Cube>,
    lights: Seq<Light>,
    ambient: Color,
    depth: int,
    c1: Color,
    c2: Color,
)
    requires
        traces(o, d, objects, lights, ambient, depth, c1),
        traces(o, d, objects, lights, ambient, depth, c2),
    ensures
        c1 == c2,
    decreases MAX_DEPTH + 1 - depth,
{
    if depth > MAX_DEPTH {
    } else if forall|i: int| 0 <= i < objects.len() ==> !#[trigger] ray_hits(objects[i].min, objects[i].max, o, d) {
    } else {
        let (k1, h1, r1, t1) = choose|k: int, h: Intersect, rc: Color, tc: Color| {
            let p = objects[k].material.properties@;
            let rd = mirrored_dir(d, h);
            let td = refracted_dir(d, h, objects[k].material.refractive_index as int);
            &&& nearest_report(objects, o, d, k, h)
            &&& #[trigger] composed(objects, lights, ambient, o, k, h, rc, tc, c1)
            &&& if p[2] > 0 && !rd.is_zero() {
                traces(offset(h.point, h.face, rd), rd, objects, lights, ambient, depth + 1, rc)
            } else {
                rc == Color::black_spec()
            }
            &&& if p[3] > 0 && !td.is_zero() {
                traces(offset(h.point, h.face, td), td, objects, lights, ambient, depth + 1, tc)
            } else {
                tc == Color::black_spec()
            }
        };
        let (k2, h2, r2, t2) = choose|k: int, h: Intersect, rc: Color, tc: Color| {
            let p = objects[k].material.properties@;
            let rd = mirrored_dir(d, h);
            let td = refracted_dir(d, h, objects[k].material.refractive_index as int);
            &&& nearest_report(objects, o, d, k, h)
            &&& #[trigger] composed(objects, lights, ambient, o, k, h, rc, tc, c2)
            &&& if p[2] > 0 && !rd.is_zero() {
                traces(offset(h.point, h.face, rd), rd, objects, lights, ambient, depth + 1, rc)
            } else {
                rc == Color::black_spec()
            }
            &&& if p[3] > 0 && !td.is_zero() {
                traces(offset(h.point, h.face, td), td, objects, lights, ambient, depth + 1, tc)
            } else {
                tc == Color::black_spec()
            }
        };
        lemma_report_unique(objects, o, d, k1, h1, k2, h2);
        assert(shaded(objects, lights, ambient, o, k1, h1) == shaded(objects, lights, ambient, o, k2, h2));
        let p = objects[k1].material.properties@;
        let rd = mirrored_dir(d, h1);
        let td = refracted_dir(d, h1, objects[k1].material.refractive_index as int);
        assert(rd == mirrored_dir(d, h2));
        assert(td == refracted_dir(d, h2, objects[k2].material.refractive_index as int));
        if p[2] > 0 && !rd.is_zero() {
            lemma_traces_unique(offset(h1.point, h1.face, rd), rd, objects, lights, ambient, depth + 1, r1, r2);
        }
        if p[3] > 0 && !td.is_zero() {
            lemma_traces_unique(offset(h1.point, h1.face, td), td, objects, lights, ambient, depth + 1, t1, t2);
        }
    }
}

} // verus!
