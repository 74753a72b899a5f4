use vstd::prelude::*;
use crate::color::FIXED_ONE;
use crate::cube::{box_behind, box_ok, on_box, ray_hits, Cube, Intersect, Vec3};
use crate::light::{in_scene, Light, WEIGHT_LIMIT};
use crate::vector::{normalize, small, unit};

verus! {

/// Shadow factor of a light that some box stands in front of: most of its light is
/// held back, a little leaks through.
pub const SHADOW_PARTIAL: u32 = 9500;

pub open spec fn diff(a: Vec3, b: Vec3) -> Vec3 {
    Vec3 { x: (a.x - b.x) as i64, y: (a.y - b.y) as i64, z: (a.z - b.z) as i64 }
}

/// A box blocks the segment from `o` to `o + d`: the parameter that the slab test
/// reports is below 1 (the least one, or the greatest when part of the box lies
/// behind `o`).
pub open spec fn occludes(lo: Vec3, hi: Vec3, o: Vec3, d: Vec3) -> bool {
    if box_behind(lo, hi, o, d) {
        ray_hits(lo, hi, o, d) && forall|n: int, m: int| #[trigger] on_box(lo, hi, o, d, n, m) ==> n < m
    } else {
        exists|n: int, m: int| 0 <= n < m && #[trigger] on_box(lo, hi, o, d, n, m)
    }
}

/// A unit-direction component (length `FIXED_ONE`) scaled to a length of `1e-3`
/// world units, that is ten steps, rounded to the nearest step.
pub open spec fn nudge(c: int) -> i64 {
    ((c + 500) / 1000) as i64
}

/// Origin of the shadow ray from `p` to a light at `l`: `p` moved `1e-3` world units
/// along the direction to the light.
pub open spec fn shadow_origin(p: Vec3, l: Vec3) -> Vec3 {
    let u = unit(diff(l, p));
    Vec3 { x: (p.x + nudge(u.x as int)) as i64, y: (p.y + nudge(u.y as int)) as i64, z: (p.z + nudge(u.z as int)) as i64 }
}

/// Fixed-point share of a light held back at `p`: all of it when the light is out of
/// range, `SHADOW_PARTIAL` when a box stands between, and none otherwise.
pub open spec fn shadow_factor(p: Vec3, l: Light, objects: Seq<Cube>) -> int {
    let v = diff(l.position, p);
    if crate::vector::dot(v, v) > l.radius * l.radius {
        FIXED_ONE as int
    } else {
        let o = shadow_origin(p, l.position);
        let d = diff(l.position, o);
        if !d.is_zero() && exists|i: int| 0 <= i < objects.len() && #[trigger] occludes(
            objects[i].min,
            objects[i].max,
            o,
            d,
        ) {
            SHADOW_PARTIAL as int
        } else {
            0
        }
    }
}

/// The boxes are well formed and lie within the scene's bounds.
pub open spec fn scene_boxes(objects: Seq<Cube>) -> bool {
    forall|i: int| 0 <= i < objects.len() ==> scene_box(#[trigger] objects[i])
}

pub open spec fn scene_box(c: Cube) -> bool {
    &&& c.wf()
    &&& in_scene(c.min)
    &&& in_scene(c.max)
    &&& forall|k: int| 0 <= k < 4 ==> #[trigger] c.material.properties@[k] <= WEIGHT_LIMIT
    &&& 0 < c.material.refractive_index <= WEIGHT_LIMIT
}

pub open spec fn scene_lights(lights: Seq<Light>) -> bool {
    forall|i: int| 0 <= i < lights.len() ==> (#[trigger] lights[i]).wf()
}

pub(crate) fn vsub(a: &Vec3, b: &Vec3) -> (r: Vec3)
    requires
        -0x4000_0000 <= a.x <= 0x4000_0000 && -0x4000_0000 <= a.y <= 0x4000_0000 && -0x4000_0000 <= a.z <= 0x4000_0000,
        -0x4000_0000 <= b.x <= 0x4000_0000 && -0x4000_0000 <= b.y <= 0x4000_0000 && -0x4000_0000 <= b.z <= 0x4000_0000,
    ensures
        r == diff(*a, *b),
        small(r),
{
    Vec3 { x: a.x - b.x, y: a.y - b.y, z: a.z - b.z }
}

fn nudge_exec(c: i64) -> (r: i64)
    requires
        -10000 <= c <= 10000,
    ensures
        r == nudge(c as int),
        -10 <= r <= 10,
{
    let s = (c + 10500) as u64;
    (s / 1000) as i64 - 10
}

/// Whether a box blocks the segment from `o` to `o + d` (see `occludes`).
pub fn occluded(c: &Cube, o: &Vec3, d: &Vec3) -> (b: bool)
    requires
        box_ok(c.min, c.max),
        o.bounded(),
        d.bounded(),
        !d.is_zero(),
    ensures
        b == occludes(c.min, c.max, *o, *d),
{
    let hit = c.intersect(o, d);
    let b = hit.is_intersecting && hit.distance_num < hit.distance_den;
    proof {
        let lo = c.min;
        let hi = c.max;
        let n = hit.distance_num as int;
        let m = hit.distance_den as int;
        if box_behind(lo, hi, *o, *d) {
            if b {
                assert forall|n2: int, m2: int| #[trigger] on_box(lo, hi, *o, *d, n2, m2) implies n2 < m2 by {
                    assert(n2 < m2) by (nonlinear_arith)
                        requires n2 * m <= n * m2, n < m, m2 > 0, m > 0;
                }
            } else if hit.is_intersecting {
                assert(on_box(lo, hi, *o, *d, n, m));
            }
        } else {
            if b {
                assert(on_box(lo, hi, *o, *d, n, m));
            } else if occludes(lo, hi, *o, *d) {
                let (n2, m2) = choose|n2: int, m2: int| 0 <= n2 < m2 && #[trigger] on_box(lo, hi, *o, *d, n2, m2);
                assert(ray_hits(lo, hi, *o, *d));
                assert(n * m2 <= n2 * m);
                assert(n < m) by (nonlinear_arith)
                    requires n * m2 <= n2 * m, n2 < m2, m2 > 0, m > 0, n2 >= 0;
            }
        }
    }
    b
}

/// Shadow factor of `light` at the hit point (see `shadow_factor`).
pub fn cast_shadow(intersect: &Intersect, light: &Light, objects: &[Cube]) -> (s: u32)
    requires
        in_scene(intersect.point),
        light.wf(),
        scene_boxes(objects@),
    ensures
        s == shadow_factor(intersect.point, *light, objects@),
{
    let p = intersect.point;
    let v = vsub(&light.position, &p);
    let d2 = crate::vector::norm2(&v);
    let r = light.radius as u64;
    assert(r * r <= 0x1000_0000 * 0x1000_0000) by (nonlinear_arith)
        requires 0 < r <= 0x1000_0000;
    if d2 > r * r {
        return FIXED_ONE;
    }
    let u = normalize(&v);
    let o = Vec3 { x: p.x + nudge_exec(u.x), y: p.y + nudge_exec(u.y), z: p.z + nudge_exec(u.z) };
    let d = vsub(&light.position, &o);
    assert(o == shadow_origin(p, light.position));
    assert(crate::vector::dot(v, v) <= light.radius * light.radius);
    if d.x == 0 && d.y == 0 && d.z == 0 {
        return 0;
    }
    let mut i: usize = 0;
    while i < objects.len()
        invariant
            scene_boxes(objects@),
            o.bounded(),
            d.bounded(),
            !d.is_zero(),
            o == shadow_origin(p, light.position),
            d == diff(light.position, o),
            p == intersect.point,
            crate::vector::dot(diff(light.position, p), diff(light.position, p)) <= light.radius * light.radius,
            forall|k: int| 0 <= k < i ==> !#[trigger] occludes(objects@[k].min, objects@[k].max, o, d),
        decreases objects.len() - i,
    {
        assert(scene_box(objects@[i as int]));
        if occluded(&objects[i], &o, &d) {
            assert(occludes(objects@[i as int].min, objects@[i as int].max, o, d));
            assert(exists|k: int| 0 <= k < objects@.len() && #[trigger] occludes(
                objects@[k].min,
                objects@[k].max,
                o,
                d,
            ));
            return SHADOW_PARTIAL;
        }
        i = i + 1;
    }
    0
}

/// A light further than its radius from a point is held back entirely, whatever
/// boxes there are.
pub proof fn lemma_shadow_out_of_range(p: Vec3, l: Light, objects: Seq<Cube>)
    requires
        crate::vector::dot(diff(l.position, p), diff(l.position, p)) > l.radius * l.radius,
    ensures
        shadow_factor(p, l, objects) == FIXED_ONE,
{
}

/// A light within its radius with a box blocking the shadow ray is partly held back
/// (`SHADOW_PARTIAL`), neither fully nor not at all; with no box blocking it, it is
/// not held back.
pub proof fn lemma_shadow_blocked(p: Vec3, l: Light, objects: Seq<Cube>, i: int)
    requires
        crate::vector::dot(diff(l.position, p), diff(l.position, p)) <= l.radius * l.radius,
        !diff(l.position, shadow_origin(p, l.position)).is_zero(),
    ensures
        0 <= i < objects.len() && occludes(objects[i].min, objects[i].max, shadow_origin(p, l.position), diff(l.position, shadow_origin(p, l.position)))
            ==> shadow_factor(p, l, objects) == SHADOW_PARTIAL,
        (forall|j: int| 0 <= j < objects.len() ==> !#[trigger] occludes(objects[j].min, objects[j].max, shadow_origin(p, l.position), diff(l.position, shadow_origin(p, l.position))))
            ==> shadow_factor(p, l, objects) == 0,
{
}

} // verus!
