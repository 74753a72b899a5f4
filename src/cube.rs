use vstd::prelude::*;
use vstd::arithmetic::div_mod::{lemma_fundamental_div_mod, lemma_fundamental_div_mod_converse};
use crate::color::FIXED_ONE;
use crate::material::{CubeFace, Material};

verus! {

/// Largest coordinate magnitude of positions and directions.
pub const COORD_LIMIT: i64 = 0x4000_0000;

/// An integer vector: a position in fixed-point world units, or a direction.
#[derive(Clone, Copy, Debug, PartialEq, Eq, Structural)]
pub struct Vec3 {
    pub x: i64,
    pub y: i64,
    pub z: i64,
}

impl Vec3 {
    pub fn new(x: i64, y: i64, z: i64) -> (v: Vec3)
        ensures
            v.x == x && v.y == y && v.z == z,
    {
        Vec3 { x, y, z }
    }

    /// Every component lies within `COORD_LIMIT` in magnitude.
    pub open spec fn bounded(self) -> bool {
        -COORD_LIMIT <= self.x <= COORD_LIMIT && -COORD_LIMIT <= self.y <= COORD_LIMIT
            && -COORD_LIMIT <= self.z <= COORD_LIMIT
    }

    pub open spec fn is_zero(self) -> bool {
        self.x == 0 && self.y == 0 && self.z == 0
    }
}

/// On one axis, the ray point at parameter `n / m` lies between `lo` and `hi`.
pub open spec fn axis_holds(lo: int, hi: int, o: int, d: int, n: int, m: int) -> bool {
    lo * m <= o * m + n * d && o * m + n * d <= hi * m
}

/// The point `o + (n / m) * d` lies in the closed box `[lo, hi]` (with `m > 0`).
pub open spec fn on_box(lo: Vec3, hi: Vec3, o: Vec3, d: Vec3, n: int, m: int) -> bool {
    &&& m > 0
    &&& axis_holds(lo.x as int, hi.x as int, o.x as int, d.x as int, n, m)
    &&& axis_holds(lo.y as int, hi.y as int, o.y as int, d.y as int, n, m)
    &&& axis_holds(lo.z as int, hi.z as int, o.z as int, d.z as int, n, m)
}

/// The point coordinate `p / m` lies within `1e-4` world units (one step) of the
/// plane at `c`.
pub open spec fn near_plane(p: int, c: int, m: int) -> bool {
    -m < p - c * m < m
}

/// The face of a box that a boundary point lies on, its coordinates given as
/// numerators `(px, py, pz)` over `m`: the first plane within `1e-4` of the point in
/// the order -X, +X, -Y, +Y, -Z, and +Z otherwise.
pub open spec fn face_at(lo: Vec3, hi: Vec3, px: int, py: int, pz: int, m: int) -> CubeFace {
    if near_plane(px, lo.x as int, m) {
        CubeFace::Left
    } else if near_plane(px, hi.x as int, m) {
        CubeFace::Right
    } else if near_plane(py, lo.y as int, m) {
        CubeFace::Bottom
    } else if near_plane(py, hi.y as int, m) {
        CubeFace::Top
    } else if near_plane(pz, lo.z as int, m) {
        CubeFace::Back
    } else {
        CubeFace::Front
    }
}

/// The outward unit normal of a face.
pub open spec fn normal_of(f: CubeFace) -> Vec3 {
    match f {
        CubeFace::Left => Vec3 { x: -1i64, y: 0, z: 0 },
        CubeFace::Right => Vec3 { x: 1, y: 0, z: 0 },
        CubeFace::Bottom => Vec3 { x: 0, y: -1i64, z: 0 },
        CubeFace::Top => Vec3 { x: 0, y: 1, z: 0 },
        CubeFace::Back => Vec3 { x: 0, y: 0, z: -1i64 },
        CubeFace::Front => Vec3 { x: 0, y: 0, z: 1 },
    }
}

pub fn face_normal(f: CubeFace) -> (n: Vec3)
    ensures
        n == normal_of(f),
{
    match f {
        CubeFace::Left => Vec3 { x: -1, y: 0, z: 0 },
        CubeFace::Right => Vec3 { x: 1, y: 0, z: 0 },
        CubeFace::Bottom => Vec3 { x: 0, y: -1, z: 0 },
        CubeFace::Top => Vec3 { x: 0, y: 1, z: 0 },
        CubeFace::Back => Vec3 { x: 0, y: 0, z: -1 },
        CubeFace::Front => Vec3 { x: 0, y: 0, z: 1 },
    }
}

/// The outcome of testing one ray against one box. The distance is the ray
/// parameter `distance_num / distance_den`, in multiples of the direction vector;
/// the record carries a copy of the box's material.
#[derive(Clone, Debug, PartialEq)]
pub struct Intersect {
    pub is_intersecting: bool,
    pub point: Vec3,
    pub normal: Vec3,
    pub distance_num: i64,
    pub distance_den: i64,
    pub material: Material,
    pub face: CubeFace,
}

impl Intersect {
    /// The no-hit record: zero point and normal, the largest distance, the black
    /// material.
    pub open spec fn is_empty_record(&self) -> bool {
        &&& !self.is_intersecting
        &&& self.point == (Vec3 { x: 0, y: 0, z: 0 })
        &&& self.normal == (Vec3 { x: 0, y: 0, z: 0 })
        &&& self.distance_num == i64::MAX
        &&& self.distance_den == 1
        &&& self.face == CubeFace::Top
        &&& self.material.is_black()
    }

    /// A hit carries the given material.
    pub open spec fn carries(&self, m: Material) -> bool {
        self.is_intersecting ==> self.material.same_as(m)
    }

    pub fn empty() -> (i: Intersect)
        ensures
            i.is_empty_record(),
    {
        Intersect {
            is_intersecting: false,
            point: Vec3 { x: 0, y: 0, z: 0 },
            normal: Vec3 { x: 0, y: 0, z: 0 },
            distance_num: i64::MAX,
            distance_den: 1,
            material: Material::black(),
            face: CubeFace::Top,
        }
    }

    /// Same as `empty`.
    pub fn new() -> (i: Intersect)
        ensures
            i.is_empty_record(),
    {
        Self::empty()
    }
}

/// A ray's parameter range inside one slab, or the meet of several: every
/// parameter, none, or `[enter / den_in, exit / den_out]`.
#[derive(Clone, Copy)]
enum Span {
    Free,
    Empty,
    Bounded { enter: i64, den_in: i64, exit: i64, den_out: i64 },
}

spec fn in_span(s: Span, n: int, m: int) -> bool {
    match s {
        Span::Free => true,
        Span::Empty => false,
        Span::Bounded { enter, den_in, exit, den_out } =>
            enter * m <= n * den_in && n * den_out <= exit * m,
    }
}

spec fn span_ok(s: Span) -> bool {
    match s {
        Span::Bounded { enter, den_in, exit, den_out } => {
            &&& 0 < den_in <= COORD_LIMIT
            &&& 0 < den_out <= COORD_LIMIT
            &&& -2 * COORD_LIMIT <= enter <= 2 * COORD_LIMIT
            &&& -2 * COORD_LIMIT <= exit <= 2 * COORD_LIMIT
        },
        _ => true,
    }
}

/// `a / b <= c / d <= e / f` gives `a / b <= e / f`, for positive denominators.
proof fn lemma_le_trans(a: int, b: int, c: int, d: int, e: int, f: int)
    requires
        b > 0,
        d > 0,
        f > 0,
        a * d <= c * b,
        c * f <= e * d,
    ensures
        a * f <= e * b,
{
    assert(a * d * f <= c * b * f) by (nonlinear_arith)
        requires a * d <= c * b, f > 0;
    assert(c * f * b <= e * d * b) by (nonlinear_arith)
        requires c * f <= e * d, b > 0;
    assert(a * f * d <= e * b * d) by (nonlinear_arith)
        requires a * d * f <= c * b * f, c * f * b <= e * d * b;
    assert(a * f <= e * b) by (nonlinear_arith)
        requires a * f * d <= e * b * d, d > 0;
}

/// The parameter range in which a ray stays between two parallel planes.
fn axis_span(lo: i64, hi: i64, o: i64, d: i64) -> (s: Span)
    requires
        lo <= hi,
        -COORD_LIMIT <= lo <= COORD_LIMIT,
        -COORD_LIMIT <= hi <= COORD_LIMIT,
        -COORD_LIMIT <= o <= COORD_LIMIT,
        -COORD_LIMIT <= d <= COORD_LIMIT,
    ensures
        span_ok(s),
        d != 0 ==> !(s is Free),
        forall|n: int, m: int|
            m > 0 ==> (#[trigger] axis_holds(lo as int, hi as int, o as int, d as int, n, m)
                <==> in_span(s, n, m)),
{
    if d > 0 {
        let s = Span::Bounded { enter: lo - o, den_in: d, exit: hi - o, den_out: d };
        assert forall|n: int, m: int| m > 0 implies (#[trigger] axis_holds(
            lo as int,
            hi as int,
            o as int,
            d as int,
            n,
            m,
        ) <==> in_span(s, n, m)) by {
            assert((lo - o) * m == lo * m - o * m) by (nonlinear_arith);
            assert((hi - o) * m == hi * m - o * m) by (nonlinear_arith);
        }
        s
    } else if d < 0 {
        let s = Span::Bounded { enter: o - hi, den_in: -d, exit: o - lo, den_out: -d };
        assert forall|n: int, m: int| m > 0 implies (#[trigger] axis_holds(
            lo as int,
            hi as int,
            o as int,
            d as int,
            n,
            m,
        ) <==> in_span(s, n, m)) by {
            assert((o - hi) * m == o * m - hi * m) by (nonlinear_arith);
            assert((o - lo) * m == o * m - lo * m) by (nonlinear_arith);
            assert(n * (-d) == -(n * d)) by (nonlinear_arith);
        }
        s
    } else if lo <= o && o <= hi {
        assert forall|n: int, m: int| m > 0 implies (#[trigger] axis_holds(
            lo as int,
            hi as int,
            o as int,
            d as int,
            n,
            m,
        ) <==> in_span(Span::Free, n, m)) by {
            assert(lo * m <= o * m <= hi * m) by (nonlinear_arith)
                requires lo <= o <= hi, m > 0;
        }
        Span::Free
    } else {
        assert forall|n: int, m: int| m > 0 implies (#[trigger] axis_holds(
            lo as int,
            hi as int,
            o as int,
            d as int,
            n,
            m,
        ) <==> in_span(Span::Empty, n, m)) by {
            if o < lo {
                assert(o * m < lo * m) by (nonlinear_arith)
                    requires o < lo, m > 0;
            } else {
                assert(hi * m < o * m) by (nonlinear_arith)
                    requires hi < o, m > 0;
            }
        }
        Span::Empty
    }
}

/// `a / b < c / d`, for positive denominators.
fn ratio_lt(a: i64, b: i64, c: i64, d: i64) -> (r: bool)
    requires
        0 < b <= COORD_LIMIT,
        0 < d <= COORD_LIMIT,
        -2 * COORD_LIMIT <= a <= 2 * COORD_LIMIT,
        -2 * COORD_LIMIT <= c <= 2 * COORD_LIMIT,
    ensures
        r == (a * d < c * b),
{
    proof {
        assert(-0x8000_0000 * 0x4000_0000 <= a * d <= 0x8000_0000 * 0x4000_0000) by (nonlinear_arith)
            requires 0 < d <= 0x4000_0000, -0x8000_0000 <= a <= 0x8000_0000;
        assert(-0x8000_0000 * 0x4000_0000 <= c * b <= 0x8000_0000 * 0x4000_0000) by (nonlinear_arith)
            requires 0 < b <= 0x4000_0000, -0x8000_0000 <= c <= 0x8000_0000;
    }
    a * d < c * b
}

/// The parameters common to two ranges.
fn meet(a: Span, b: Span) -> (r: Span)
    requires
        span_ok(a),
        span_ok(b),
    ensures
        span_ok(r),
        r is Free ==> a is Free && b is Free,
        forall|n: int, m: int|
            m > 0 ==> (#[trigger] in_span(r, n, m) <==> in_span(a, n, m) && in_span(b, n, m)),
{
    match (a, b) {
        (Span::Empty, _) => Span::Empty,
        (_, Span::Empty) => Span::Empty,
        (Span::Free, _) => b,
        (_, Span::Free) => a,
        (
            Span::Bounded { enter: ea, den_in: ia, exit: xa, den_out: oa },
            Span::Bounded { enter: eb, den_in: ib, exit: xb, den_out: ob },
        ) => {
            let (enter, den_in) = if ratio_lt(ea, ia, eb, ib) { (eb, ib) } else { (ea, ia) };
            let (exit, den_out) = if ratio_lt(xa, oa, xb, ob) { (xa, oa) } else { (xb, ob) };
            let r = Span::Bounded { enter, den_in, exit, den_out };
            assert forall|n: int, m: int| m > 0 implies (#[trigger] in_span(r, n, m) <==> in_span(
                a,
                n,
                m,
            ) && in_span(b, n, m)) by {
                if ea * ib < eb * ia {
                    if eb * m <= n * ib {
                        lemma_le_trans(ea as int, ia as int, eb as int, ib as int, n, m);
                    }
                } else {
                    if ea * m <= n * ia {
                        lemma_le_trans(eb as int, ib as int, ea as int, ia as int, n, m);
                    }
                }
                if xa * ob < xb * oa {
                    if n * oa <= xa * m {
                        lemma_le_trans(n, m, xa as int, oa as int, xb as int, ob as int);
                    }
                } else {
                    if n * ob <= xb * m {
                        lemma_le_trans(n, m, xb as int, ob as int, xa as int, oa as int);
                    }
                }
            }
            r
        },
    }
}

/// `a / b` rounded down, for a positive divisor.
pub(crate) fn floor_div(a: i128, b: i64) -> (q: i128)
    requires
        b > 0,
        -0x1_0000_0000_0000_0000 <= a <= 0x1_0000_0000_0000_0000,
    ensures
        q == a as int / b as int,
{
    if a >= 0 {
        (a as u128 / b as u128) as i128
    } else {
        let c = (-a - 1) as u128;
        let q = (c / b as u128) as i128;
        proof {
            let r = c as int % b as int;
            lemma_fundamental_div_mod(c as int, b as int);
            assert(a == (-q - 1) * b + (b - r - 1)) by (nonlinear_arith)
                requires c == -a - 1, c == b * q + r;
            lemma_fundamental_div_mod_converse(a as int, b as int, -q - 1, b - r - 1);
        }
        -q - 1
    }
}

/// `n / m` rounded down lies in `[lo, hi]` when `n / m` does.
pub(crate) proof fn lemma_floor_in_range(n: int, m: int, lo: int, hi: int)
    requires
        m > 0,
        lo * m <= n <= hi * m,
    ensures
        lo <= n / m <= hi,
{
    lemma_fundamental_div_mod(n, m);
    let q = n / m;
    let r = n % m;
    assert(lo <= q) by (nonlinear_arith)
        requires lo * m <= n, n == m * q + r, r < m, m > 0;
    assert(q <= hi) by (nonlinear_arith)
        requires n <= hi * m, n == m * q + r, r >= 0, m > 0;
}

/// An axis-aligned box with a surface material.
#[derive(Clone, Debug)]
pub struct Cube {
    pub min: Vec3,
    pub max: Vec3,
    pub material: Material,
}

/// Some point of the ray at a parameter of at least zero lies in the box.
pub open spec fn ray_hits(lo: Vec3, hi: Vec3, o: Vec3, d: Vec3) -> bool {
    exists|n: int, m: int| n >= 0 && #[trigger] on_box(lo, hi, o, d, n, m)
}

/// Some point of the ray at a negative parameter lies in the box: the origin is
/// inside the box or past it.
pub open spec fn box_behind(lo: Vec3, hi: Vec3, o: Vec3, d: Vec3) -> bool {
    exists|n: int, m: int| n < 0 && #[trigger] on_box(lo, hi, o, d, n, m)
}

/// The corners are bounded and ordered.
pub open spec fn box_ok(lo: Vec3, hi: Vec3) -> bool {
    &&& lo.bounded()
    &&& hi.bounded()
    &&& lo.x <= hi.x && lo.y <= hi.y && lo.z <= hi.z
}

/// What the slab test reports for a box and a ray: a hit exactly when some point
/// of the ray at a parameter of at least zero lies in the closed box. The distance
/// is the least such parameter, or the greatest one when part of the box lies behind
/// the origin (a ray that starts inside reports where it leaves); the face is read off
/// the hit point, and the stored point is that point rounded down.
pub open spec fn slab_result(lo: Vec3, hi: Vec3, o: Vec3, d: Vec3, r: Intersect) -> bool {
    let n = r.distance_num as int;
    let m = r.distance_den as int;
    let px = o.x * m + d.x * n;
    let py = o.y * m + d.y * n;
    let pz = o.z * m + d.z * n;
    &&& r.is_intersecting == ray_hits(lo, hi, o, d)
    &&& !r.is_intersecting ==> r.is_empty_record()
    &&& r.is_intersecting ==> {
        &&& m > 0
        &&& n >= 0
        &&& on_box(lo, hi, o, d, n, m)
        &&& !box_behind(lo, hi, o, d) ==> forall|n2: int, m2: int|
            #[trigger] on_box(lo, hi, o, d, n2, m2) ==> n * m2 <= n2 * m
        &&& box_behind(lo, hi, o, d) ==> forall|n2: int, m2: int|
            #[trigger] on_box(lo, hi, o, d, n2, m2) ==> n2 * m <= n * m2
        &&& r.face == face_at(lo, hi, px, py, pz, m)
        &&& r.normal == normal_of(r.face)
        &&& r.point == (Vec3 { x: (px / m) as i64, y: (py / m) as i64, z: (pz / m) as i64 })
        &&& r.point.bounded()
        &&& lo.x <= r.point.x <= hi.x && lo.y <= r.point.y <= hi.y && lo.z <= r.point.z <= hi.z
    }
}

/// Rounded-down coordinate of the ray point at `num / den` on one axis.
fn ray_coord(o: i64, d: i64, num: i64, den: i64, lo: i64, hi: i64) -> (c: i64)
    requires
        0 < den <= COORD_LIMIT,
        -2 * COORD_LIMIT <= num <= 2 * COORD_LIMIT,
        -COORD_LIMIT <= o <= COORD_LIMIT,
        -COORD_LIMIT <= d <= COORD_LIMIT,
        -COORD_LIMIT <= lo <= COORD_LIMIT,
        -COORD_LIMIT <= hi <= COORD_LIMIT,
        axis_holds(lo as int, hi as int, o as int, d as int, num as int, den as int),
    ensures
        c == (o * den + d * num) as int / den as int,
        lo <= c <= hi,
{
    proof {
        assert(-0x4000_0000 * 0x4000_0000 <= o * den <= 0x4000_0000 * 0x4000_0000) by (nonlinear_arith)
            requires -0x4000_0000 <= o <= 0x4000_0000, 0 < den <= 0x4000_0000;
        assert(-0x4000_0000 * 0x8000_0000 <= d * num <= 0x4000_0000 * 0x8000_0000) by (nonlinear_arith)
            requires -0x4000_0000 <= d <= 0x4000_0000, -0x8000_0000 <= num <= 0x8000_0000;
        lemma_floor_in_range(o * den + d * num, den as int, lo as int, hi as int);
    }
    let p = o as i128 * den as i128 + d as i128 * num as i128;
    floor_div(p, den) as i64
}

impl Cube {
    /// A box over the corners `min` and `max`, with its material.
    pub fn new(min: Vec3, max: Vec3, material: Material) -> (c: Cube)
        ensures
            c.min == min,
            c.max == max,
            c.material == material,
    {
        Cube { min, max, material }
    }

    /// The corners are bounded and ordered, and the material is well formed.
    pub open spec fn wf(&self) -> bool {
        box_ok(self.min, self.max) && self.material.wf()
    }

    /// Slab test of the ray `o + t * d` (any length of `d` but zero) against the box.
    pub fn intersect(&self, o: &Vec3, d: &Vec3) -> (r: Intersect)
        requires
            box_ok(self.min, self.max),
            o.bounded(),
            d.bounded(),
            !d.is_zero(),
        ensures
            slab_result(self.min, self.max, *o, *d, r),
            r.carries(self.material),
    {
        let lo = self.min;
        let hi = self.max;
        let sx = axis_span(lo.x, hi.x, o.x, d.x);
        let sy = axis_span(lo.y, hi.y, o.y, d.y);
        let sz = axis_span(lo.z, hi.z, o.z, d.z);
        let sxy = meet(sx, sy);
        let s = meet(sxy, sz);
        proof {
            assert forall|n: int, m: int| #[trigger] on_box(lo, hi, *o, *d, n, m) == (m > 0 && in_span(s, n, m)) by {
                if m > 0 {
                    assert(axis_holds(lo.x as int, hi.x as int, o.x as int, d.x as int, n, m) == in_span(sx, n, m));
                    assert(axis_holds(lo.y as int, hi.y as int, o.y as int, d.y as int, n, m) == in_span(sy, n, m));
                    assert(axis_holds(lo.z as int, hi.z as int, o.z as int, d.z as int, n, m) == in_span(sz, n, m));
                    assert(in_span(sxy, n, m) == (in_span(sx, n, m) && in_span(sy, n, m)));
                    assert(in_span(s, n, m) == (in_span(sxy, n, m) && in_span(sz, n, m)));
                }
            }
        }
        match s {
            Span::Free => {
                proof { assert(false); }
                Intersect::empty()
            },
            Span::Empty => {
                Intersect::empty()
            },
            Span::Bounded { enter, den_in, exit, den_out } => {
                if ratio_lt(exit, den_out, enter, den_in) {
                    proof {
                        assert forall|n: int, m: int| !#[trigger] on_box(lo, hi, *o, *d, n, m) by {
                            if on_box(lo, hi, *o, *d, n, m) {
                                lemma_le_trans(enter as int, den_in as int, n, m, exit as int, den_out as int);
                            }
                        }
                    }
                    return Intersect::empty();
                }
                if exit < 0 {
                    proof {
                        assert forall|n: int, m: int| n >= 0 implies !#[trigger] on_box(lo, hi, *o, *d, n, m) by {
                            if on_box(lo, hi, *o, *d, n, m) {
                                assert(false) by (nonlinear_arith)
                                    requires n >= 0, m > 0, den_out > 0, exit < 0, n * den_out <= exit * m;
                            }
                        }
                    }
                    return Intersect::empty();
                }
                let (num, den) = if enter >= 0 { (enter, den_in) } else { (exit, den_out) };
                proof {
                    assert(in_span(s, num as int, den as int));
                    assert(on_box(lo, hi, *o, *d, num as int, den as int));
                    if enter >= 0 {
                        assert forall|n: int, m: int| n < 0 implies !#[trigger] on_box(lo, hi, *o, *d, n, m) by {
                            if on_box(lo, hi, *o, *d, n, m) {
                                assert(false) by (nonlinear_arith)
                                    requires n < 0, m > 0, den_in > 0, enter >= 0, enter * m <= n * den_in;
                            }
                        }
                    } else {
                        assert(on_box(lo, hi, *o, *d, enter as int, den_in as int));
                    }
                }
                let px = ray_coord(o.x, d.x, num, den, lo.x, hi.x);
                let py = ray_coord(o.y, d.y, num, den, lo.y, hi.y);
                let pz = ray_coord(o.z, d.z, num, den, lo.z, hi.z);
                let face = Self::face_of(lo, hi, *o, *d, num, den);
                Intersect {
                    is_intersecting: true,
                    point: Vec3 { x: px, y: py, z: pz },
                    normal: face_normal(face),
                    distance_num: num,
                    distance_den: den,
                    material: self.material.duplicate(),
                    face,
                }
            },
        }
    }

    /// The face of the plane that the ray point at `num / den` lies on.
    fn face_of(lo: Vec3, hi: Vec3, o: Vec3, d: Vec3, num: i64, den: i64) -> (f: CubeFace)
        requires
            box_ok(lo, hi),
            o.bounded(),
            d.bounded(),
            0 < den <= COORD_LIMIT,
            -2 * COORD_LIMIT <= num <= 2 * COORD_LIMIT,
        ensures
            f == face_at(lo, hi, o.x * den + d.x * num, o.y * den + d.y * num, o.z * den + d.z * num, den as int),
    {
        if Self::on_plane(o.x, d.x, num, den, lo.x) {
            CubeFace::Left
        } else if Self::on_plane(o.x, d.x, num, den, hi.x) {
            CubeFace::Right
        } else if Self::on_plane(o.y, d.y, num, den, lo.y) {
            CubeFace::Bottom
        } else if Self::on_plane(o.y, d.y, num, den, hi.y) {
            CubeFace::Top
        } else if Self::on_plane(o.z, d.z, num, den, lo.z) {
            CubeFace::Back
        } else {
            CubeFace::Front
        }
    }

    /// Whether the ray point at `num / den` lies within `1e-4` of the plane at `c`.
    fn on_plane(o: i64, d: i64, num: i64, den: i64, c: i64) -> (b: bool)
        requires
            0 < den <= COORD_LIMIT,
            -2 * COORD_LIMIT <= num <= 2 * COORD_LIMIT,
            -COORD_LIMIT <= o <= COORD_LIMIT,
            -COORD_LIMIT <= d <= COORD_LIMIT,
            -COORD_LIMIT <= c <= COORD_LIMIT,
        ensures
            b == near_plane(o * den + d * num, c as int, den as int),
    {
        proof {
            assert(-0x4000_0000 * 0x4000_0000 <= o * den <= 0x4000_0000 * 0x4000_0000) by (nonlinear_arith)
                requires -0x4000_0000 <= o <= 0x4000_0000, 0 < den <= 0x4000_0000;
            assert(-0x4000_0000 * 0x4000_0000 <= c * den <= 0x4000_0000 * 0x4000_0000) by (nonlinear_arith)
                requires -0x4000_0000 <= c <= 0x4000_0000, 0 < den <= 0x4000_0000;
            assert(-0x4000_0000 * 0x8000_0000 <= d * num <= 0x4000_0000 * 0x8000_0000) by (nonlinear_arith)
                requires -0x4000_0000 <= d <= 0x4000_0000, -0x8000_0000 <= num <= 0x8000_0000;
        }
        let gap = o as i128 * den as i128 + d as i128 * num as i128 - c as i128 * den as i128;
        -(den as i128) < gap && gap < den as i128
    }
}

/// A ray sent straight down the -Z axis at a box from beyond its +Z face, with its
/// x and y strictly inside the box's extent, hits the +Z face at the parameter where
/// it crosses that plane: `(o.z - max.z) / k` for the direction `(0, 0, -k)`.
pub proof fn lemma_frontal_hit(lo: Vec3, hi: Vec3, o: Vec3, dz: i64, r: Intersect)
    requires
        box_ok(lo, hi),
        lo.x < o.x < hi.x,
        lo.y < o.y < hi.y,
        lo.z < hi.z < o.z,
        dz < 0,
        slab_result(lo, hi, o, Vec3 { x: 0, y: 0, z: dz }, r),
    ensures
        r.is_intersecting,
        r.face == CubeFace::Front,
        r.distance_num * (-dz) == (o.z - hi.z) * r.distance_den,
{
    let d = Vec3 { x: 0, y: 0, z: dz };
    let k = -dz;
    let n0 = o.z - hi.z;
    let m0 = k;
    assert(lo.x * m0 <= o.x * m0 <= hi.x * m0) by (nonlinear_arith)
        requires lo.x < o.x < hi.x, m0 > 0;
    assert(lo.y * m0 <= o.y * m0 <= hi.y * m0) by (nonlinear_arith)
        requires lo.y < o.y < hi.y, m0 > 0;
    assert(o.z * m0 + n0 * dz == hi.z * m0) by (nonlinear_arith)
        requires n0 == o.z - hi.z, m0 == k, k == -dz;
    assert(lo.z * m0 <= hi.z * m0) by (nonlinear_arith)
        requires lo.z <= hi.z, m0 > 0;
    assert(on_box(lo, hi, o, d, n0, m0));
    assert(ray_hits(lo, hi, o, d));
    let n = r.distance_num as int;
    let m = r.distance_den as int;
    assert(!box_behind(lo, hi, o, d)) by {
        assert forall|n2: int, m2: int| n2 < 0 implies !#[trigger] on_box(lo, hi, o, d, n2, m2) by {
            if on_box(lo, hi, o, d, n2, m2) {
                assert(false) by (nonlinear_arith)
                    requires n2 < 0, m2 > 0, dz < 0, o.z > hi.z, o.z * m2 + n2 * dz <= hi.z * m2;
            }
        }
    }
    assert(n * m0 <= n0 * m);
    assert(o.z * m + n * dz <= hi.z * m);
    assert(n * k == n0 * m) by (nonlinear_arith)
        requires n * m0 <= n0 * m, o.z * m + n * dz <= hi.z * m, n0 == o.z - hi.z, m0 == k, k == -dz;
    assert(o.x * m + 0 * n - lo.x * m >= m && o.x * m + 0 * n - hi.x * m <= -m) by (nonlinear_arith)
        requires lo.x < o.x < hi.x, m > 0;
    assert(o.y * m + 0 * n - lo.y * m >= m && o.y * m + 0 * n - hi.y * m <= -m) by (nonlinear_arith)
        requires lo.y < o.y < hi.y, m > 0;
    assert(o.z * m + dz * n == hi.z * m) by (nonlinear_arith)
        requires n * k == n0 * m, n0 == o.z - hi.z, k == -dz;
    assert(hi.z * m - lo.z * m >= m) by (nonlinear_arith)
        requires lo.z < hi.z, m > 0;
}

/// A ray whose origin lies beyond one of the box's slabs and whose direction does
/// not turn back towards that slab misses the box.
pub proof fn lemma_pointing_away_misses(lo: Vec3, hi: Vec3, o: Vec3, d: Vec3, r: Intersect)
    requires
        box_ok(lo, hi),
        (o.x > hi.x && d.x >= 0) || (o.x < lo.x && d.x <= 0)
            || (o.y > hi.y && d.y >= 0) || (o.y < lo.y && d.y <= 0)
            || (o.z > hi.z && d.z >= 0) || (o.z < lo.z && d.z <= 0),
        slab_result(lo, hi, o, d, r),
    ensures
        !r.is_intersecting,
{
    assert forall|n: int, m: int| n >= 0 implies !#[trigger] on_box(lo, hi, o, d, n, m) by {
        if on_box(lo, hi, o, d, n, m) {
            if o.x > hi.x && d.x >= 0 {
                assert(false) by (nonlinear_arith)
                    requires o.x > hi.x, d.x >= 0, n >= 0, m > 0, o.x * m + n * d.x <= hi.x * m;
            } else if o.x < lo.x && d.x <= 0 {
                assert(false) by (nonlinear_arith)
                    requires o.x < lo.x, d.x <= 0, n >= 0, m > 0, lo.x * m <= o.x * m + n * d.x;
            } else if o.y > hi.y && d.y >= 0 {
                assert(false) by (nonlinear_arith)
                    requires o.y > hi.y, d.y >= 0, n >= 0, m > 0, o.y * m + n * d.y <= hi.y * m;
            } else if o.y < lo.y && d.y <= 0 {
                assert(false) by (nonlinear_arith)
                    requires o.y < lo.y, d.y <= 0, n >= 0, m > 0, lo.y * m <= o.y * m + n * d.y;
            } else if o.z > hi.z && d.z >= 0 {
                assert(false) by (nonlinear_arith)
                    requires o.z > hi.z, d.z >= 0, n >= 0, m > 0, o.z * m + n * d.z <= hi.z * m;
            } else {
                assert(false) by (nonlinear_arith)
                    requires o.z < lo.z, d.z <= 0, n >= 0, m > 0, lo.z * m <= o.z * m + n * d.z;
            }
        }
    }
}

/// A ray that starts strictly inside a box hits it at a parameter of at least zero,
/// namely where it leaves: no point of the box lies further along the ray.
pub proof fn lemma_inside_hits_exit(lo: Vec3, hi: Vec3, o: Vec3, d: Vec3, r: Intersect)
    requires
        box_ok(lo, hi),
        d.bounded(),
        lo.x < o.x < hi.x,
        lo.y < o.y < hi.y,
        lo.z < o.z < hi.z,
        slab_result(lo, hi, o, d, r),
    ensures
        r.is_intersecting,
        r.distance_num >= 0,
        r.distance_den > 0,
        forall|n: int, m: int|
            #[trigger] on_box(lo, hi, o, d, n, m) ==> n * r.distance_den <= r.distance_num * m,
{
    assert(lo.x * 1 <= o.x * 1 + 0 * d.x <= hi.x * 1) by (nonlinear_arith)
        requires lo.x < o.x < hi.x;
    assert(axis_holds(lo.x as int, hi.x as int, o.x as int, d.x as int, 0, 1));
    assert(lo.y * 1 <= o.y * 1 + 0 * d.y <= hi.y * 1) by (nonlinear_arith)
        requires lo.y < o.y < hi.y;
    assert(axis_holds(lo.y as int, hi.y as int, o.y as int, d.y as int, 0, 1));
    assert(lo.z * 1 <= o.z * 1 + 0 * d.z <= hi.z * 1) by (nonlinear_arith)
        requires lo.z < o.z < hi.z;
    assert(axis_holds(lo.z as int, hi.z as int, o.z as int, d.z as int, 0, 1));
    assert(on_box(lo, hi, o, d, 0, 1));
    let m = 0x8000_0000int;
    assert(lo.x * m <= o.x * m + (-1) * d.x <= hi.x * m) by (nonlinear_arith)
        requires lo.x < o.x < hi.x, m == 0x8000_0000, -0x4000_0000 <= d.x <= 0x4000_0000;
    assert(lo.y * m <= o.y * m + (-1) * d.y <= hi.y * m) by (nonlinear_arith)
        requires lo.y < o.y < hi.y, m == 0x8000_0000, -0x4000_0000 <= d.y <= 0x4000_0000;
    assert(lo.z * m <= o.z * m + (-1) * d.z <= hi.z * m) by (nonlinear_arith)
        requires lo.z < o.z < hi.z, m == 0x8000_0000, -0x4000_0000 <= d.z <= 0x4000_0000;
    assert(on_box(lo, hi, o, d, -1, m));
    assert(box_behind(lo, hi, o, d));
}

/// A shape that a ray can be tested against.
pub trait RayIntersect {
    /// The rays that the shape can be tested against.
    spec fn accepts(&self, o: Vec3, d: Vec3) -> bool;

    /// `r` is a correct report for the ray `o + t * d`.
    spec fn reports(&self, o: Vec3, d: Vec3, r: Intersect) -> bool;

    fn ray_intersect(&self, ray_origin: &Vec3, ray_direction: &Vec3) -> (r: Intersect)
        requires
            self.accepts(*ray_origin, *ray_direction),
        ensures
            self.reports(*ray_origin, *ray_direction, r),
    ;
}

impl RayIntersect for Cube {
    open spec fn accepts(&self, o: Vec3, d: Vec3) -> bool {
        box_ok(self.min, self.max) && o.bounded() && d.bounded() && !d.is_zero()
    }

    open spec fn reports(&self, o: Vec3, d: Vec3, r: Intersect) -> bool {
        slab_result(self.min, self.max, o, d, r) && r.carries(self.material)
    }

    fn ray_intersect(&self, ray_origin: &Vec3, ray_direction: &Vec3) -> (r: Intersect) {
        self.intersect(ray_origin, ray_direction)
    }
}

/// The fractional part of `|c|` in fixed-point world units.
pub open spec fn frac_abs(c: int) -> int {
    (if c < 0 { -c } else { c }) % FIXED_ONE as int
}

/// Surface coordinates of a point on a face: x and z on the top and bottom, z and y
/// on the left and right, x and y on the front and back; each repeats every world unit.
pub open spec fn face_uv(p: Vec3, f: CubeFace) -> (int, int) {
    match f {
        CubeFace::Top | CubeFace::Bottom => (frac_abs(p.x as int), frac_abs(p.z as int)),
        CubeFace::Left | CubeFace::Right => (frac_abs(p.z as int), frac_abs(p.y as int)),
        CubeFace::Front | CubeFace::Back => (frac_abs(p.x as int), frac_abs(p.y as int)),
    }
}

fn frac_abs_exec(c: i64) -> (r: u32)
    requires
        -COORD_LIMIT <= c <= COORD_LIMIT,
    ensures
        r == frac_abs(c as int),
        r < FIXED_ONE,
{
    let a: i64 = if c < 0 { -c } else { c };
    (a % FIXED_ONE as i64) as u32
}

impl Intersect {
    /// Fixed-point surface coordinates of the hit point (see `face_uv`).
    pub fn texture_coords(&self) -> (uv: (u32, u32))
        requires
            self.point.bounded(),
        ensures
            uv.0 == face_uv(self.point, self.face).0,
            uv.1 == face_uv(self.point, self.face).1,
            uv.0 < FIXED_ONE && uv.1 < FIXED_ONE,
    {
        match self.face {
            CubeFace::Top | CubeFace::Bottom => (frac_abs_exec(self.point.x), frac_abs_exec(self.point.z)),
            CubeFace::Left | CubeFace::Right => (frac_abs_exec(self.point.z), frac_abs_exec(self.point.y)),
            CubeFace::Front | CubeFace::Back => (frac_abs_exec(self.point.x), frac_abs_exec(self.point.y)),
        }
    }
}

pub(crate) proof fn lemma_div_mod_parts(x: int, d: int)
    requires
        d > 0,
    ensures
        x == d * (x / d) + x % d,
        0 <= x % d < d,
{
    lemma_fundamental_div_mod(x, d);
}

} // verus!
