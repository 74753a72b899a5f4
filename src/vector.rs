use vstd::prelude::*;
use crate::color::FIXED_ONE;
use crate::cube::{floor_div, Vec3};

verus! {

pub open spec fn dot(a: Vec3, b: Vec3) -> int {
    a.x * b.x + a.y * b.y + a.z * b.z
}

/// The largest integer whose square is at most `n`.
pub open spec fn sqrt_floor(n: int) -> int {
    choose|r: int| is_sqrt_floor(n, r)
}

pub open spec fn is_sqrt_floor(n: int, r: int) -> bool {
    0 <= r && r * r <= n < (r + 1) * (r + 1)
}

/// The direction of `v` scaled to length `FIXED_ONE`, each component rounded down;
/// the zero vector stays zero.
pub open spec fn unit(v: Vec3) -> Vec3 {
    let len = sqrt_floor(dot(v, v));
    if len == 0 {
        v
    } else {
        Vec3 {
            x: (v.x * FIXED_ONE / len) as i64,
            y: (v.y * FIXED_ONE / len) as i64,
            z: (v.z * FIXED_ONE / len) as i64,
        }
    }
}

/// Components within `2^31` in magnitude.
pub open spec fn small(v: Vec3) -> bool {
    -0x8000_0000 <= v.x <= 0x8000_0000 && -0x8000_0000 <= v.y <= 0x8000_0000 && -0x8000_0000
        <= v.z <= 0x8000_0000
}

proof fn lemma_sqrt_unique(n: int, r: int)
    requires
        0 <= r,
        r * r <= n < (r + 1) * (r + 1),
    ensures
        sqrt_floor(n) == r,
{
    assert(is_sqrt_floor(n, r));
    let s = sqrt_floor(n);
    assert(0 <= s && s * s <= n < (s + 1) * (s + 1));
    if s < r {
        assert((s + 1) * (s + 1) <= r * r) by (nonlinear_arith)
            requires 0 <= s, s + 1 <= r;
    } else if r < s {
        assert((r + 1) * (r + 1) <= s * s) by (nonlinear_arith)
            requires 0 <= r, r + 1 <= s;
    }
}

/// Rounded-down square root.
pub fn isqrt(n: u64) -> (r: u64)
    ensures
        r == sqrt_floor(n as int),
        is_sqrt_floor(n as int, r as int),
        r <= 0x1_0000_0000,
{
    let mut lo: u64 = 0;
    let mut hi: u64 = 0x1_0000_0000;
    assert(n < hi * hi) by (nonlinear_arith)
        requires n <= 0xffff_ffff_ffff_ffff, hi == 0x1_0000_0000;
    while hi - lo > 1
        invariant
            lo < hi <= 0x1_0000_0000,
            lo * lo <= n,
            n < hi * hi,
        decreases hi - lo,
    {
        let mid = lo + (hi - lo) / 2;
        assert(mid * mid <= 0x1_0000_0000 * 0x1_0000_0000) by (nonlinear_arith)
            requires mid <= 0x1_0000_0000;
        if (mid as u128) * (mid as u128) <= n as u128 {
            lo = mid;
        } else {
            hi = mid;
        }
    }
    proof {
        assert(hi == lo + 1);
        lemma_sqrt_unique(n as int, lo as int);
    }
    lo
}

/// Squared length, for components within `2^31`.
pub fn norm2(v: &Vec3) -> (n: u64)
    requires
        small(*v),
    ensures
        n == dot(*v, *v),
{
    proof {
        assert(v.x * v.x <= 0x8000_0000 * 0x8000_0000) by (nonlinear_arith)
            requires -0x8000_0000 <= v.x <= 0x8000_0000;
        assert(v.y * v.y <= 0x8000_0000 * 0x8000_0000) by (nonlinear_arith)
            requires -0x8000_0000 <= v.y <= 0x8000_0000;
        assert(v.z * v.z <= 0x8000_0000 * 0x8000_0000) by (nonlinear_arith)
            requires -0x8000_0000 <= v.z <= 0x8000_0000;
        assert(0 <= v.x * v.x && 0 <= v.y * v.y && 0 <= v.z * v.z) by (nonlinear_arith);
    }
    let x = v.x as i128;
    let y = v.y as i128;
    let z = v.z as i128;
    (x * x + y * y + z * z) as u64
}

/// `c * FIXED_ONE / len`, rounded down, for `|c| <= len`.
fn scale_component(c: i64, len: u64) -> (r: i64)
    requires
        len > 0,
        -0x8000_0000 <= c <= 0x8000_0000,
        len <= 0x1_0000_0000,
        c * c < (len + 1) * (len + 1),
    ensures
        r == c * FIXED_ONE / len as int,
        -(FIXED_ONE as int) <= r <= FIXED_ONE,
{
    proof {
        if c > len {
            assert((len + 1) * (len + 1) <= c * c) by (nonlinear_arith)
                requires c >= len + 1, len > 0;
        }
        if c < -(len as int) {
            assert((len + 1) * (len + 1) <= c * c) by (nonlinear_arith)
                requires -c >= len + 1, len > 0;
        }
        assert(-(len as int) * 10000 <= c * 10000 <= len * 10000) by (nonlinear_arith)
            requires -(len as int) <= c <= len;
        crate::cube::lemma_floor_in_range(c * 10000, len as int, -10000, 10000);
    }
    floor_div(c as i128 * FIXED_ONE as i128, len as i64) as i64
}

/// `v` scaled to length `FIXED_ONE` (see `unit`).
pub fn normalize(v: &Vec3) -> (u: Vec3)
    requires
        small(*v),
    ensures
        u == unit(*v),
        -(FIXED_ONE as int) <= u.x <= FIXED_ONE && -(FIXED_ONE as int) <= u.y
            <= FIXED_ONE && -(FIXED_ONE as int) <= u.z <= FIXED_ONE,
{
    let n = norm2(v);
    let len = isqrt(n);
    if len == 0 {
        proof {
            assert(v.x * v.x >= 0 && v.y * v.y >= 0 && v.z * v.z >= 0) by (nonlinear_arith);
            assert(n < 1);
            assert(v.x == 0) by (nonlinear_arith)
                requires v.x * v.x <= 0;
            assert(v.y == 0) by (nonlinear_arith)
                requires v.y * v.y <= 0;
            assert(v.z == 0) by (nonlinear_arith)
                requires v.z * v.z <= 0;
        }
        return *v;
    }
    proof {
        assert(0 <= v.y * v.y && 0 <= v.z * v.z && 0 <= v.x * v.x) by (nonlinear_arith);
        assert(n < (len + 1) * (len + 1));
    }
    Vec3 {
        x: scale_component(v.x, len),
        y: scale_component(v.y, len),
        z: scale_component(v.z, len),
    }
}

} // verus!
