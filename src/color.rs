use vstd::prelude::*;

verus! {

/// The fixed-point value that stands for 1.0.
pub const FIXED_ONE: u32 = 10000;

/// An 8-bit-per-channel RGB color.
#[derive(Clone, Copy, Debug, PartialEq, Eq, Structural)]
pub struct Color {
    pub r: u8,
    pub g: u8,
    pub b: u8,
}

/// Channel sum clamped to the 8-bit range.
pub open spec fn sat_add(a: int, b: int) -> int {
    if a + b > 255 { 255 } else { a + b }
}

/// Channel product, normalized so that 255 acts as 1.0.
pub open spec fn mul_channel(a: int, b: int) -> int {
    a * b / 255
}

/// Channel scaled by a fixed-point factor, clamped to 255.
pub open spec fn scale_channel(c: int, s: int) -> int {
    if c * s / FIXED_ONE as int > 255 { 255 } else { c * s / FIXED_ONE as int }
}

/// Channel interpolated between `a` (at 0) and `b` (at `FIXED_ONE`).
pub open spec fn lerp_channel(a: int, b: int, t: int) -> int {
    (a * (FIXED_ONE - t) + b * t) / FIXED_ONE as int
}

/// Channel-wise saturating sum.
pub open spec fn add_colors(a: Color, b: Color) -> Color {
    Color {
        r: sat_add(a.r as int, b.r as int) as u8,
        g: sat_add(a.g as int, b.g as int) as u8,
        b: sat_add(a.b as int, b.b as int) as u8,
    }
}

/// Channel-wise product with 255 as 1.0.
pub open spec fn mul_colors(a: Color, b: Color) -> Color {
    Color {
        r: mul_channel(a.r as int, b.r as int) as u8,
        g: mul_channel(a.g as int, b.g as int) as u8,
        b: mul_channel(a.b as int, b.b as int) as u8,
    }
}

/// Every channel scaled by a fixed-point factor, saturating.
pub open spec fn scale_color(c: Color, s: int) -> Color {
    Color {
        r: scale_channel(c.r as int, s) as u8,
        g: scale_channel(c.g as int, s) as u8,
        b: scale_channel(c.b as int, s) as u8,
    }
}

/// The packed RGB888 value of a color.
pub open spec fn packed(c: Color) -> int {
    c.r * 65536 + c.g * 256 + c.b
}

proof fn lemma_lerp_in_range(a: int, b: int, t: int)
    requires
        0 <= a <= 255,
        0 <= b <= 255,
        0 <= t <= FIXED_ONE,
    ensures
        0 <= lerp_channel(a, b, t) <= 255,
{
    let one = FIXED_ONE as int;
    assert(0 <= a * (one - t)) by (nonlinear_arith)
        requires 0 <= a, 0 <= one - t;
    assert(0 <= b * t) by (nonlinear_arith)
        requires 0 <= b, 0 <= t;
    assert(a * (one - t) + b * t <= 255 * one) by (nonlinear_arith)
        requires a <= 255, b <= 255, 0 <= t <= one, 0 <= a, 0 <= b;
}

impl Color {
    pub open spec fn black_spec() -> Color {
        Color { r: 0, g: 0, b: 0 }
    }

    pub fn new(r: u8, g: u8, b: u8) -> (c: Color)
        ensures
            c.r == r && c.g == g && c.b == b,
    {
        Color { r, g, b }
    }

    /// Unpacks an RGB888 value; bits above the low 24 are ignored.
    pub fn from_hex(hex: u32) -> (c: Color)
        ensures
            c.r == (hex / 65536) % 256,
            c.g == (hex / 256) % 256,
            c.b == hex % 256,
    {
        Color { r: ((hex / 65536) % 256) as u8, g: ((hex / 256) % 256) as u8, b: (hex % 256) as u8 }
    }

    pub fn black() -> (c: Color)
        ensures
            c == Color::black_spec(),
    {
        Color { r: 0, g: 0, b: 0 }
    }

    /// Packs the color as `(r << 16) | (g << 8) | b`.
    pub fn to_hex(&self) -> (h: u32)
        ensures
            h == packed(*self),
            h < 0x100_0000,
    {
        self.r as u32 * 65536 + self.g as u32 * 256 + self.b as u32
    }

    /// Mean channel value as a fixed-point fraction of 255, rounded down.
    pub fn intensity(&self) -> (i: u32)
        ensures
            i == (self.r + self.g + self.b) * FIXED_ONE / 765,
            i <= FIXED_ONE,
    {
        let sum = self.r as u32 + self.g as u32 + self.b as u32;
        assert(sum * FIXED_ONE / 765 <= FIXED_ONE) by (nonlinear_arith)
            requires sum <= 765;
        sum * FIXED_ONE / 765
    }

    /// Linear interpolation; `t` is fixed-point in [0, 1], and each channel rounds down.
    pub fn lerp(a: &Color, b: &Color, t: u32) -> (c: Color)
        requires
            t <= FIXED_ONE,
        ensures
            c.r == lerp_channel(a.r as int, b.r as int, t as int),
            c.g == lerp_channel(a.g as int, b.g as int, t as int),
            c.b == lerp_channel(a.b as int, b.b as int, t as int),
    {
        proof {
            lemma_lerp_in_range(a.r as int, b.r as int, t as int);
            lemma_lerp_in_range(a.g as int, b.g as int, t as int);
            lemma_lerp_in_range(a.b as int, b.b as int, t as int);
        }
        let s = FIXED_ONE - t;
        Color {
            r: ((a.r as u32 * s + b.r as u32 * t) / FIXED_ONE) as u8,
            g: ((a.g as u32 * s + b.g as u32 * t) / FIXED_ONE) as u8,
            b: ((a.b as u32 * s + b.b as u32 * t) / FIXED_ONE) as u8,
        }
    }

    /// Channel-wise product, with 255 acting as 1.0 (rounded down).
    pub fn mul(&self, other: &Color) -> (c: Color)
        ensures
            c.r == mul_channel(self.r as int, other.r as int),
            c.g == mul_channel(self.g as int, other.g as int),
            c.b == mul_channel(self.b as int, other.b as int),
            c == mul_colors(*self, *other),
    {
        Color {
            r: Self::mul_u8(self.r, other.r),
            g: Self::mul_u8(self.g, other.g),
            b: Self::mul_u8(self.b, other.b),
        }
    }

    fn mul_u8(a: u8, b: u8) -> (r: u8)
        ensures
            r == mul_channel(a as int, b as int),
    {
        assert(a as int * b as int / 255 <= 255) by (nonlinear_arith)
            requires a <= 255, b <= 255;
        (a as u32 * b as u32 / 255) as u8
    }

    /// Scales every channel by a fixed-point factor, saturating at 255.
    pub fn mul_scalar(&self, scalar: u32) -> (c: Color)
        ensures
            c.r == scale_channel(self.r as int, scalar as int),
            c.g == scale_channel(self.g as int, scalar as int),
            c.b == scale_channel(self.b as int, scalar as int),
            c == scale_color(*self, scalar as int),
    {
        Color {
            r: Self::scale_u8(self.r, scalar),
            g: Self::scale_u8(self.g, scalar),
            b: Self::scale_u8(self.b, scalar),
        }
    }

    fn scale_u8(c: u8, s: u32) -> (r: u8)
        ensures
            r == scale_channel(c as int, s as int),
    {
        assert(c as int * s as int <= 255 * 0xffff_ffff) by (nonlinear_arith)
            requires c <= 255, s <= 0xffff_ffff;
        let v = c as u64 * s as u64 / FIXED_ONE as u64;
        if v > 255 { 255 } else { v as u8 }
    }

    /// Channel-wise saturating addition.
    pub fn add(&self, other: &Color) -> (c: Color)
        ensures
            c.r == sat_add(self.r as int, other.r as int),
            c.g == sat_add(self.g as int, other.g as int),
            c.b == sat_add(self.b as int, other.b as int),
            c == add_colors(*self, *other),
    {
        Color {
            r: Self::add_u8(self.r, other.r),
            g: Self::add_u8(self.g, other.g),
            b: Self::add_u8(self.b, other.b),
        }
    }

    fn add_u8(a: u8, b: u8) -> (r: u8)
        ensures
            r == sat_add(a as int, b as int),
    {
        let s = a as u16 + b as u16;
        if s > 255 { 255 } else { s as u8 }
    }

    /// Text form `Color(r: _, g: _, b: _)`.
    pub fn describe(&self) -> String {
        describe_rgb(self.r, self.g, self.b)
    }
}

/// Relies on std's `format!` to print three integers in decimal.
#[verifier::external_body]
fn describe_rgb(r: u8, g: u8, b: u8) -> String {
    format!("Color(r: {}, g: {}, b: {})", r, g, b)
}

/// Interpolating with factor 0 gives the first color and with factor 1 the second,
/// exactly.
pub proof fn lemma_lerp_endpoints(a: Color, b: Color)
    ensures
        lerp_channel(a.r as int, b.r as int, 0) == a.r,
        lerp_channel(a.g as int, b.g as int, 0) == a.g,
        lerp_channel(a.b as int, b.b as int, 0) == a.b,
        lerp_channel(a.r as int, b.r as int, FIXED_ONE as int) == b.r,
        lerp_channel(a.g as int, b.g as int, FIXED_ONE as int) == b.g,
        lerp_channel(a.b as int, b.b as int, FIXED_ONE as int) == b.b,
{
    assert forall|x: int, y: int| 0 <= x <= 255 && 0 <= y <= 255 implies
        #[trigger] lerp_channel(x, y, 0) == x && lerp_channel(x, y, FIXED_ONE as int) == y by {
        assert((x * 10000 + y * 0) / 10000 == x) by (nonlinear_arith);
        assert((x * 0 + y * 10000) / 10000 == y) by (nonlinear_arith);
    }
}

/// Every color operation keeps each channel within the 8-bit range, for any
/// channel values and factors; in particular saturating addition of full white to
/// itself gives full white.
pub proof fn lemma_channels_in_range(a: int, b: int, s: int, t: int)
    requires
        0 <= a <= 255,
        0 <= b <= 255,
        0 <= s,
        0 <= t <= FIXED_ONE,
    ensures
        0 <= sat_add(a, b) <= 255,
        0 <= mul_channel(a, b) <= 255,
        0 <= scale_channel(a, s) <= 255,
        0 <= lerp_channel(a, b, t) <= 255,
        add_colors(Color { r: 255, g: 255, b: 255 }, Color { r: 255, g: 255, b: 255 }) == (Color { r: 255, g: 255, b: 255 }),
{
    lemma_lerp_in_range(a, b, t);
    assert(0 <= a * b / 255 <= 255) by (nonlinear_arith)
        requires 0 <= a <= 255, 0 <= b <= 255;
    assert(0 <= a * s / 10000) by (nonlinear_arith)
        requires 0 <= a, 0 <= s;
}

} // verus!
