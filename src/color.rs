//! RGB colours with clamped channel arithmetic.
//!
//! Scalar factors are fixed-point numbers: an `i32` whose value is the factor
//! times `FX_ONE`. A factor of `FX_ONE` is 1.0, `FX_ONE / 2` is 0.5.
use vstd::prelude::*;

verus! {

/// The fixed-point unit: the `i32` that stands for the factor 1.0.
pub const FX_ONE: i32 = 65536;

/// Largest value of a colour channel.
pub const CHANNEL_MAX: u8 = 255;

/// A colour with three 8-bit channels.
#[derive(Clone, Copy, Debug, PartialEq, Eq, Structural)]
pub struct Color {
    pub r: u8,
    pub g: u8,
    pub b: u8,
}

/// A channel value forced into `[0, 255]`.
pub open spec fn clamp_channel(v: int) -> u8 {
    if v < 0 {
        0
    } else if v > 255 {
        255
    } else {
        v as u8
    }
}

/// Integer division rounded toward zero, as Rust's `/` does (`d > 0`).
pub open spec fn div_toward_zero(n: int, d: int) -> int {
    if n >= 0 {
        n / d
    } else {
        -((-n) / d)
    }
}

/// A channel multiplied by a fixed-point factor, then clamped.
pub open spec fn scale_channel(c: u8, f: i32) -> u8 {
    clamp_channel(div_toward_zero(c * f, FX_ONE as int))
}

/// Two channels summed, then clamped.
pub open spec fn add_channel(a: u8, b: u8) -> u8 {
    clamp_channel(a + b)
}

/// The channel `a + (b - a) * t`, for a fixed-point `t`, then clamped.
pub open spec fn lerp_channel(a: u8, b: u8, t: i32) -> u8 {
    clamp_channel(a + div_toward_zero((b - a) * t, FX_ONE as int))
}

/// The packed `0xRRGGBB` value of three channels.
pub open spec fn pack(r: u8, g: u8, b: u8) -> u32 {
    (r * 65536 + g * 256 + b) as u32
}

impl Color {
    pub open spec fn packed(self) -> u32 {
        pack(self.r, self.g, self.b)
    }

    /// This colour times the fixed-point factor `f`, clamped.
    pub open spec fn scaled(self, f: i32) -> Color {
        Color { r: scale_channel(self.r, f), g: scale_channel(self.g, f), b: scale_channel(self.b, f) }
    }

    /// The clamped channel-wise sum.
    pub open spec fn plus(self, o: Color) -> Color {
        Color { r: add_channel(self.r, o.r), g: add_channel(self.g, o.g), b: add_channel(self.b, o.b) }
    }

    /// The clamped interpolation toward `o` by the fixed-point `t`.
    pub open spec fn mixed(self, o: Color, t: i32) -> Color {
        Color { r: lerp_channel(self.r, o.r, t), g: lerp_channel(self.g, o.g, t), b: lerp_channel(self.b, o.b, t) }
    }

    pub fn new(r: u8, g: u8, b: u8) -> (c: Color)
        ensures
            c.r == r,
            c.g == g,
            c.b == b,
    {
        Color { r, g, b }
    }

    /// Black, the zero colour.
    pub fn black() -> (c: Color)
        ensures
            c.r == 0 && c.g == 0 && c.b == 0,
    {
        Color { r: 0, g: 0, b: 0 }
    }

    /// The colour of a packed `0xRRGGBB` value; bits above the low 24 are ignored.
    pub fn from_hex(hex: u32) -> (c: Color)
        ensures
            c.r == (hex / 65536) % 256,
            c.g == (hex / 256) % 256,
            c.b == hex % 256,
    {
        Color { r: ((hex / 65536) % 256) as u8, g: ((hex / 256) % 256) as u8, b: (hex % 256) as u8 }
    }

    /// The packed `0xRRGGBB` value, ready for display.
    pub fn to_hex(&self) -> (h: u32)
        ensures
            h == self.packed(),
            h < 0x1000000,
            h / 65536 == self.r,
            (h / 256) % 256 == self.g,
            h % 256 == self.b,
    {
        let h = (self.r as u32) * 65536 + (self.g as u32) * 256 + (self.b as u32);
        assert(h / 65536 == self.r && (h / 256) % 256 == self.g && h % 256 == self.b) by (nonlinear_arith)
            requires
                h == self.r * 65536 + self.g * 256 + self.b,
                self.r < 256,
                self.g < 256,
                self.b < 256,
        ;
        h
    }

    /// Every channel multiplied by the fixed-point factor `f`, then clamped;
    /// a negative factor gives black.
    pub fn scale(&self, f: i32) -> (c: Color)
        ensures
            c == self.scaled(f),
            c.r == scale_channel(self.r, f),
            c.g == scale_channel(self.g, f),
            c.b == scale_channel(self.b, f),
    {
        Color { r: scale_u8(self.r, f), g: scale_u8(self.g, f), b: scale_u8(self.b, f) }
    }

    /// The channel-wise sum, clamped to 255.
    pub fn saturating_add(&self, o: &Color) -> (c: Color)
        ensures
            c == self.plus(*o),
            c.r == add_channel(self.r, o.r),
            c.g == add_channel(self.g, o.g),
            c.b == add_channel(self.b, o.b),
    {
        Color { r: add_u8(self.r, o.r), g: add_u8(self.g, o.g), b: add_u8(self.b, o.b) }
    }

    /// Linear interpolation toward `o` by the fixed-point `t`, clamped
    /// channel by channel; `t` outside `[0, FX_ONE]` extrapolates.
    pub fn lerp(&self, o: &Color, t: i32) -> (c: Color)
        ensures
            c == self.mixed(*o, t),
            c.r == lerp_channel(self.r, o.r, t),
            c.g == lerp_channel(self.g, o.g, t),
            c.b == lerp_channel(self.b, o.b, t),
    {
        Color { r: lerp_u8(self.r, o.r, t), g: lerp_u8(self.g, o.g, t), b: lerp_u8(self.b, o.b, t) }
    }
}

/// Interpolation returns its first colour at `t = 0` and its second at
/// `t = FX_ONE`, for all colours.
pub proof fn lemma_lerp_endpoints(a: Color, b: Color)
    ensures
        lerp_channel(a.r, b.r, 0) == a.r,
        lerp_channel(a.g, b.g, 0) == a.g,
        lerp_channel(a.b, b.b, 0) == a.b,
        lerp_channel(a.r, b.r, FX_ONE) == b.r,
        lerp_channel(a.g, b.g, FX_ONE) == b.g,
        lerp_channel(a.b, b.b, FX_ONE) == b.b,
{
    assert forall|x: u8, y: u8| lerp_channel(x, y, FX_ONE) == y by {
        let d = y - x;
        assert(d * 65536 / 65536 == d) by (nonlinear_arith);
        assert((-d) * 65536 / 65536 == -d) by (nonlinear_arith);
    }
}

/// Scaling by `FX_ONE` keeps a colour, and adding black keeps it too.
pub proof fn lemma_identities(a: Color)
    ensures
        scale_channel(a.r, FX_ONE) == a.r,
        scale_channel(a.g, FX_ONE) == a.g,
        scale_channel(a.b, FX_ONE) == a.b,
        add_channel(a.r, 0) == a.r,
        add_channel(a.g, 0) == a.g,
        add_channel(a.b, 0) == a.b,
{
    assert forall|x: u8| scale_channel(x, FX_ONE) == x by {
        assert(x * 65536 / 65536 == x) by (nonlinear_arith);
    }
}

fn clamp_i64(v: i64) -> (r: u8)
    ensures
        r == clamp_channel(v as int),
{
    if v < 0 {
        0
    } else if v > 255 {
        255
    } else {
        v as u8
    }
}

fn div_fx(n: i64) -> (q: i64)
    requires
        -0x4000_0000_0000 <= n <= 0x4000_0000_0000,
    ensures
        q == div_toward_zero(n as int, FX_ONE as int),
{
    if n >= 0 {
        n / 65536
    } else {
        -((-n) / 65536)
    }
}

fn scale_u8(c: u8, f: i32) -> (r: u8)
    ensures
        r == scale_channel(c, f),
{
    assert(-0x4000_0000_0000 <= c * f <= 0x4000_0000_0000) by (nonlinear_arith)
        requires
            0 <= c <= 255,
            -0x8000_0000 <= f < 0x8000_0000,
    ;
    let p: i64 = (c as i64) * (f as i64);
    clamp_i64(div_fx(p))
}

fn add_u8(a: u8, b: u8) -> (r: u8)
    ensures
        r == add_channel(a, b),
{
    clamp_i64(a as i64 + b as i64)
}

fn lerp_u8(a: u8, b: u8, t: i32) -> (r: u8)
    ensures
        r == lerp_channel(a, b, t),
{
    let d: i64 = b as i64 - a as i64;
    assert(-0x4000_0000_0000 <= d * t <= 0x4000_0000_0000) by (nonlinear_arith)
        requires
            -255 <= d <= 255,
            -0x8000_0000 <= t < 0x8000_0000,
    ;
    let p: i64 = d * (t as i64);
    let q = div_fx(p);
    assert(-0x4000_0000_0000 <= q <= 0x4000_0000_0000);
    clamp_i64(a as i64 + q)
}

} // verus!
