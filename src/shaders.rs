//! The fragment shading library: a name lookup over a closed set of shader
//! kinds, and the colour logic of each kind.
//!
//! Shaders read their continuous inputs (noise samples, the fragment's
//! height, the lighting terms) as fixed-point
//! numbers over `FX_ONE`, sampled by the caller.
use crate::color::{Color, FX_ONE};
use crate::random::{percent_draw_of, seeded_percent};
use vstd::prelude::*;

verus! {

/// The procedural shaders of the library.
#[derive(Clone, Copy, Debug, PartialEq, Eq, Structural)]
pub enum ShaderKind {
    Lines,
    Lava,
    Gradient,
    Continents,
    Spaceship,
    Another,
}

/// What a shader reads of one fragment, in fixed point over `FX_ONE`.
#[derive(Clone, Copy, Debug, PartialEq, Eq, Structural)]
pub struct ShadeInput {
    /// The fragment's interpolated vertical position.
    pub y: i32,
    /// The lighting intensity, `FX_ONE` for full light.
    pub intensity: i32,
    /// The first noise sample.
    pub noise: i32,
    /// The second noise sample (used by the lava shader).
    pub noise2: i32,
    /// The diffuse term, normal dot light (used by the spaceship shader).
    pub diffuse: i32,
    /// The specular term, reflected light dot view raised to the
    /// shininess (used by the spaceship shader).
    pub specular: i32,
    /// The seed of the dithering draw (used by the lines shader).
    pub seed: u64,
}

/// The noise level above which the continents shader draws land.
pub const LAND_THRESHOLD: i32 = 9175;

/// The draw below which the lines shader picks its first colour, out of 0..=100.
pub const LINES_CUTOFF: i32 = 40;

/// The shader kind that a name selects, if any.
pub open spec fn kind_of_name(name: Seq<char>) -> Option<ShaderKind> {
    if name == "lines_shader"@ {
        Some(ShaderKind::Lines)
    } else if name == "lava_shader"@ {
        Some(ShaderKind::Lava)
    } else if name == "gradient_shader"@ {
        Some(ShaderKind::Gradient)
    } else if name == "continents_shader"@ {
        Some(ShaderKind::Continents)
    } else if name == "spaceship_shader"@ {
        Some(ShaderKind::Spaceship)
    } else if name == "another_shader"@ {
        Some(ShaderKind::Another)
    } else {
        None
    }
}

pub open spec fn rgb(r: u8, g: u8, b: u8) -> Color {
    Color { r, g, b }
}

/// `v` forced into the range of `i32`.
pub open spec fn saturate(v: int) -> i32 {
    if v < i32::MIN {
        i32::MIN
    } else if v > i32::MAX {
        i32::MAX
    } else {
        v as i32
    }
}

/// The fixed-point `(y + 1) / 2`: a height in `[-1, 1]` mapped to `[0, 1]`.
pub open spec fn hemisphere(y: i32) -> i32 {
    saturate(crate::color::div_toward_zero(y + FX_ONE, 2))
}

/// The lines shader: one of two colours picked by a draw out of 0..=100,
/// then lit.
pub open spec fn lines_color(draw: i32, intensity: i32) -> Color {
    if draw < LINES_CUTOFF {
        rgb(92, 137, 182).scaled(intensity)
    } else {
        rgb(188, 67, 67).scaled(intensity)
    }
}

/// The lava shader: dark to bright red-orange by the mean noise, doubled,
/// plus an edge glow that fades as the noise rises, lit.
pub open spec fn lava_color(noise: i32, noise2: i32, intensity: i32) -> Color {
    let n = crate::color::div_toward_zero(noise + noise2, 2) as i32;
    let base = rgb(130, 20, 0).mixed(rgb(255, 226, 107), n);
    base.scaled((2 * FX_ONE) as i32).plus(rgb(198, 33, 0).scaled(saturate(FX_ONE - n))).scaled(intensity)
}

/// The gradient shader: blue at the bottom to red at the top, lit.
pub open spec fn gradient_color(y: i32, intensity: i32) -> Color {
    rgb(0, 0, 255).mixed(rgb(255, 0, 0), hemisphere(y)).scaled(intensity)
}

/// The continents shader: land where the noise exceeds the threshold,
/// ocean elsewhere, lit.
pub open spec fn continents_color(noise: i32, intensity: i32) -> Color {
    if noise > LAND_THRESHOLD {
        rgb(34, 139, 34).scaled(intensity)
    } else {
        rgb(0, 0, 255).scaled(intensity)
    }
}

/// The spaceship shader, lit by its own terms: metallic blue scaled by the
/// diffuse term plus a bright highlight scaled by the specular term,
/// clamped. It does not use the ambient intensity.
pub open spec fn spaceship_color(diffuse: i32, specular: i32) -> Color {
    rgb(100, 100, 255).scaled(diffuse).plus(rgb(200, 200, 255).scaled(specular))
}

/// The rocky shader: violet to brown by the noise, toward sand with height,
/// lit.
pub open spec fn another_color(noise: i32, y: i32, intensity: i32) -> Color {
    rgb(72, 37, 159).mixed(rgb(139, 69, 19), noise).mixed(rgb(255, 222, 173), hemisphere(y)).scaled(
        intensity,
    )
}

/// The colour a shader kind gives one fragment; `draw` is the lines
/// shader's draw out of 0..=100, which the other kinds ignore.
pub open spec fn shade_color(kind: ShaderKind, input: ShadeInput, draw: i32) -> Color {
    match kind {
        ShaderKind::Lines => lines_color(draw, input.intensity),
        ShaderKind::Lava => lava_color(input.noise, input.noise2, input.intensity),
        ShaderKind::Gradient => gradient_color(input.y, input.intensity),
        ShaderKind::Continents => continents_color(input.noise, input.intensity),
        ShaderKind::Spaceship => spaceship_color(input.diffuse, input.specular),
        ShaderKind::Another => another_color(input.noise, input.y, input.intensity),
    }
}

fn saturate_exec(v: i64) -> (r: i32)
    ensures
        r == saturate(v as int),
{
    if v < -0x8000_0000 {
        -0x8000_0000
    } else if v > 0x7FFF_FFFF {
        0x7FFF_FFFF
    } else {
        v as i32
    }
}

fn hemisphere_exec(y: i32) -> (t: i32)
    ensures
        t == hemisphere(y),
{
    let s: i64 = y as i64 + 65536;
    let h: i64 = if s >= 0 {
        s / 2
    } else {
        -((-s) / 2)
    };
    saturate_exec(h)
}

/// Whether two strings hold the same characters.
pub fn same_text(a: &str, b: &str) -> (r: bool)
    ensures
        r == (a@ == b@),
{
    let n = a.unicode_len();
    if n != b.unicode_len() {
        return false;
    }
    let mut i: usize = 0;
    while i < n
        invariant
            n == a@.len(),
            n == b@.len(),
            i <= n,
            forall|j: int| 0 <= j < i ==> a@[j] == b@[j],
        decreases n - i,
    {
        if a.get_char(i) != b.get_char(i) {
            return false;
        }
        i = i + 1;
    }
    assert(a@ =~= b@);
    true
}

/// The shader kind that `name` selects; `None` for an unknown name.
pub fn shader_kind(name: &str) -> (k: Option<ShaderKind>)
    ensures
        k == kind_of_name(name@),
{
    if same_text(name, "lines_shader") {
        Some(ShaderKind::Lines)
    } else if same_text(name, "lava_shader") {
        Some(ShaderKind::Lava)
    } else if same_text(name, "gradient_shader") {
        Some(ShaderKind::Gradient)
    } else if same_text(name, "continents_shader") {
        Some(ShaderKind::Continents)
    } else if same_text(name, "spaceship_shader") {
        Some(ShaderKind::Spaceship)
    } else if same_text(name, "another_shader") {
        Some(ShaderKind::Another)
    } else {
        None
    }
}

/// The colour that `kind` gives the fragment described by `input`, with
/// `draw` as the lines shader's draw.
pub fn shade(kind: ShaderKind, input: &ShadeInput, draw: i32) -> (c: Color)
    ensures
        c == shade_color(kind, *input, draw),
{
    match kind {
        ShaderKind::Lines => {
            let base = if draw < LINES_CUTOFF {
                Color::new(92, 137, 182)
            } else {
                Color::new(188, 67, 67)
            };
            base.scale(input.intensity)
        },
        ShaderKind::Lava => {
            let s: i64 = input.noise as i64 + input.noise2 as i64;
            let n: i64 = if s >= 0 {
                s / 2
            } else {
                -((-s) / 2)
            };
            let n = n as i32;
            let base = Color::new(130, 20, 0).lerp(&Color::new(255, 226, 107), n);
            let glow = base.scale(2 * FX_ONE);
            let edge = Color::new(198, 33, 0).scale(saturate_exec(65536 - n as i64));
            glow.saturating_add(&edge).scale(input.intensity)
        },
        ShaderKind::Gradient => {
            let t = hemisphere_exec(input.y);
            Color::new(0, 0, 255).lerp(&Color::new(255, 0, 0), t).scale(input.intensity)
        },
        ShaderKind::Continents => {
            let terrain = if input.noise > LAND_THRESHOLD {
                Color::new(34, 139, 34)
            } else {
                Color::new(0, 0, 255)
            };
            terrain.scale(input.intensity)
        },
        ShaderKind::Spaceship => {
            let diffuse = Color::new(100, 100, 255).scale(input.diffuse);
            let highlight = Color::new(200, 200, 255).scale(input.specular);
            diffuse.saturating_add(&highlight)
        },
        ShaderKind::Another => {
            let terrain = Color::new(72, 37, 159).lerp(&Color::new(139, 69, 19), input.noise);
            let t = hemisphere_exec(input.y);
            terrain.lerp(&Color::new(255, 222, 173), t).scale(input.intensity)
        },
    }
}

/// The dithering draw of the lines shader: a generator is seeded from
/// `seed` and one value out of 0..=100 is drawn; the same seed gives the
/// same draw.
pub fn lines_draw(seed: u64) -> (r: i32)
    ensures
        0 <= r <= 100,
        r == percent_draw_of(seed),
{
    seeded_percent(seed)
}

/// Shades one fragment with the shader that `shader_type` names; an
/// unknown name gives black. The lines shader uses the draw of a generator
/// seeded with `input.seed`.
pub fn fragment_shader(input: &ShadeInput, shader_type: &str) -> (c: Color)
    ensures
        kind_of_name(shader_type@) is None ==> c == rgb(0, 0, 0),
        kind_of_name(shader_type@) is Some && kind_of_name(shader_type@)->0 != ShaderKind::Lines ==> c
            == shade_color(kind_of_name(shader_type@)->0, *input, 0),
        kind_of_name(shader_type@) == Some(ShaderKind::Lines) ==> c == lines_color(
            percent_draw_of(input.seed),
            input.intensity,
        ),
{
    match shader_kind(shader_type) {
        Some(kind) => {
            let draw = match kind {
                ShaderKind::Lines => lines_draw(input.seed),
                _ => 0,
            };
            shade(kind, input, draw)
        },
        None => Color::black(),
    }
}

} // verus!
