use softrender::color::{Color, FX_ONE};
use softrender::shaders::{fragment_shader, lines_draw, shade, shader_kind, ShadeInput, ShaderKind};

fn input(y: i32, intensity: i32, noise: i32) -> ShadeInput {
    ShadeInput { y, intensity, noise, noise2: noise, diffuse: 0, specular: 0, seed: 7 }
}

#[test]
fn names_select_kinds() {
    assert_eq!(shader_kind("lines_shader"), Some(ShaderKind::Lines));
    assert_eq!(shader_kind("lava_shader"), Some(ShaderKind::Lava));
    assert_eq!(shader_kind("gradient_shader"), Some(ShaderKind::Gradient));
    assert_eq!(shader_kind("continents_shader"), Some(ShaderKind::Continents));
    assert_eq!(shader_kind("spaceship_shader"), Some(ShaderKind::Spaceship));
    assert_eq!(shader_kind("another_shader"), Some(ShaderKind::Another));
    assert_eq!(shader_kind("default_shader"), None);
    assert_eq!(shader_kind(""), None);
}

#[test]
fn unknown_shader_is_black() {
    let i = input(FX_ONE / 3, FX_ONE, 12345);
    assert_eq!(fragment_shader(&i, "default_shader"), Color::new(0, 0, 0));
    assert_eq!(fragment_shader(&i, "lines_shader "), Color::new(0, 0, 0));
}

#[test]
fn continents_threshold() {
    assert_eq!(shade(ShaderKind::Continents, &input(0, FX_ONE, 9176), 0), Color::new(34, 139, 34));
    assert_eq!(shade(ShaderKind::Continents, &input(0, FX_ONE, 9175), 0), Color::new(0, 0, 255));
    assert_eq!(shade(ShaderKind::Continents, &input(0, FX_ONE / 2, 20000), 0), Color::new(17, 69, 17));
}

#[test]
fn gradient_runs_blue_to_red() {
    assert_eq!(shade(ShaderKind::Gradient, &input(-FX_ONE, FX_ONE, 0), 0), Color::new(0, 0, 255));
    assert_eq!(shade(ShaderKind::Gradient, &input(FX_ONE, FX_ONE, 0), 0), Color::new(255, 0, 0));
    assert_eq!(shade(ShaderKind::Gradient, &input(0, FX_ONE, 0), 0), Color::new(127, 0, 128));
}

#[test]
fn lines_picks_by_draw() {
    assert_eq!(shade(ShaderKind::Lines, &input(0, FX_ONE, 0), 39), Color::new(92, 137, 182));
    assert_eq!(shade(ShaderKind::Lines, &input(0, FX_ONE, 0), 40), Color::new(188, 67, 67));
}

#[test]
fn lines_draw_is_a_percent_fixed_by_the_seed() {
    for seed in [0u64, 1, 1000, 123456789, u64::MAX] {
        let d = lines_draw(seed);
        assert!((0..=100).contains(&d));
        assert_eq!(d, lines_draw(seed));
    }
    let i = input(0, FX_ONE, 0);
    let c = fragment_shader(&i, "lines_shader");
    assert_eq!(c, shade(ShaderKind::Lines, &i, lines_draw(i.seed)));
    assert!(c == Color::new(92, 137, 182) || c == Color::new(188, 67, 67));
}

#[test]
fn lava_is_lit() {
    // mean noise 0: dark colour doubled plus the full edge glow
    assert_eq!(shade(ShaderKind::Lava, &input(0, FX_ONE, 0), 0), Color::new(255, 73, 0));
    assert_eq!(shade(ShaderKind::Lava, &input(0, FX_ONE / 2, 0), 0), Color::new(127, 36, 0));
    assert_eq!(shade(ShaderKind::Lava, &input(0, 0, 0), 0), Color::new(0, 0, 0));
    // mean noise 1: bright colour doubled, no glow
    assert_eq!(shade(ShaderKind::Lava, &input(0, FX_ONE, FX_ONE), 0), Color::new(255, 255, 214));
}

#[test]
fn spaceship_uses_its_own_lighting() {
    let lit = |diffuse: i32, specular: i32, intensity: i32| ShadeInput {
        y: 0,
        intensity,
        noise: 0,
        noise2: 0,
        diffuse,
        specular,
        seed: 0,
    };
    assert_eq!(shade(ShaderKind::Spaceship, &lit(FX_ONE / 2, 0, 0), 0), Color::new(50, 50, 127));
    assert_eq!(shade(ShaderKind::Spaceship, &lit(FX_ONE, FX_ONE / 2, 0), 0), Color::new(200, 200, 255));
    assert_eq!(shade(ShaderKind::Spaceship, &lit(0, 0, FX_ONE), 0), Color::new(0, 0, 0));
}

#[test]
fn another_exact() {
    let i = ShadeInput { y: FX_ONE, intensity: FX_ONE, noise: 0, noise2: 0, diffuse: 0, specular: 0, seed: 0 };
    assert_eq!(shade(ShaderKind::Another, &i, 0), Color::new(255, 222, 173));
    let j = ShadeInput { y: -FX_ONE, intensity: FX_ONE, noise: FX_ONE, noise2: 0, diffuse: 0, specular: 0, seed: 0 };
    assert_eq!(shade(ShaderKind::Another, &j, 0), Color::new(139, 69, 19));
}
