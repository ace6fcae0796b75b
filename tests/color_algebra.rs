use softrender::color::{Color, FX_ONE};

#[test]
fn hex_round_trip() {
    let c = Color::new(0x12, 0x34, 0x56);
    assert_eq!(c.to_hex(), 0x123456);
    assert_eq!(Color::from_hex(0x123456), c);
    assert_eq!(Color::from_hex(0xFF_ABCDEF), Color::new(0xAB, 0xCD, 0xEF));
}

#[test]
fn scale_exact_values() {
    let c = Color::new(100, 200, 7);
    assert_eq!(c.scale(FX_ONE / 2), Color::new(50, 100, 3));
    assert_eq!(c.scale(FX_ONE), c);
    assert_eq!(c.scale(0), Color::new(0, 0, 0));
}

#[test]
fn scale_clamps_channels() {
    let c = Color::new(100, 200, 7);
    assert_eq!(c.scale(2 * FX_ONE), Color::new(200, 255, 14));
    assert_eq!(c.scale(-FX_ONE), Color::new(0, 0, 0));
}

#[test]
fn add_clamps_channels() {
    let a = Color::new(200, 10, 0);
    let b = Color::new(100, 20, 0);
    assert_eq!(a.saturating_add(&b), Color::new(255, 30, 0));
    assert_eq!(a.saturating_add(&Color::black()), a);
}

#[test]
fn lerp_endpoints_and_midpoint() {
    let a = Color::new(130, 20, 0);
    let b = Color::new(255, 226, 107);
    assert_eq!(a.lerp(&b, 0), a);
    assert_eq!(a.lerp(&b, FX_ONE), b);
    assert_eq!(a.lerp(&b, FX_ONE / 2), Color::new(192, 123, 53));
}

#[test]
fn lerp_extrapolates_and_clamps() {
    let a = Color::new(100, 100, 100);
    let b = Color::new(200, 0, 100);
    assert_eq!(a.lerp(&b, 2 * FX_ONE), Color::new(255, 0, 100));
    assert_eq!(a.lerp(&b, -FX_ONE), Color::new(0, 200, 100));
}
