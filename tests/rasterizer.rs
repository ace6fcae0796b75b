use softrender::color::{Color, FX_ONE};
use softrender::framebuffer::Framebuffer;
use softrender::raster::{assemble_triangles, rasterize, Fragment, ScreenVertex, SUBPIXEL};
use softrender::shaders::{shade, ShadeInput, ShaderKind};

fn v(x: i64, y: i64, z: u32) -> ScreenVertex {
    ScreenVertex { x, y, z }
}

#[test]
fn assembly_counts_whole_triangles() {
    assert_eq!(assemble_triangles(0).len(), 0);
    assert_eq!(assemble_triangles(2).len(), 0);
    assert_eq!(assemble_triangles(7), vec![(0, 1, 2), (3, 4, 5)]);
    assert_eq!(assemble_triangles(9).len(), 3);
}

#[test]
fn degenerate_triangle_gives_nothing() {
    let f = rasterize(v(0, 0, 1), v(160, 160, 1), v(320, 320, 1), 40, 40);
    assert!(f.is_empty());
}

#[test]
fn off_screen_triangle_gives_nothing() {
    let f = rasterize(v(-800, -800, 1), v(-160, -800, 1), v(-800, -160, 1), 40, 40);
    assert!(f.is_empty());
}

#[test]
fn small_triangle_covers_expected_pixels() {
    // right triangle with legs along the top and left of a 4x4 pixel block
    let s = SUBPIXEL;
    let f = rasterize(v(0, 0, 10), v(4 * s, 0, 10), v(0, 4 * s, 10), 8, 8);
    let pixels: Vec<(usize, usize)> = f.iter().map(|g| (g.x, g.y)).collect();
    assert_eq!(
        pixels,
        vec![(0, 0), (1, 0), (2, 0), (3, 0), (0, 1), (1, 1), (2, 1), (0, 2), (1, 2), (0, 3)]
    );
    assert!(f.iter().all(|g| g.depth == 10 && g.w0 + g.w1 + g.w2 == g.area));
}

#[test]
fn shared_edge_pixels_drawn_once() {
    // a square split along its diagonal, which passes through pixel centres
    let s = SUBPIXEL;
    let a = v(0, 0, 1);
    let b = v(8 * s, 0, 1);
    let c = v(8 * s, 8 * s, 1);
    let d = v(0, 8 * s, 1);
    let mut count = vec![0u32; 64];
    for g in rasterize(a, b, c, 8, 8).iter().chain(rasterize(a, c, d, 8, 8).iter()) {
        count[g.y * 8 + g.x] += 1;
    }
    assert!(count.iter().all(|&n| n == 1));
}

#[test]
fn both_orientations_cover_the_same_pixels() {
    let s = SUBPIXEL;
    let p = v(s, s, 5);
    let q = v(7 * s, 2 * s, 5);
    let r = v(3 * s, 6 * s, 5);
    let one: Vec<(usize, usize)> = rasterize(p, q, r, 8, 8).iter().map(|g| (g.x, g.y)).collect();
    let other: Vec<(usize, usize)> = rasterize(p, r, q, 8, 8).iter().map(|g| (g.x, g.y)).collect();
    assert!(!one.is_empty());
    assert_eq!(one, other);
}

#[test]
fn depth_is_interpolated() {
    let s = SUBPIXEL;
    let f = rasterize(v(0, 0, 0), v(8 * s, 0, 800), v(0, 8 * s, 0), 8, 8);
    let g = f.iter().find(|g| g.x == 4 && g.y == 0).unwrap();
    // centre x = 4.5 pixels of 8: depth 800 * 4.5 / 8
    assert_eq!(g.depth, 450);
}

#[test]
fn full_screen_triangle_end_to_end() {
    let (w, h) = (6usize, 4usize);
    let s = SUBPIXEL;
    let depth: u32 = 0x8000_0000;
    let mut fb = Framebuffer::new(w, h);
    fb.clear();
    let tris = assemble_triangles(3);
    assert_eq!(tris.len(), 1);
    let frags = rasterize(v(-50 * s, -50 * s, depth), v(200 * s, -50 * s, depth), v(-50 * s, 200 * s, depth), w, h);
    assert_eq!(frags.len(), w * h);
    let input = ShadeInput { y: 0, intensity: FX_ONE, noise: 0, noise2: 0, diffuse: 0, specular: 0, seed: 0 };
    let shaded: Vec<(Fragment, Color)> =
        frags.iter().map(|g| (*g, shade(ShaderKind::Gradient, &input, 0))).collect();
    fb.draw_fragments(&shaded);
    let expected = shade(ShaderKind::Gradient, &input, 0).to_hex();
    for i in 0..w * h {
        assert_eq!(fb.zbuffer[i], depth);
        assert_eq!(fb.buffer[i], expected);
    }
}

#[test]
fn draw_fragments_keeps_nearest() {
    let mut fb = Framebuffer::new(2, 1);
    fb.clear();
    let f = |x: usize, depth: u32| Fragment { x, y: 0, depth, w0: 1, w1: 0, w2: 0, area: 1 };
    let shaded = vec![
        (f(0, 30), Color::new(1, 0, 0)),
        (f(0, 10), Color::new(2, 0, 0)),
        (f(0, 20), Color::new(3, 0, 0)),
        (f(5, 0), Color::new(4, 0, 0)),
    ];
    fb.draw_fragments(&shaded);
    assert_eq!(fb.buffer[0], 0x020000);
    assert_eq!(fb.zbuffer[0], 10);
}
