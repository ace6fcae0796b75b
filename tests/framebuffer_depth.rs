use softrender::framebuffer::{render_background, Framebuffer, DEFAULT_BACKGROUND, DEPTH_FAR, STAR_COLOR};

#[test]
fn new_framebuffer_is_empty() {
    let fb = Framebuffer::new(4, 3);
    assert_eq!(fb.buffer.len(), 12);
    assert!(fb.buffer.iter().all(|&c| c == 0));
    assert!(fb.zbuffer.iter().all(|&z| z == DEPTH_FAR));
}

#[test]
fn nearest_write_wins() {
    let mut fb = Framebuffer::new(4, 3);
    fb.set_current_color(0x00FF00);
    fb.point(1, 2, 500);
    fb.set_current_color(0xFF0000);
    fb.point(1, 2, 100);
    fb.set_current_color(0x0000FF);
    fb.point(1, 2, 300);
    let i = 2 * 4 + 1;
    assert_eq!(fb.buffer[i], 0xFF0000);
    assert_eq!(fb.zbuffer[i], 100);
}

#[test]
fn equal_depth_keeps_first_write() {
    let mut fb = Framebuffer::new(4, 3);
    fb.set_current_color(0x111111);
    fb.point(0, 0, 42);
    fb.set_current_color(0x222222);
    fb.point(0, 0, 42);
    assert_eq!(fb.buffer[0], 0x111111);
    assert_eq!(fb.zbuffer[0], 42);
}

#[test]
fn clear_restores_background_and_depth() {
    let mut fb = Framebuffer::new(4, 3);
    fb.set_background_star(3, 1, 0xFFFFFF);
    fb.set_current_color(0xABCDEF);
    fb.point(2, 2, 7);
    fb.point(3, 1, 9);
    fb.clear();
    for i in 0..12 {
        let expected = if i == 4 + 3 { 0xFFFFFF } else { DEFAULT_BACKGROUND };
        assert_eq!(fb.buffer[i], expected);
        assert_eq!(fb.zbuffer[i], DEPTH_FAR);
    }
    fb.clear();
    assert_eq!(fb.buffer[7], 0xFFFFFF);
}

#[test]
fn out_of_bounds_point_changes_nothing() {
    let mut fb = Framebuffer::new(4, 3);
    fb.point(4, 0, 1);
    fb.point(0, 3, 1);
    fb.point(usize::MAX, usize::MAX, 0);
    assert!(fb.buffer.iter().all(|&c| c == 0));
    assert!(fb.zbuffer.iter().all(|&z| z == DEPTH_FAR));
}

#[test]
fn background_star_out_of_bounds_ignored() {
    let mut fb = Framebuffer::new(2, 2);
    fb.set_background_star(2, 0, 0xFFFFFF);
    fb.clear();
    assert!(fb.buffer.iter().all(|&c| c == DEFAULT_BACKGROUND));
}

#[test]
fn starfield_touches_only_background() {
    let mut fb = Framebuffer::new(5, 4);
    fb.set_current_color(0x123456);
    fb.point(0, 0, 3);
    render_background(&mut fb, 30);
    assert_eq!(fb.buffer[0], 0x123456);
    assert_eq!(fb.zbuffer[0], 3);
    fb.clear();
    assert!(fb.buffer.iter().all(|&c| c == DEFAULT_BACKGROUND || c == STAR_COLOR));
    assert!(fb.buffer.iter().any(|&c| c == STAR_COLOR));
}

#[test]
fn paint_stars_paints_exactly_the_given_positions() {
    let mut fb = Framebuffer::new(3, 2);
    fb.paint_stars(&vec![(0, 0), (2, 1), (3, 0), (0, 2)]);
    fb.clear();
    let expected = [STAR_COLOR, DEFAULT_BACKGROUND, DEFAULT_BACKGROUND, DEFAULT_BACKGROUND, DEFAULT_BACKGROUND, STAR_COLOR];
    assert_eq!(fb.buffer, expected.to_vec());
}

#[test]
fn no_stars_on_an_empty_framebuffer() {
    let mut fb = Framebuffer::new(0, 0);
    render_background(&mut fb, 0);
    assert!(fb.buffer.is_empty());
}
