use raymaze::color::Color;
use raymaze::framebuffer::Framebuffer;

#[test]
fn point_then_read_returns_set_color() {
    let mut fb = Framebuffer::new(8, 6);
    fb.set_current_color(0x123456);
    fb.point(3, 2);
    assert_eq!(fb.buffer[2 * 8 + 3], 0x123456);
    fb.set_current_color(0xABCDEF);
    fb.point(3, 2);
    assert_eq!(fb.buffer[2 * 8 + 3], 0xABCDEF);
}

#[test]
fn out_of_range_write_changes_nothing() {
    let mut fb = Framebuffer::new(8, 6);
    fb.set_current_color(0xFF00FF);
    fb.point(2, 1);
    let before = fb.buffer.clone();
    fb.point(8, 0);
    fb.point(0, 6);
    fb.point(100, 100);
    assert_eq!(fb.buffer.len(), before.len());
    assert_eq!(fb.buffer, before);
}

#[test]
fn clear_fills_with_background() {
    let mut fb = Framebuffer::new(4, 4);
    fb.set_background_color(0x00FF00);
    fb.set_current_color(0xFFFFFF);
    fb.point(1, 1);
    fb.clear();
    for &p in fb.buffer.iter() {
        assert_eq!(p, 0x00FF00);
    }
}

#[test]
fn new_surface_is_black_with_white_draw_color() {
    let fb = Framebuffer::new(5, 3);
    assert_eq!(fb.width, 5);
    assert_eq!(fb.height, 3);
    assert_eq!(fb.buffer.len(), 15);
    for &p in fb.buffer.iter() {
        assert_eq!(p, 0);
    }
}

#[test]
fn color_packs_to_hex() {
    assert_eq!(Color::new(0x12, 0x34, 0x56).to_hex(), 0x123456);
    assert_eq!(Color::white().to_hex(), 0xFFFFFF);
    assert_eq!(Color::red().to_hex(), 0xFF0000);
    assert_eq!(Color::black().to_hex(), 0x000000);
    assert_eq!(Color::ground().to_hex(), 0x9FAFC8);
}

#[test]
fn sky_gradient_runs_between_its_endpoints() {
    let top = Color::gradient_sky(0, 325);
    assert_eq!((top.r, top.g, top.b), (0, 0, 0));
    let horizon = Color::gradient_sky(325, 325);
    assert_eq!((horizon.r, horizon.g, horizon.b), (32, 30, 67));
    let mid = Color::gradient_sky(1, 2);
    assert_eq!((mid.r, mid.g, mid.b), (16, 15, 33));
}
