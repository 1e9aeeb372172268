use raymaze::fps::{FPSCounter, digits_of, render_digit, render_symbol, render_text};
use raymaze::framebuffer::Framebuffer;

#[test]
fn rate_publishes_when_the_window_closes() {
    let mut c = FPSCounter::new();
    assert_eq!(c.fps, 0);
    for _ in 0..59 {
        c.update(10);
    }
    assert_eq!(c.fps, 0);
    assert_eq!(c.frame_count, 59);
    c.update(410);
    assert_eq!(c.fps, 60);
    assert_eq!(c.frame_count, 0);
    assert_eq!(c.window_ms, 0);
}

#[test]
fn digits_decompose_decimal_numbers() {
    assert_eq!(digits_of(0), vec![0]);
    assert_eq!(digits_of(7), vec![7]);
    assert_eq!(digits_of(60), vec![6, 0]);
    assert_eq!(digits_of(1234), vec![1, 2, 3, 4]);
    assert_eq!(digits_of(u32::MAX), vec![4, 2, 9, 4, 9, 6, 7, 2, 9, 5]);
}

#[test]
fn glyphs_draw_only_white_pixels() {
    let mut fb = Framebuffer::new(40, 20);
    render_digit(&mut fb, 8, 1, 1, 2);
    render_symbol(&mut fb, 'F', 20, 1, 2);
    let mut changed = 0;
    for &p in fb.buffer.iter() {
        if p != 0 {
            assert_eq!(p, 0xFFFFFF);
            changed += 1;
        }
    }
    assert!(changed > 0, "the glyphs must light some cells");
}

#[test]
fn unknown_symbols_draw_nothing() {
    let mut fb = Framebuffer::new(20, 10);
    let before = fb.buffer.clone();
    render_symbol(&mut fb, 'Z', 2, 2, 1);
    assert_eq!(fb.buffer, before);
}

#[test]
fn readout_renders_its_label_and_digits() {
    let mut fb = Framebuffer::new(120, 20);
    let mut c = FPSCounter::new();
    for _ in 0..42 {
        c.update(0);
    }
    c.update(1000);
    assert_eq!(c.fps, 43);
    c.render(&mut fb, 2, 2, 2);
    assert!(fb.buffer.iter().any(|&p| p == 0xFFFFFF));
}

#[test]
fn text_renders_digit_glyphs() {
    let mut fb = Framebuffer::new(30, 10);
    let text = vec!['1'];
    render_text(&mut fb, &text, 0, 0, 1);
    // The digit one lights the middle cell of its top row.
    assert_eq!(fb.buffer[0 * 30 + 1], 0xFFFFFF);
    assert_eq!(fb.buffer[0 * 30 + 0], 0);
}
