use raymaze::bmp::{bmp_file_bytes, WriteBmp};
use raymaze::framebuffer::Framebuffer;

#[test]
fn two_by_one_white_surface_serializes_to_62_bytes() {
    let buffer: Vec<u32> = vec![0xFFFFFF, 0xFFFFFF];
    let bytes = bmp_file_bytes(&buffer, 2, 1);
    // 54 header bytes plus one row: 2 pixels at 3 bytes, padded to 8.
    assert_eq!(bytes.len(), 62);
    assert_eq!(&bytes[0..2], &[0x42, 0x4D]);
    // The size field equals the actual byte count, little-endian.
    assert_eq!(&bytes[2..6], &[62, 0, 0, 0]);
}

#[test]
fn header_fields_hold_the_fixed_layout() {
    let buffer: Vec<u32> = vec![0; 6];
    let bytes = bmp_file_bytes(&buffer, 3, 2);
    assert_eq!(bytes[10], 54, "pixel data offset");
    assert_eq!(bytes[14], 40, "info header size");
    assert_eq!(&bytes[18..22], &[3, 0, 0, 0], "width");
    assert_eq!(&bytes[22..26], &[2, 0, 0, 0], "height");
    assert_eq!(bytes[26], 1, "planes");
    assert_eq!(bytes[28], 24, "bits per pixel");
    assert_eq!(&bytes[6..10], &[0, 0, 0, 0], "reserved words");
    assert_eq!(&bytes[30..34], &[0, 0, 0, 0], "compression");
    assert_eq!(&bytes[34..38], &[24, 0, 0, 0], "pixel data size");
    assert_eq!(&bytes[38..54], &[0; 16], "resolution and palette fields");
    // 3 pixels * 3 bytes = 9, padded to 12; two rows.
    assert_eq!(bytes.len(), 54 + 2 * 12);
    assert_eq!(bytes[2] as usize, 54 + 2 * 12);
}

#[test]
fn pixels_are_stored_bottom_to_top_in_bgr_order() {
    // A 2x2 surface: top row red then green, bottom row blue then white.
    let buffer: Vec<u32> = vec![0xFF0000, 0x00FF00, 0x0000FF, 0xFFFFFF];
    let bytes = bmp_file_bytes(&buffer, 2, 2);
    let row = 8;
    // Bottom world row (y = 1) comes first in the file.
    assert_eq!(&bytes[54..54 + 6], &[255, 0, 0, 255, 255, 255]);
    // Top world row (y = 0) follows.
    assert_eq!(&bytes[54 + row..54 + row + 6], &[0, 0, 255, 0, 255, 0]);
}

#[test]
fn row_padding_is_zero() {
    let buffer: Vec<u32> = vec![0xFFFFFF, 0xFFFFFF];
    let bytes = bmp_file_bytes(&buffer, 2, 1);
    assert_eq!(bytes[60], 0);
    assert_eq!(bytes[61], 0);
}

#[test]
fn surface_renders_itself_as_a_bitmap() {
    let mut fb = Framebuffer::new(2, 1);
    fb.set_background_color(0xFFFFFF);
    fb.clear();
    let bytes = fb.render_buffer();
    assert_eq!(bytes.len(), 62);
    assert_eq!(bytes[2], 62);
    assert_eq!(&bytes[54..60], &[255, 255, 255, 255, 255, 255]);
}
