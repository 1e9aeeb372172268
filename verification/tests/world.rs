use raymaze::maze::Maze;
use raymaze::texture::Texture;

fn rows(rows: &[&str]) -> Vec<Vec<char>> {
    rows.iter().map(|r| r.chars().collect()).collect()
}

#[test]
fn enclosed_rectangular_grid_is_accepted() {
    let m = Maze::new(rows(&["+++", "+ +", "+++"])).unwrap();
    assert_eq!(m.width(), 3);
    assert_eq!(m.height(), 3);
    assert_eq!(m.cell(1, 1), ' ');
    assert_eq!(m.cell(0, 0), '+');
}

#[test]
fn ragged_grid_is_rejected() {
    assert!(Maze::new(rows(&["+++", "+ ++", "+++"])).is_none());
}

#[test]
fn empty_grid_is_rejected() {
    assert!(Maze::new(Vec::new()).is_none());
    assert!(Maze::new(vec![Vec::new()]).is_none());
}

#[test]
fn grid_with_an_open_border_cell_is_rejected() {
    assert!(Maze::new(rows(&["+ +", "+ +", "+++"])).is_none());
    assert!(Maze::new(rows(&["+++", "  +", "+++"])).is_none());
    assert!(Maze::new(rows(&["+++", "+ +", "++ "])).is_none());
}

#[test]
fn texture_accepts_exactly_fitting_bytes() {
    let t = Texture::new(2, 2, vec![0; 16]).unwrap();
    assert_eq!(t.width, 2);
    assert_eq!(t.height, 2);
    assert!(Texture::new(2, 2, vec![0; 15]).is_none());
    assert!(Texture::new(0, 2, vec![]).is_none());
}

#[test]
fn texel_reads_pack_color_and_expose_alpha() {
    let mut pixels = vec![0u8; 16];
    // Texel (1, 0): the second four bytes.
    pixels[4] = 0x12;
    pixels[5] = 0x34;
    pixels[6] = 0x56;
    pixels[7] = 0x9A;
    let t = Texture::new(2, 2, pixels).unwrap();
    assert_eq!(t.get_pixel(1, 0), 0x123456);
    assert_eq!(t.alpha(1, 0), 0x9A);
    assert_eq!(t.get_pixel(0, 0), 0);
    assert_eq!(t.alpha(0, 0), 0);
}
