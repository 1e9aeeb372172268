use raymaze::framebuffer::Framebuffer;
use raymaze::maze::Maze;
use raymaze::minimap::render_minimap;
use raymaze::player::Player;
use raymaze::render::TextureSet;
use raymaze::texture::Texture;

fn grid(rows: &[&str]) -> Maze {
    let cells: Vec<Vec<char>> = rows.iter().map(|r| r.chars().collect()).collect();
    Maze::new(cells).expect("grid must be rectangular and enclosed")
}

fn flat_texture(w: usize, h: usize, r: u8, g: u8, b: u8) -> Texture {
    let mut pixels = Vec::new();
    for _ in 0..w * h {
        pixels.push(r);
        pixels.push(g);
        pixels.push(b);
        pixels.push(255);
    }
    Texture::new(w, h, pixels).expect("texel bytes must fill the extent")
}

fn textures() -> TextureSet {
    TextureSet {
        plus: flat_texture(4, 4, 200, 0, 0),
        minus: flat_texture(4, 4, 0, 200, 0),
        pipe: flat_texture(4, 4, 0, 0, 200),
    }
}

#[test]
fn viewpoint_marker_lands_at_its_scaled_inset_position() {
    let maze = grid(&["+++++", "+   +", "+++++"]);
    let mut fb = Framebuffer::new(400, 300);
    let player = Player { x: 75_000, y: 75_000, a: 0, fov: 600 };
    render_minimap(&mut fb, &player, &maze, 200, 50, &textures());
    // Inset origin: (400 - 200 - 50, 20). World extents: 250 by 150.
    // Marker: origin + (75 * 200 / 250, 75 * 200 / 150) = (150 + 60, 20 + 100).
    assert_eq!(fb.buffer[120 * 400 + 210], 0xFF0000);
}

#[test]
fn marker_scales_linearly_with_world_position() {
    let maze = grid(&["+++++", "+   +", "+++++"]);
    let tex = textures();
    // Doubling the world x from 60 to 120 doubles the inset offset.
    let mut fb1 = Framebuffer::new(400, 300);
    let p1 = Player { x: 60_000, y: 75_000, a: 0, fov: 600 };
    render_minimap(&mut fb1, &p1, &maze, 200, 50, &tex);
    assert_eq!(fb1.buffer[120 * 400 + 150 + 48], 0xFF0000);
    let mut fb2 = Framebuffer::new(400, 300);
    let p2 = Player { x: 120_000, y: 75_000, a: 0, fov: 600 };
    render_minimap(&mut fb2, &p2, &maze, 200, 50, &tex);
    assert_eq!(fb2.buffer[120 * 400 + 150 + 96], 0xFF0000);
}

#[test]
fn wall_blocks_land_inside_the_inset() {
    let maze = grid(&["+-+", "| |", "+-+"]);
    let mut fb = Framebuffer::new(400, 300);
    fb.set_background_color(0x777777);
    fb.clear();
    let player = Player { x: 75_000, y: 75_000, a: 0, fov: 600 };
    render_minimap(&mut fb, &player, &maze, 120, 50, &textures());
    // Everything outside the inset keeps the cleared background.
    let x0 = 400 - 120 - 50;
    let y0 = 20;
    for y in 0..300usize {
        for x in 0..400usize {
            let inside = x >= x0 && x < x0 + 120 + 2 && y >= y0 && y < y0 + 120 + 2;
            if !inside {
                assert_eq!(fb.buffer[y * 400 + x], 0x777777, "pixel ({}, {})", x, y);
            }
        }
    }
    // A wall cell's block shows its texture inside the inset: the
    // top-left corner cell maps to the inset origin.
    assert_eq!(fb.buffer[y0 * 400 + x0], 0xC80000);
}
