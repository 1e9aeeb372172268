use raymaze::enemy::Enemy;
use raymaze::framebuffer::Framebuffer;
use raymaze::maze::Maze;
use raymaze::player::Player;
use raymaze::render::{render2d, render3d, render_enemy, render_wall_column,
    render_start_screen, render_victory_screen, render_defeat_screen, wall_height,
    TextureSet};
use raymaze::texture::Texture;

fn grid(rows: &[&str]) -> Maze {
    let cells: Vec<Vec<char>> = rows.iter().map(|r| r.chars().collect()).collect();
    Maze::new(cells).expect("grid must be rectangular and enclosed")
}

fn flat_texture(w: usize, h: usize, r: u8, g: u8, b: u8, a: u8) -> Texture {
    let mut pixels = Vec::new();
    for _ in 0..w * h {
        pixels.push(r);
        pixels.push(g);
        pixels.push(b);
        pixels.push(a);
    }
    Texture::new(w, h, pixels).expect("texel bytes must fill the extent")
}

fn textures() -> TextureSet {
    TextureSet {
        plus: flat_texture(4, 4, 200, 0, 0, 255),
        minus: flat_texture(4, 4, 0, 200, 0, 255),
        pipe: flat_texture(4, 4, 0, 0, 200, 255),
    }
}

fn corridor() -> Maze {
    grid(&["+++++", "+   +", "+++++"])
}

fn player_at(x: i64, y: i64) -> Player {
    Player { x, y, a: 0, fov: 600 }
}

#[test]
fn actor_beyond_max_render_distance_draws_nothing() {
    let maze = grid(&[
        "++++++++++++++++",
        "+              +",
        "++++++++++++++++",
    ]);
    let mut fb = Framebuffer::new(100, 100);
    let ghost = flat_texture(4, 4, 255, 255, 255, 255);
    let player = player_at(75_000, 75_000);
    // 14 cells away: 700 world units, far past the 250-unit limit.
    let enemy = Enemy::new(75_000 + 700_000, 75_000);
    let before = fb.buffer.clone();
    let drawn = render_enemy(&mut fb, &maze, &player, &enemy, &ghost, 50);
    assert!(!drawn);
    assert_eq!(fb.buffer, before);
}

#[test]
fn occluded_actor_draws_nothing() {
    // A wall separates the viewpoint's cell from the actor's.
    let maze = grid(&["+++++", "+ + +", "+++++"]);
    let mut fb = Framebuffer::new(100, 100);
    let ghost = flat_texture(4, 4, 255, 255, 255, 255);
    let player = player_at(75_000, 75_000);
    let enemy = Enemy::new(175_000, 75_000);
    let before = fb.buffer.clone();
    let drawn = render_enemy(&mut fb, &maze, &player, &enemy, &ghost, 50);
    assert!(!drawn);
    assert_eq!(fb.buffer, before);
}

#[test]
fn actor_outside_the_field_of_view_draws_nothing() {
    let maze = corridor();
    let mut fb = Framebuffer::new(100, 100);
    let ghost = flat_texture(4, 4, 255, 255, 255, 255);
    // Facing east; the actor is due west.
    let player = player_at(175_000, 75_000);
    let enemy = Enemy::new(95_000, 75_000);
    let before = fb.buffer.clone();
    let drawn = render_enemy(&mut fb, &maze, &player, &enemy, &ghost, 50);
    assert!(!drawn);
    assert_eq!(fb.buffer, before);
}

#[test]
fn visible_actor_is_billboarded() {
    let maze = corridor();
    let mut fb = Framebuffer::new(100, 100);
    let ghost = flat_texture(4, 4, 255, 255, 255, 255);
    let player = player_at(75_000, 75_000);
    let enemy = Enemy::new(125_000, 75_000);
    let before = fb.buffer.clone();
    let drawn = render_enemy(&mut fb, &maze, &player, &enemy, &ghost, 50);
    assert!(drawn);
    assert!(fb.buffer != before, "a visible opaque sprite must draw pixels");
}

#[test]
fn fully_transparent_actor_draws_no_pixels() {
    let maze = corridor();
    let mut fb = Framebuffer::new(100, 100);
    let ghost = flat_texture(4, 4, 255, 255, 255, 0);
    let player = player_at(75_000, 75_000);
    let enemy = Enemy::new(125_000, 75_000);
    let before = fb.buffer.clone();
    render_enemy(&mut fb, &maze, &player, &enemy, &ghost, 50);
    assert_eq!(fb.buffer, before);
}

#[test]
fn wall_height_halves_when_distance_doubles() {
    let h1 = wall_height(325, 40, 26_000);
    let h2 = wall_height(325, 40, 52_000);
    assert_eq!(h1, 500);
    assert_eq!(h2, 250);
    assert_eq!(h2, h1 / 2);
}

#[test]
fn unmapped_symbol_skips_the_column() {
    let mut fb = Framebuffer::new(20, 20);
    let tex = textures();
    let before = fb.buffer.clone();
    let drawn = render_wall_column(&mut fb, 3, 10, 10_000, ' ', &tex, 1);
    assert!(!drawn);
    assert_eq!(fb.buffer, before);
}

#[test]
fn wall_column_stays_in_its_column() {
    let mut fb = Framebuffer::new(20, 20);
    let tex = textures();
    let before = fb.buffer.clone();
    let drawn = render_wall_column(&mut fb, 3, 10, 10_000, '+', &tex, 1);
    assert!(drawn);
    for y in 0..20 {
        for x in 0..20 {
            if x != 3 {
                assert_eq!(fb.buffer[y * 20 + x], before[y * 20 + x]);
            }
        }
    }
    // The middle of the column shows the wall texture.
    assert_eq!(fb.buffer[10 * 20 + 3], 0xC80000);
}

#[test]
fn wall_column_interpolates_the_texture_rows() {
    let mut fb = Framebuffer::new(20, 20);
    // A one-texel-wide texture whose four rows are distinct colors.
    let pixels = vec![
        1, 0, 0, 255,
        2, 0, 0, 255,
        3, 0, 0, 255,
        4, 0, 0, 255,
    ];
    let column_tex = Texture::new(1, 4, pixels).unwrap();
    let tex = TextureSet {
        plus: column_tex,
        minus: flat_texture(4, 4, 0, 200, 0, 255),
        pipe: flat_texture(4, 4, 0, 0, 200, 255),
    };
    // Half height 10 over a corrected distance of 50 units projects an
    // eight-pixel slice: rows 6 through 13.
    let drawn = render_wall_column(&mut fb, 5, 7, 50_000, '+', &tex, 1);
    assert!(drawn);
    for (k, want) in [(6, 1), (7, 1), (8, 2), (9, 2), (10, 3), (11, 3), (12, 4), (13, 4)] {
        assert_eq!(fb.buffer[k * 20 + 5], (want as u32) << 16, "row {}", k);
    }
    assert_eq!(fb.buffer[5 * 20 + 5], 0);
    assert_eq!(fb.buffer[14 * 20 + 5], 0);
}

#[test]
fn perspective_pass_fills_sky_and_ground_bands() {
    let maze = corridor();
    let mut fb = Framebuffer::new(100, 100);
    let tex = textures();
    let ghost = flat_texture(4, 4, 255, 255, 255, 255);
    let enemies = vec![];
    let player = player_at(75_000, 75_000);
    render3d(&mut fb, &player, &maze, &tex, &ghost, &enemies, 50, 1);
    // Top sky row is black, the ground band holds the ground color.
    assert_eq!(fb.buffer[0], 0);
    assert_eq!(fb.buffer[99 * 100], 0x9FAFC8);
}

#[test]
fn overhead_pass_marks_the_viewpoint_red() {
    let maze = corridor();
    let mut fb = Framebuffer::new(250, 150);
    let tex = textures();
    let player = player_at(75_000, 75_000);
    render2d(&mut fb, &player, &maze, &tex, 50);
    assert_eq!(fb.buffer[75 * 250 + 75], 0xFF0000);
}

#[test]
fn full_screen_cards_stretch_their_texture() {
    let mut fb = Framebuffer::new(10, 10);
    let card = flat_texture(2, 2, 1, 2, 3, 255);
    render_start_screen(&mut fb, &card);
    assert!(fb.buffer.iter().all(|&p| p == 0x010203));
    let card2 = flat_texture(2, 2, 9, 8, 7, 255);
    render_victory_screen(&mut fb, &card2);
    assert!(fb.buffer.iter().all(|&p| p == 0x090807));
    let card3 = flat_texture(2, 2, 4, 5, 6, 255);
    render_defeat_screen(&mut fb, &card3);
    assert!(fb.buffer.iter().all(|&p| p == 0x040506));
}
