use raymaze::framebuffer::Framebuffer;
use raymaze::maze::Maze;
use raymaze::player::Player;
use raymaze::raycaster::cast_ray;

fn grid(rows: &[&str]) -> Maze {
    let cells: Vec<Vec<char>> = rows.iter().map(|r| r.chars().collect()).collect();
    Maze::new(cells).expect("grid must be rectangular and enclosed")
}

fn center_player(a: i64) -> Player {
    Player { x: 75_000, y: 75_000, a, fov: 600 }
}

#[test]
fn ray_from_enclosed_center_hits_wall_at_half_cell() {
    let maze = grid(&["+++", "+ +", "+++"]);
    let mut fb = Framebuffer::new(10, 10);
    for angle in [0, 450, 900, 1350, 1800, 2250, 2700, 3150] {
        let hit = cast_ray(&mut fb, &maze, &center_player(angle), angle, 50, false);
        assert_eq!(hit.impact, '+');
        assert!(hit.distance >= 0);
        // From the center of the open cell, the wall is half a cell away
        // on the axes and a little farther on the diagonals.
        assert!(hit.distance >= 25, "angle {}: {}", angle, hit.distance);
        assert!(hit.distance <= 37, "angle {}: {}", angle, hit.distance);
    }
}

#[test]
fn axis_ray_distance_is_exactly_half_a_cell() {
    let maze = grid(&["+++", "+ +", "+++"]);
    let mut fb = Framebuffer::new(10, 10);
    let hit = cast_ray(&mut fb, &maze, &center_player(0), 0, 50, false);
    assert_eq!(hit.distance, 25);
    assert_eq!(hit.impact, '+');
}

#[test]
fn ray_reports_the_symbol_of_the_wall_it_meets() {
    let maze = grid(&["+-+", "| |", "+-+"]);
    let mut fb = Framebuffer::new(10, 10);
    let east = cast_ray(&mut fb, &maze, &center_player(0), 0, 50, false);
    assert_eq!(east.impact, '|');
    let south = cast_ray(&mut fb, &maze, &center_player(900), 900, 50, false);
    assert_eq!(south.impact, '-');
}

#[test]
fn longer_corridor_gives_longer_distance() {
    let near = grid(&["+++", "+ +", "+++"]);
    let far = grid(&["+++++", "+   +", "+++++"]);
    let mut fb = Framebuffer::new(10, 10);
    let d1 = cast_ray(&mut fb, &near, &center_player(0), 0, 50, false).distance;
    let d2 = cast_ray(&mut fb, &far, &center_player(0), 0, 50, false).distance;
    assert!(d2 > d1);
    assert_eq!(d2, 125);
}

#[test]
fn drawn_ray_paints_its_path_red() {
    let maze = grid(&["+++++", "+   +", "+++++"]);
    let mut fb = Framebuffer::new(250, 150);
    let player = center_player(0);
    cast_ray(&mut fb, &maze, &player, 0, 50, true);
    // The traversed world pixels along the axis are red; untouched
    // pixels keep their cleared color.
    assert_eq!(fb.buffer[75 * 250 + 80], 0xFF0000);
    assert_eq!(fb.buffer[75 * 250 + 199], 0xFF0000);
    assert_eq!(fb.buffer[10 * 250 + 10], 0);
}

#[test]
fn untraced_ray_leaves_the_surface_alone() {
    let maze = grid(&["+++", "+ +", "+++"]);
    let mut fb = Framebuffer::new(10, 10);
    fb.set_current_color(0x777777);
    let before = fb.buffer.clone();
    cast_ray(&mut fb, &maze, &center_player(1234), 1234, 50, false);
    assert_eq!(fb.buffer, before);
}
