use raymaze::controller::{InputState, process_events, MOVE_SPEED, ROTATION_SPEED};
use raymaze::maze::Maze;
use raymaze::player::Player;

fn grid(rows: &[&str]) -> Maze {
    let cells: Vec<Vec<char>> = rows.iter().map(|r| r.chars().collect()).collect();
    Maze::new(cells).expect("grid must be rectangular and enclosed")
}

fn keys() -> InputState {
    InputState {
        rotate_left: false,
        rotate_right: false,
        forward: false,
        backward: false,
        strafe_left: false,
        strafe_right: false,
    }
}

#[test]
fn rotation_turns_the_heading_and_wraps() {
    let maze = grid(&["+++", "+ +", "+++"]);
    let mut p = Player { x: 75_000, y: 75_000, a: 0, fov: 600 };
    let mut input = keys();
    input.rotate_right = true;
    process_events(&mut p, &input, &maze, 50);
    assert_eq!(p.a, ROTATION_SPEED);
    let mut left = keys();
    left.rotate_left = true;
    process_events(&mut p, &left, &maze, 50);
    process_events(&mut p, &left, &maze, 50);
    assert_eq!(p.a, 3600 - ROTATION_SPEED);
}

#[test]
fn forward_walk_moves_by_the_move_speed() {
    let maze = grid(&["+++++", "+   +", "+++++"]);
    let mut p = Player { x: 75_000, y: 75_000, a: 0, fov: 600 };
    let mut input = keys();
    input.forward = true;
    process_events(&mut p, &input, &maze, 50);
    // Heading east: one tick moves the full speed in x alone.
    assert_eq!(p.x, 75_000 + MOVE_SPEED * 1000);
    assert_eq!(p.y, 75_000);
}

#[test]
fn blocked_move_keeps_the_position() {
    let maze = grid(&["+++", "+ +", "+++"]);
    // One step short of the east wall band.
    let mut p = Player { x: 99_000, y: 75_000, a: 0, fov: 600 };
    let mut input = keys();
    input.forward = true;
    process_events(&mut p, &input, &maze, 50);
    assert_eq!(p.x, 99_000, "a move into a wall must not commit");
    assert_eq!(p.y, 75_000);
}

#[test]
fn strafing_moves_perpendicular_to_the_heading() {
    let maze = grid(&["+++++", "+   +", "+   +", "+   +", "+++++"]);
    let mut p = Player { x: 125_000, y: 125_000, a: 0, fov: 600 };
    let mut input = keys();
    input.strafe_right = true;
    process_events(&mut p, &input, &maze, 50);
    assert_eq!(p.x, 125_000);
    assert_eq!(p.y, 125_000 - MOVE_SPEED * 1000);
}
