use raymaze::enemy::Enemy;
use raymaze::ghostmanager::{GhostManager, spawn_enemies, first_open_cell,
    RESPAWN_INTERVAL_MS};
use raymaze::maze::Maze;

fn grid(rows: &[&str]) -> Maze {
    let cells: Vec<Vec<char>> = rows.iter().map(|r| r.chars().collect()).collect();
    Maze::new(cells).expect("grid must be rectangular and enclosed")
}

fn open_at_position(maze: &Maze, x: i64, y: i64, block_size: usize) -> bool {
    if x < 0 || y < 0 {
        return false;
    }
    let i = (x / 1000) as usize / block_size;
    let j = (y / 1000) as usize / block_size;
    i < maze.cells[0].len() && j < maze.cells.len() && maze.cells[j][i] == ' '
}

#[test]
fn timer_short_of_the_interval_moves_nobody() {
    let maze = grid(&["++++", "+  +", "++++"]);
    let mut gm = GhostManager::new();
    let mut enemies = vec![Enemy::new(75_000, 75_000), Enemy::new(125_000, 75_000)];
    gm.update_ghosts(RESPAWN_INTERVAL_MS - 1, 75_000, 75_000, &maze, &mut enemies, 50);
    assert_eq!(gm.elapsed_ms, RESPAWN_INTERVAL_MS - 1);
    assert_eq!(enemies.len(), 2);
    assert_eq!((enemies[0].x, enemies[0].y), (75_000, 75_000));
    assert_eq!((enemies[1].x, enemies[1].y), (125_000, 75_000));
}

#[test]
fn expired_timer_restarts_and_leaves_ghosts_on_open_cells_or_in_place() {
    let maze = grid(&[
        "++++++++++++",
        "+          +",
        "+          +",
        "+          +",
        "++++++++++++",
    ]);
    let mut gm = GhostManager::new();
    let mut enemies = vec![Enemy::new(75_000, 75_000), Enemy::new(125_000, 125_000)];
    let old: Vec<(i64, i64)> = enemies.iter().map(|e| (e.x, e.y)).collect();
    gm.update_ghosts(RESPAWN_INTERVAL_MS, 100_000, 100_000, &maze, &mut enemies, 50);
    assert_eq!(gm.elapsed_ms, 0);
    assert_eq!(enemies.len(), 2);
    for (k, e) in enemies.iter().enumerate() {
        let kept = (e.x, e.y) == old[k];
        assert!(kept || open_at_position(&maze, e.x, e.y, 50),
            "ghost {} at ({}, {})", k, e.x, e.y);
    }
}

#[test]
fn spawned_ghosts_stand_on_open_cells_or_at_the_viewpoint() {
    let maze = grid(&[
        "++++++++",
        "+      +",
        "+ ++++ +",
        "+      +",
        "++++++++",
    ]);
    let enemies = spawn_enemies(&maze, 5, 75_000, 75_000, 50);
    assert_eq!(enemies.len(), 5);
    for e in enemies.iter() {
        let at_viewpoint = (e.x, e.y) == (75_000, 75_000);
        assert!(at_viewpoint || open_at_position(&maze, e.x, e.y, 50),
            "ghost at ({}, {})", e.x, e.y);
    }
}

#[test]
fn all_wall_grid_spawns_fall_back_to_the_viewpoint() {
    let maze = grid(&["+++", "+++", "+++"]);
    let enemies = spawn_enemies(&maze, 3, 75_000, 75_000, 50);
    assert_eq!(enemies.len(), 3);
    for e in enemies.iter() {
        assert_eq!((e.x, e.y), (75_000, 75_000));
    }
}

#[test]
fn first_open_cell_scans_in_row_major_order() {
    let maze = grid(&["++++", "+ ++", "++++"]);
    assert_eq!(first_open_cell(&maze), Some((1, 1)));
    let walls = grid(&["++", "++"]);
    assert_eq!(first_open_cell(&walls), None);
}
