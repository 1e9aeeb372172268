use raymaze::enemy::Enemy;
use raymaze::game::{GamePhase, next_phase, player_reached_end, ghost_touched_player};

#[test]
fn confirm_starts_a_session() {
    assert_eq!(next_phase(GamePhase::StartScreen, true, false, false),
        (GamePhase::Playing, false));
    assert_eq!(next_phase(GamePhase::StartScreen, false, false, false),
        (GamePhase::StartScreen, false));
}

#[test]
fn reaching_the_exit_wins_and_a_touch_loses() {
    assert_eq!(next_phase(GamePhase::Playing, false, true, false),
        (GamePhase::Victory, false));
    assert_eq!(next_phase(GamePhase::Playing, false, false, true),
        (GamePhase::Defeat, false));
    assert_eq!(next_phase(GamePhase::Playing, false, true, true),
        (GamePhase::Victory, false));
    assert_eq!(next_phase(GamePhase::Playing, true, false, false),
        (GamePhase::Playing, false));
}

#[test]
fn victory_confirm_ends_the_session_and_defeat_confirm_restarts() {
    assert_eq!(next_phase(GamePhase::Victory, true, false, false),
        (GamePhase::Victory, true));
    assert_eq!(next_phase(GamePhase::Victory, false, false, false),
        (GamePhase::Victory, false));
    assert_eq!(next_phase(GamePhase::Defeat, true, false, false),
        (GamePhase::StartScreen, false));
    assert_eq!(next_phase(GamePhase::Defeat, false, false, false),
        (GamePhase::Defeat, false));
}

#[test]
fn exit_detection_uses_its_radius() {
    assert!(player_reached_end(524_000, 573_000));
    assert!(player_reached_end(524_000 + 9_000, 573_000));
    assert!(!player_reached_end(524_000 + 10_000, 573_000));
    assert!(!player_reached_end(600_000, 573_000));
}

#[test]
fn ghost_touch_detection_uses_its_radius() {
    assert!(!ghost_touched_player(&vec![], 100_000, 200_000));
    assert!(!ghost_touched_player(&vec![Enemy::new(500_000, 500_000)], 100_000, 200_000));
    assert!(ghost_touched_player(
        &vec![Enemy::new(500_000, 500_000), Enemy::new(105_000, 200_000)],
        100_000, 200_000));
}

#[test]
fn collision_threshold_is_strict() {
    let e = Enemy::new(110_000, 200_000);
    assert!(!e.check_collision_with_player(100_000, 200_000, 10_000));
    assert!(e.check_collision_with_player(100_000, 200_000, 10_001));
}
