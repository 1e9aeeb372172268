use raymaze::trig::{sin_fp, cos_fp, atan2_fp, isqrt, dist_fp, norm_angle, FP, TURN};

#[test]
fn sine_hits_the_cardinal_points_exactly() {
    assert_eq!(sin_fp(0), 0);
    assert_eq!(sin_fp(900), FP);
    assert_eq!(sin_fp(1800), 0);
    assert_eq!(sin_fp(2700), -FP);
    assert_eq!(cos_fp(0), FP);
    assert_eq!(cos_fp(900), 0);
    assert_eq!(cos_fp(1800), -FP);
    assert_eq!(cos_fp(2700), 0);
}

#[test]
fn sine_of_an_eighth_turn_is_near_the_true_value() {
    // sin 45 degrees is about 0.7071; the rational arc gives 0.705.
    assert_eq!(sin_fp(450), 705);
    assert_eq!(cos_fp(450), 705);
}

#[test]
fn sine_stays_within_one_unit_and_matches_its_sign() {
    for a in 0..TURN {
        let s = sin_fp(a);
        assert!(-FP <= s && s <= FP);
        if a > 0 && a < 1800 {
            assert!(s >= 1, "sin({}) = {}", a, s);
        }
        if a > 1800 && a < 3600 {
            assert!(s <= -1, "sin({}) = {}", a, s);
        }
    }
}

#[test]
fn angles_normalize_into_one_turn() {
    assert_eq!(norm_angle(-120), 3480);
    assert_eq!(norm_angle(0), 0);
    assert_eq!(norm_angle(3599), 3599);
    assert_eq!(norm_angle(3600), 0);
    assert_eq!(norm_angle(4000), 400);
}

#[test]
fn arc_tangent_finds_the_cardinal_directions() {
    assert_eq!(atan2_fp(0, 1000), 0);
    assert_eq!(atan2_fp(1000, 0), 900);
    assert_eq!(atan2_fp(0, -1000), 1800);
    assert_eq!(atan2_fp(-1000, 0), 2700);
    assert_eq!(atan2_fp(0, 0), 0);
}

#[test]
fn arc_tangent_finds_the_diagonal() {
    assert_eq!(atan2_fp(1000, 1000), 450);
    assert_eq!(atan2_fp(1000, -1000), 1350);
    assert_eq!(atan2_fp(-1000, -1000), 2250);
    assert_eq!(atan2_fp(-1000, 1000), 3150);
}

#[test]
fn integer_square_root_rounds_down() {
    assert_eq!(isqrt(0), 0);
    assert_eq!(isqrt(1), 1);
    assert_eq!(isqrt(15), 3);
    assert_eq!(isqrt(16), 4);
    assert_eq!(isqrt(1_000_000), 1000);
    assert_eq!(isqrt(u64::MAX), 4294967295);
}

#[test]
fn vector_length_matches_the_classic_triangle() {
    assert_eq!(dist_fp(300, 400), 500);
    assert_eq!(dist_fp(-300, 400), 500);
    assert_eq!(dist_fp(0, 0), 0);
    assert_eq!(dist_fp(1000, 0), 1000);
}
