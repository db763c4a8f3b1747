use snake_chain::chain::{Chain, Orientation};
use snake_chain::vec2::Vec2;

#[test]
fn vector_length_three_four_five() {
    // a 3-4-5 triangle in milli-units: length is exact
    let v = Vec2::new(3_000, 4_000);
    assert_eq!(Chain::vector_length(&v), 5_000);
}

#[test]
fn vector_length_rounds_down() {
    // |(1000, 1000)| = 1414.21…, so the fixed-point length is 1414
    let v = Vec2::new(1_000, 1_000);
    assert_eq!(Chain::vector_length(&v), 1_414);
}

#[test]
fn rotate_quarter_turn_is_exact() {
    let v = Vec2::new(123, 456);
    let r = Chain::rotate_vector(&v, 0, 1_000);
    assert_eq!((r.x, r.y), (-456, 123));
    let back = Chain::rotate_vector(&r, 0, -1_000);
    assert_eq!((back.x, back.y), (123, 456));
}

#[test]
fn rotate_sixty_degrees() {
    // rotor (cos 60°, sin 60°) ≈ (500, 866) applied to a unit vector
    let v = Vec2::new(1_000, 0);
    let r = Chain::rotate_vector(&v, 500, 866);
    assert_eq!((r.x, r.y), (500, 866));
}

#[test]
fn rotation_round_trip_small_error() {
    // a non-axis rotor loses at most the truncation in each coordinate
    let v = Vec2::new(10_000, -7_000);
    let there = Chain::rotate_vector(&v, 866, 500);
    let back = Chain::rotate_vector(&there, 866, -500);
    assert!((back.x - v.x).abs() <= 20);
    assert!((back.y - v.y).abs() <= 20);
}

#[test]
fn orientation_documented_example() {
    // for a=(0,0), b=(1,0), c=(0,1) the documented value is RIGHT
    // (positive cross product under the screen's y-down convention)
    let a = Vec2::new(0, 0);
    let b = Vec2::new(1_000, 0);
    let c = Vec2::new(0, 1_000);
    assert_eq!(Chain::orientation_test(&a, &b, &c), Orientation::RIGHT);
}

#[test]
fn orientation_left() {
    let a = Vec2::new(0, 0);
    let b = Vec2::new(1_000, 0);
    let c = Vec2::new(0, -1_000);
    assert_eq!(Chain::orientation_test(&a, &b, &c), Orientation::LEFT);
}

#[test]
fn orientation_collinear_is_center() {
    let a = Vec2::new(0, 0);
    let b = Vec2::new(2_000, 2_000);
    let c = Vec2::new(5_000, 5_000);
    assert_eq!(Chain::orientation_test(&a, &b, &c), Orientation::CENTER);
}

#[test]
fn angle_within_cone() {
    // 45° between the vectors: inside a 60° cone, outside a 30° cone
    let heading = Vec2::new(1_000, 0);
    let to_dest = Vec2::new(1_000, 1_000);
    assert!(Chain::angle_within(&heading, &to_dest, 500));
    assert!(!Chain::angle_within(&heading, &to_dest, 866));
}

#[test]
fn angle_with_zero_vector_is_never_within() {
    let heading = Vec2::new(0, 0);
    let to_dest = Vec2::new(1_000, 0);
    assert!(!Chain::angle_within(&heading, &to_dest, -1_000));
}

#[test]
fn normalize_three_four_five() {
    let v = Vec2::new(3_000, 4_000);
    let n = v.normalized();
    assert_eq!((n.x, n.y), (600, 800));
    // normalizing a vector of exactly unit length is the identity
    let n2 = n.normalized();
    assert_eq!((n2.x, n2.y), (600, 800));
}

#[test]
fn normalize_lands_in_band() {
    // |(1000, 1000)| normalizes to (707, 707): squared norm 999698, within
    // [SCALE² − 4·SCALE, (SCALE + 1)²]
    let v = Vec2::new(1_000, 1_000);
    let n = v.normalized();
    assert_eq!((n.x, n.y), (707, 707));
    let norm_sq = n.x * n.x + n.y * n.y;
    assert!(996_000 <= norm_sq && norm_sq <= 1_002_001);
}

#[test]
fn normalize_zero_is_unchanged() {
    let v = Vec2::new(0, 0);
    let n = v.normalized();
    assert_eq!((n.x, n.y), (0, 0));
}

#[test]
fn circumcircle_of_symmetric_points() {
    // (0,0), (2000,0) and (1000,1000) lie on the circle centered at
    // (1000, 0) with radius 1000
    let a = Vec2::new(0, 0);
    let b = Vec2::new(2_000, 0);
    let c = Vec2::new(1_000, 1_000);
    let (center, radius) = Chain::circle_from_three_points(&a, &b, &c).unwrap();
    assert_eq!((center.x, center.y), (1_000, 0));
    assert_eq!(radius, 1_000);
}

#[test]
fn circumcircle_rejects_collinear_points() {
    let a = Vec2::new(0, 0);
    let b = Vec2::new(1_000, 0);
    let c = Vec2::new(2_000, 0);
    assert!(Chain::circle_from_three_points(&a, &b, &c).is_none());
}

#[test]
fn renormalization_moves_at_most_a_little() {
    // |(8000, 5980)| normalizes to (800, 598), whose squared norm falls a
    // fraction short of one unit; the second pass stretches it slightly
    let v = Vec2::new(8_000, 5_980);
    let once = v.normalized();
    assert_eq!((once.x, once.y), (800, 598));
    let twice = once.normalized();
    assert_eq!((twice.x, twice.y), (801, 599));
    assert!((twice.x - once.x).abs() <= 4 && (twice.y - once.y).abs() <= 4);
}
