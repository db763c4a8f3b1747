use snake_chain::chain::ChainConfig;
use snake_chain::snake::{FsmAction, FsmTailShake, FsmTailSize, Snake, SnakeConfig};
use snake_chain::vec2::Vec2;

fn two_segment_chain() -> ChainConfig {
    ChainConfig {
        radii: vec![10_000, 8_000],
        offsets: vec![0, 0],
        positions: vec![(Some(0), Some(0)), (Some(30_000), Some(0))],
        outline: Vec::new(),
    }
}

fn test_snake() -> Snake {
    let cfg = SnakeConfig {
        chain: two_segment_chain(),
        cos_vision: 866,          // cos 30°
        cos_quarter_vision: 991,  // cos 7.5°
        cos_turn: 866,            // cos 30°
        sin_turn: 500,            // sin 30°
        min_speed: 2_000,
        max_speed: 3_000,
        speed: 3_000,
    };
    Snake::new(&cfg).unwrap()
}

#[test]
fn new_snake_starts_at_rest() {
    let snake = test_snake();
    assert_eq!(snake.action, FsmAction::Reach);
    assert_eq!(snake.tail_size, FsmTailSize::Normal(30));
    assert_eq!(snake.tail_shake, FsmTailShake::Left(5));
    // the destination starts at the head, so the first tick re-targets
    assert_eq!(
        (snake.destination.x, snake.destination.y),
        (snake.chain.circles[0].position.x, snake.chain.circles[0].position.y)
    );
}

#[test]
fn new_rejects_bad_turn_sine() {
    let mut cfg = SnakeConfig {
        chain: two_segment_chain(),
        cos_vision: 866,
        cos_quarter_vision: 991,
        cos_turn: 866,
        sin_turn: 500,
        min_speed: 2_000,
        max_speed: 3_000,
        speed: 3_000,
    };
    cfg.sin_turn = 0;
    assert!(Snake::new(&cfg).is_err());
}

#[test]
fn new_rejects_unordered_speeds() {
    let mut cfg = SnakeConfig {
        chain: two_segment_chain(),
        cos_vision: 866,
        cos_quarter_vision: 991,
        cos_turn: 866,
        sin_turn: 500,
        min_speed: 2_000,
        max_speed: 3_000,
        speed: 3_000,
    };
    cfg.speed = 5_000;
    assert!(Snake::new(&cfg).is_err());
}

#[test]
fn straight_run_scenario() {
    // head at the origin heading +x, destination 100 units straight ahead,
    // vision half-angle 30°: the tick resolves Reach → GoStraight, re-aims
    // the heading, accelerates by 0.1 and advances by the new speed
    let mut snake = test_snake();
    snake.destination = Vec2::new(100_000, 0);
    snake.chain.circles[0].direction = Vec2::new(1_000, 0);
    snake.action = FsmAction::Reach;
    snake.speed = 2_500;
    assert!(snake.ready_for_tick());
    snake.update();
    assert_eq!(snake.action, FsmAction::GoStraight);
    assert_eq!(snake.speed, 2_600);
    let head = &snake.chain.circles[0];
    assert_eq!((head.position.x, head.position.y), (2_600, 0));
    assert_eq!((head.direction.x, head.direction.y), (1_000, 0));
}

#[test]
fn straight_run_caps_speed_at_maximum() {
    let mut snake = test_snake();
    snake.destination = Vec2::new(100_000, 0);
    snake.chain.circles[0].direction = Vec2::new(1_000, 0);
    snake.action = FsmAction::Reach;
    snake.speed = 3_000;
    snake.update();
    assert_eq!(snake.speed, 3_000);
}

#[test]
fn reach_retargets_when_close() {
    // the destination sits within the head's radius plus the reach margin,
    // so Reach falls through Target and a fresh random destination is drawn
    let mut snake = test_snake();
    snake.destination = Vec2::new(5_000, 0);
    snake.chain.circles[0].direction = Vec2::new(1_000, 0);
    snake.action = FsmAction::Reach;
    snake.update();
    assert!(-400_000 <= snake.destination.x && snake.destination.x < 400_000);
    assert!(-300_000 <= snake.destination.y && snake.destination.y < 300_000);
}

#[test]
fn sideways_destination_turns_right() {
    // destination 90° off the heading, outside the vision cone, outside
    // both blind-spot circles: Look → Spiral → Orient → TurnRight, losing
    // 0.05 of speed and rotating the heading by the turn rotor
    let mut snake = test_snake();
    snake.destination = Vec2::new(0, 100_000);
    snake.chain.circles[0].direction = Vec2::new(1_000, 0);
    snake.action = FsmAction::Look;
    snake.update();
    assert_eq!(snake.action, FsmAction::TurnRight);
    assert_eq!(snake.speed, 2_950);
    let head = &snake.chain.circles[0];
    // heading rotated by (cos 30°, sin 30°) and advanced by the speed
    assert_eq!((head.direction.x, head.direction.y), (866, 500));
    assert_eq!((head.position.x, head.position.y), (2_554, 1_475));
}

#[test]
fn sideways_destination_turns_left() {
    let mut snake = test_snake();
    snake.destination = Vec2::new(0, -100_000);
    snake.chain.circles[0].direction = Vec2::new(1_000, 0);
    snake.action = FsmAction::Look;
    snake.update();
    assert_eq!(snake.action, FsmAction::TurnLeft);
    let head = &snake.chain.circles[0];
    assert_eq!((head.direction.x, head.direction.y), (866, -500));
}

#[test]
fn blind_spot_pushes_forward() {
    // with a tiny turn angle the minimum turning circles are huge, so a
    // sideways destination falls inside one and the snake pushes straight
    let cfg = SnakeConfig {
        chain: two_segment_chain(),
        cos_vision: 866,
        cos_quarter_vision: 991,
        cos_turn: 999,
        sin_turn: 31,  // sin(π/100)
        min_speed: 3_000,
        max_speed: 12_000,
        speed: 3_000,
    };
    let mut snake = Snake::new(&cfg).unwrap();
    snake.destination = Vec2::new(0, 100_000);
    snake.chain.circles[0].direction = Vec2::new(1_000, 0);
    snake.action = FsmAction::Look;
    snake.update();
    assert_eq!(snake.action, FsmAction::Forward(30));
    assert_eq!(snake.speed, 3_100);
}

#[test]
fn forward_counts_down_without_turning() {
    let mut snake = test_snake();
    snake.destination = Vec2::new(0, 100_000);
    snake.chain.circles[0].direction = Vec2::new(1_000, 0);
    snake.action = FsmAction::Forward(7);
    snake.speed = 2_000;
    snake.update();
    assert_eq!(snake.action, FsmAction::Forward(6));
    assert_eq!(snake.speed, 2_100);
    let head = &snake.chain.circles[0];
    assert_eq!((head.direction.x, head.direction.y), (1_000, 0));
}

#[test]
fn turn_left_keeps_turning_until_aligned() {
    // after a left turn the machine looks again; the destination is still
    // far outside a quarter of the vision cone, so it turns left again
    let mut snake = test_snake();
    snake.destination = Vec2::new(0, -100_000);
    snake.chain.circles[0].direction = Vec2::new(1_000, 0);
    snake.action = FsmAction::TurnLeft;
    snake.update();
    assert_eq!(snake.action, FsmAction::TurnLeft);
    let head = &snake.chain.circles[0];
    assert_eq!((head.direction.x, head.direction.y), (866, -500));
}

#[test]
fn look_left_goes_straight_when_aligned() {
    let mut snake = test_snake();
    snake.destination = Vec2::new(100_000, 0);
    snake.chain.circles[0].direction = Vec2::new(1_000, 0);
    snake.action = FsmAction::TurnLeft;
    snake.update();
    // LookLeft finds the destination dead ahead and settles on GoStraight
    assert_eq!(snake.action, FsmAction::GoStraight);
}

#[test]
fn is_temporary_splits_stable_from_transient() {
    assert!(!FsmAction::GoStraight.is_temporary());
    assert!(!FsmAction::Forward(3).is_temporary());
    assert!(!FsmAction::TurnLeft.is_temporary());
    assert!(!FsmAction::TurnRight.is_temporary());
    assert!(FsmAction::Target.is_temporary());
    assert!(FsmAction::Look.is_temporary());
    assert!(FsmAction::LookLeft.is_temporary());
    assert!(FsmAction::LookRight.is_temporary());
    assert!(FsmAction::Spiral.is_temporary());
    assert!(FsmAction::Orient.is_temporary());
    assert!(FsmAction::Reach.is_temporary());
}

#[test]
fn tail_size_cycle() {
    let mut snake = test_snake();
    snake.tail_size = FsmTailSize::Normal(0);
    snake.tail_size_transition();
    assert_eq!(snake.tail_size, FsmTailSize::Grow(15));
    snake.tail_size = FsmTailSize::Grow(0);
    snake.tail_size_transition();
    assert_eq!(snake.tail_size, FsmTailSize::Shrink(15));
    snake.tail_size = FsmTailSize::Shrink(0);
    snake.tail_size_transition();
    assert_eq!(snake.tail_size, FsmTailSize::Normal(30));
    snake.tail_size = FsmTailSize::Normal(7);
    snake.tail_size_transition();
    assert_eq!(snake.tail_size, FsmTailSize::Normal(6));
}

#[test]
fn tail_size_move_grows_last_two() {
    let mut snake = test_snake();
    let last = snake.chain.circles[1].radius;
    let prev = snake.chain.circles[0].radius;
    snake.tail_size = FsmTailSize::Grow(3);
    snake.tail_size_move();
    assert_eq!(snake.chain.circles[1].radius, last + 400);
    assert_eq!(snake.chain.circles[0].radius, prev + 200);
}

#[test]
fn tail_shake_cycle() {
    let mut snake = test_snake();
    snake.tail_shake = FsmTailShake::Left(0);
    snake.tail_shake_transition();
    assert_eq!(snake.tail_shake, FsmTailShake::Right(10));
    snake.tail_shake = FsmTailShake::Right(0);
    snake.tail_shake_transition();
    assert_eq!(snake.tail_shake, FsmTailShake::Left(10));
}

#[test]
fn tail_shake_nudges_sideways() {
    let mut snake = test_snake();
    // point the last segment along +x and put it at a known spot
    snake.chain.circles[1].position = Vec2::new(40_000, 0);
    snake.chain.circles[1].direction = Vec2::new(1_000, 0);
    snake.tail_shake = FsmTailShake::Right(4);
    snake.tail_shake_move();
    // right side: quarter turn (−y, x) of the heading, scaled by 0.4·radius
    let p = snake.chain.circles[1].position;
    assert_eq!((p.x, p.y), (40_000, 3_200));
    snake.tail_shake = FsmTailShake::Left(4);
    snake.tail_shake_move();
    let p = snake.chain.circles[1].position;
    assert_eq!((p.x, p.y), (40_000, 0));
}

#[test]
fn eyes_sit_on_the_second_segment() {
    let mut snake = test_snake();
    snake.chain.circles[1].position = Vec2::new(40_000, 0);
    snake.chain.circles[1].direction = Vec2::new(1_000, 0);
    // eye rotor: a quarter turn on each side, at 0.9 of the radius (8 units)
    let (left_eye, right_eye) = snake.eyes_path(0, 1_000);
    assert_eq!((left_eye.x, left_eye.y), (40_000, -7_200));
    assert_eq!((right_eye.x, right_eye.y), (40_000, 7_200));
}

#[test]
fn blind_spot_geometry_matches_turning_circle() {
    let mut snake = test_snake();
    snake.chain.circles[0].direction = Vec2::new(1_000, 0);
    let (left, right, radius) = snake.blind_spot_geometry();
    // max_speed / (2 sin 30°) + 50 units = 3 + 50 units
    assert_eq!(radius, 53_000);
    // centers sit at ±0.8·radius perpendicular to the heading
    assert_eq!((left.x, left.y), (0, -42_400));
    assert_eq!((right.x, right.y), (0, 42_400));
}

#[test]
fn preset_slick_builds_and_runs() {
    let cfg = Snake::slick_chain();
    let mut snake = Snake::new(&cfg).unwrap();
    assert_eq!(snake.chain.circles.len(), 53);
    assert_eq!(snake.chain.circles[0].radius, 30_000);
    assert_eq!(snake.chain.circles[52].radius, 28_000 - 500 * 49);
    for _ in 0..25 {
        assert!(snake.ready_for_tick());
        snake.update();
    }
}

#[test]
fn preset_chunky_builds_and_runs() {
    let cfg = Snake::chunky_chain();
    let mut snake = Snake::new(&cfg).unwrap();
    assert_eq!(snake.chain.circles.len(), 9);
    assert_eq!(snake.chain.circles[2].radius, 70_000);
    assert_eq!(snake.chain.circles[3].offset, -20_200);
    for _ in 0..25 {
        assert!(snake.ready_for_tick());
        snake.update();
    }
}

#[test]
fn scatter_stays_in_bounds() {
    let radii = vec![10_000, 9_000, 8_000];
    let placed = Snake::scatter_positions(&radii, 10, 800_000);
    assert_eq!(placed.len(), 3);
    for (i, p) in placed.iter().enumerate() {
        assert_eq!(p.0, Some((i as i64) * radii[i] * 10 + 800_000));
        let y = p.1.unwrap();
        assert!(-300_000 <= y && y < 300_000);
    }
}

#[test]
fn retargeting_tick_uses_the_supplied_draw() {
    // with the destination already reached, the tick passes the
    // re-targeting state and adopts exactly the supplied candidate
    let mut snake = test_snake();
    snake.destination = Vec2::new(5_000, 0);
    snake.chain.circles[0].direction = Vec2::new(1_000, 0);
    snake.action = FsmAction::Reach;
    snake.update_with(123_456, -78_901);
    assert_eq!((snake.destination.x, snake.destination.y), (123_456, -78_901));
}

#[test]
fn plain_tick_ignores_the_draw() {
    // a tick that never passes the re-targeting state keeps its
    // destination whatever candidate was supplied
    let mut snake = test_snake();
    snake.destination = Vec2::new(100_000, 0);
    snake.chain.circles[0].direction = Vec2::new(1_000, 0);
    snake.action = FsmAction::Reach;
    snake.update_with(123_456, -78_901);
    assert_eq!((snake.destination.x, snake.destination.y), (100_000, 0));
}
