use arpg::geometry::{distance_squared, isqrt, GroundPoint, MAX_COORD};
use arpg::motion::{CharacterState, Heading, Mover, ARRIVAL_EPSILON_SQ};

fn walker(x: i64, z: i64, dest: Option<GroundPoint>, flipped: bool) -> Mover {
    let mut m = Mover::new(GroundPoint::new(x, z), Heading { x: 0, z: 1 }, flipped);
    if let Some(d) = dest {
        m.state = CharacterState::moving_to(d);
    }
    m
}

#[test]
fn isqrt_rounds_down() {
    assert_eq!(isqrt(0), 0);
    assert_eq!(isqrt(1), 1);
    assert_eq!(isqrt(3), 1);
    assert_eq!(isqrt(4), 2);
    assert_eq!(isqrt(15), 3);
    assert_eq!(isqrt(16), 4);
    assert_eq!(isqrt(25_000_000_000_000), 5_000_000);
    assert_eq!(isqrt(u64::MAX), 4_294_967_295);
}

#[test]
fn distance_squared_of_a_three_four_five_triangle() {
    let a = GroundPoint::new(-1, 2);
    let b = GroundPoint::new(2, 6);
    assert_eq!(distance_squared(&a, &b), 25);
    let far = GroundPoint::new(MAX_COORD, MAX_COORD);
    let near = GroundPoint::new(-MAX_COORD, -MAX_COORD);
    assert_eq!(distance_squared(&near, &far), 8_000_000_000_000_000_000);
}

#[test]
fn constructors_and_query() {
    assert_eq!(CharacterState::idle(), CharacterState::Idle);
    let p = GroundPoint::new(7, 8);
    assert_eq!(CharacterState::moving_to(p), CharacterState::MovingTo(p));
    assert!(CharacterState::moving_to(p).is_moving());
    assert!(!CharacterState::idle().is_moving());
}

#[test]
fn idle_mover_does_not_move() {
    let mut m = walker(5, 5, None, false);
    let before = m;
    m.advance(16_000);
    assert_eq!(m, before);
}

#[test]
fn zero_distance_click_goes_idle_without_moving() {
    let mut m = walker(1_000, -2_000, Some(GroundPoint::new(1_000, -2_000)), true);
    let before = m;
    m.advance(16_000);
    assert_eq!(m.state, CharacterState::Idle);
    assert_eq!(m.position, before.position);
    assert_eq!(m.facing, before.facing);
}

#[test]
fn within_epsilon_counts_as_arrived() {
    let mut m = walker(0, 0, Some(GroundPoint::new(1_000, 0)), false);
    m.advance(16_000);
    assert_eq!(m.state, CharacterState::Idle);
    assert_eq!(m.position, GroundPoint::new(0, 0));
}

#[test]
fn short_walk_lands_exactly() {
    let mut m = walker(0, 0, Some(GroundPoint::new(1_001, 0)), false);
    m.advance(1_000);
    assert_eq!(m.state, CharacterState::Idle);
    assert_eq!(m.position, GroundPoint::new(1_001, 0));
    assert_eq!(m.facing, Heading { x: 1_001, z: 0 });
}

#[test]
fn partial_step_has_the_walking_speed() {
    // 3 m by 4 m, a quarter of a second: one metre along the diagonal.
    let d = GroundPoint::new(3_000_000, 4_000_000);
    let mut m = walker(0, 0, Some(d), true);
    m.advance(250_000);
    assert_eq!(m.position, GroundPoint::new(600_000, 800_000));
    assert_eq!(m.state, CharacterState::MovingTo(d));
    assert_eq!(m.facing, Heading { x: -3_000_000, z: -4_000_000 });
    let mut unflipped = walker(0, 0, Some(d), false);
    unflipped.advance(250_000);
    assert_eq!(unflipped.facing, Heading { x: 3_000_000, z: 4_000_000 });
}

#[test]
fn arrives_within_the_tick_bound_and_never_overshoots() {
    let d = GroundPoint::new(3_000_000, 4_000_000);
    let mut m = walker(0, 0, Some(d), true);
    let mut ticks = 0;
    let mut last = distance_squared(&m.position, &d);
    while m.state.is_moving() {
        m.advance(250_000);
        ticks += 1;
        let now = distance_squared(&m.position, &d);
        assert!(now <= last);
        last = now;
        assert!(ticks <= 6);
    }
    assert_eq!(ticks, 5);
    assert_eq!(m.position, d);
}

#[test]
fn arrival_with_uneven_steps() {
    let d = GroundPoint::new(-1_234_567, 7_654_321);
    let mut m = walker(999_999, -3, Some(d), false);
    let mut ticks = 0;
    let mut last = distance_squared(&m.position, &d);
    while m.state.is_moving() {
        m.advance(16_667);
        ticks += 1;
        let now = distance_squared(&m.position, &d);
        assert!(now <= last);
        last = now;
    }
    // |d - p| is about 7.98 m and a step is 66.668 mm: at most 121 ticks.
    assert!(ticks <= 121);
    assert!(distance_squared(&m.position, &d) <= ARRIVAL_EPSILON_SQ);
}

#[test]
fn settling_within_epsilon_after_a_step_goes_idle() {
    let mut m = walker(0, 0, Some(GroundPoint::new(4_000_500, 0)), false);
    m.advance(1_000_000);
    assert_eq!(m.position, GroundPoint::new(4_000_000, 0));
    assert_eq!(m.state, CharacterState::Idle);
}

#[test]
fn landing_exactly_epsilon_away_goes_idle() {
    let mut m = walker(0, 0, Some(GroundPoint::new(5_000, 0)), false);
    m.advance(1_000);
    assert_eq!(m.position, GroundPoint::new(4_000, 0));
    assert_eq!(m.state, CharacterState::Idle);
}
