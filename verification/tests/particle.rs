use verlet::{Vec2, VerletObject, COORD_LIMIT};

#[test]
fn spawn_at_rest() {
    let p = VerletObject::new(Vec2::new(5, 7));
    assert_eq!(p.get_position(), Vec2::new(5, 7));
    assert_eq!(p.position_old, Vec2::new(5, 7));
    assert_eq!(p.acceleration, Vec2::new(0, 0));
}

#[test]
fn spawn_saturates_into_coordinate_range() {
    let p = VerletObject::new(Vec2::new(i64::MAX, i64::MIN));
    assert_eq!(p.get_position(), Vec2::new(COORD_LIMIT, -COORD_LIMIT));
    assert_eq!(p.position_old, p.position_current);
}

#[test]
fn integrate_preserves_uniform_motion() {
    // Implicit velocity (10, -4): the step advances by exactly that and the
    // velocity afterwards is unchanged.
    let mut p = VerletObject {
        position_current: Vec2::new(10, 0),
        position_old: Vec2::new(0, 4),
        acceleration: Vec2::new(0, 0),
    };
    p.update_position(1);
    assert_eq!(p.position_current, Vec2::new(20, -4));
    assert_eq!(p.position_old, Vec2::new(10, 0));
    let vx = p.position_current.x - p.position_old.x;
    let vy = p.position_current.y - p.position_old.y;
    assert_eq!((vx, vy), (10, -4));
}

#[test]
fn integrate_applies_acceleration_term() {
    let mut p = VerletObject::new(Vec2::new(0, 0));
    p.accelerate(Vec2::new(0, 10));
    p.update_position(2);
    // at rest, so the move is exactly a * dt * dt = 10 * 4
    assert_eq!(p.position_current, Vec2::new(0, 40));
    assert_eq!(p.position_old, Vec2::new(0, 0));
}

#[test]
fn gravity_accumulation_is_linear() {
    let mut split = VerletObject::new(Vec2::new(100, 100));
    split.accelerate(Vec2::new(1, 2));
    split.accelerate(Vec2::new(3, 4));
    split.update_position(2);

    let mut joined = VerletObject::new(Vec2::new(100, 100));
    joined.accelerate(Vec2::new(4, 6));
    joined.update_position(2);

    assert_eq!(split.position_current, joined.position_current);
    assert_eq!(split.position_old, joined.position_old);
}

#[test]
fn integrate_resets_acceleration() {
    let mut p = VerletObject::new(Vec2::new(0, 0));
    p.accelerate(Vec2::new(12345, -999));
    p.update_position(1);
    assert_eq!(p.acceleration, Vec2::new(0, 0));
}

#[test]
fn accelerate_saturates() {
    let mut p = VerletObject::new(Vec2::new(0, 0));
    p.accelerate(Vec2::new(COORD_LIMIT, -COORD_LIMIT));
    p.accelerate(Vec2::new(COORD_LIMIT, -COORD_LIMIT));
    assert_eq!(p.acceleration, Vec2::new(COORD_LIMIT, -COORD_LIMIT));
}

#[test]
fn isqrt_exact_values() {
    assert_eq!(verlet::isqrt(0), 0);
    assert_eq!(verlet::isqrt(3), 1);
    assert_eq!(verlet::isqrt(4), 2);
    assert_eq!(verlet::isqrt(15), 3);
    assert_eq!(verlet::isqrt(16), 4);
    assert_eq!(verlet::isqrt(1_000_000_000_000_000_000), 1_000_000_000);
    assert_eq!(verlet::isqrt(u128::MAX), u64::MAX);
}
