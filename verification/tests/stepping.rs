use verlet::{BoundaryPolicy, Solver, Vec2, VerletObject};

fn big_box() -> BoundaryPolicy {
    BoundaryPolicy::Rect { width: 1_000_000, height: 1_000_000 }
}

#[test]
fn solver_default_configuration() {
    let s = Solver::new();
    assert_eq!(s.gravity, Vec2::new(0, 1000));
    assert_eq!(s.radius, 3);
}

#[test]
fn zero_substeps_is_a_noop() {
    let mut solver = Solver::new();
    let mut objects = vec![VerletObject::new(Vec2::new(500, 500))];
    let before = objects.clone();
    solver.update(&mut objects, 16, 0, big_box());
    assert_eq!(objects[0].position_current, before[0].position_current);
    assert_eq!(objects[0].position_old, before[0].position_old);
    assert_eq!(objects[0].acceleration, before[0].acceleration);
}

#[test]
fn free_fall_matches_closed_form() {
    // One particle at rest, gravity (0, 10), frame of 6 split into 3
    // sub-steps of 2: the displacement is (1 + 2 + 3) * 10 * 2 * 2 = 240
    // and the implicit velocity 3 * 10 * 2 * 2 = 120.
    let mut solver = Solver::new_with(Vec2::new(0, 10), 0);
    let mut objects = vec![VerletObject::new(Vec2::new(500, 500))];
    solver.update(&mut objects, 6, 3, big_box());
    assert_eq!(objects[0].position_current, Vec2::new(500, 740));
    assert_eq!(objects[0].position_old, Vec2::new(500, 620));
}

#[test]
fn update_agrees_with_manual_phases() {
    let mut solver = Solver::new_with(Vec2::new(7, 10), 2);
    let mut via_update = vec![
        VerletObject::new(Vec2::new(300, 300)),
        VerletObject::new(Vec2::new(301, 300)),
    ];
    let mut manual = via_update.clone();
    solver.update(&mut via_update, 4, 2, big_box());
    for _ in 0..2 {
        Solver::apply_gravity(&mut manual, &Vec2::new(7, 10));
        Solver::apply_constraints(&mut manual, big_box(), 2);
        Solver::solve_collisions(&mut manual, 2);
        Solver::update_positions(&mut manual, 2);
    }
    assert_eq!(via_update, manual);
}

#[test]
fn substep_count_does_not_move_a_resting_particle() {
    // Sub-step invariance where it holds: no gravity, at rest, inside the
    // boundary. Any sub-step split leaves the particle exactly in place.
    for substeps in [1u32, 2, 7, 32] {
        let mut solver = Solver::new_with(Vec2::new(0, 0), 3);
        let mut objects = vec![VerletObject::new(Vec2::new(500, 500))];
        solver.update(&mut objects, 16, substeps, big_box());
        assert_eq!(objects[0].position_current, Vec2::new(500, 500));
        assert_eq!(objects[0].position_old, Vec2::new(500, 500));
    }
}

#[test]
fn full_pipeline_one_substep() {
    // Two coincident resting particles under gravity in a box: the
    // collision pass separates them along x, then integration applies the
    // new implicit velocity and the gravity term.
    let mut solver = Solver::new();
    let mut objects = vec![
        VerletObject::new(Vec2::new(50, 50)),
        VerletObject::new(Vec2::new(50, 50)),
    ];
    solver.update(&mut objects, 1, 1, BoundaryPolicy::Rect { width: 200, height: 200 });
    assert_eq!(objects[0].position_current, Vec2::new(56, 1050));
    assert_eq!(objects[0].position_old, Vec2::new(53, 50));
    assert_eq!(objects[1].position_current, Vec2::new(44, 1050));
    assert_eq!(objects[1].position_old, Vec2::new(47, 50));
}

#[test]
fn update_with_circular_boundary() {
    // A particle at the circle's center: contained, so one sub-step is
    // pure gravity integration.
    let mut solver = Solver::new_with(Vec2::new(0, 10), 3);
    let boundary = BoundaryPolicy::Circle { center: Vec2::new(500, 500), radius: 400 };
    let mut objects = vec![VerletObject::new(Vec2::new(500, 500))];
    solver.update(&mut objects, 1, 1, boundary);
    assert_eq!(objects[0].position_current, Vec2::new(500, 510));
    assert_eq!(objects[0].position_old, Vec2::new(500, 500));
}

#[test]
fn update_clamps_escaped_particle_radially() {
    // A particle parked outside the containment circle with no gravity:
    // the first sub-step pulls it back onto the circle of radius 97, and
    // integration then applies the correction as velocity.
    let mut solver = Solver::new_with(Vec2::new(0, 0), 3);
    let boundary = BoundaryPolicy::Circle { center: Vec2::new(0, 0), radius: 100 };
    let mut objects = vec![VerletObject::new(Vec2::new(200, 0))];
    solver.update(&mut objects, 1, 1, boundary);
    // clamped from (200, 0) to (97, 0), then integrated with the implicit
    // velocity 97 - 200 = -103
    assert_eq!(objects[0].position_old, Vec2::new(97, 0));
    assert_eq!(objects[0].position_current, Vec2::new(-6, 0));
}

#[test]
fn gravity_phase_touches_only_the_accumulator() {
    let mut objects = vec![VerletObject::new(Vec2::new(1, 2))];
    Solver::apply_gravity(&mut objects, &Vec2::new(0, 1000));
    assert_eq!(objects[0].position_current, Vec2::new(1, 2));
    assert_eq!(objects[0].position_old, Vec2::new(1, 2));
    assert_eq!(objects[0].acceleration, Vec2::new(0, 1000));
}

#[test]
fn update_rounds_the_substep_length_down() {
    // dt = 7 over 2 sub-steps gives sub-steps of length 3.
    let mut solver = Solver::new_with(Vec2::new(0, 1), 0);
    let mut objects = vec![VerletObject::new(Vec2::new(500, 500))];
    solver.update(&mut objects, 7, 2, big_box());
    // closed form: (1 + 2) * 1 * 3 * 3 = 27
    assert_eq!(objects[0].position_current, Vec2::new(500, 527));
}
