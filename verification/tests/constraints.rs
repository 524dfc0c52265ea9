use verlet::{BoundaryPolicy, Solver, Vec2, VerletObject};

fn at(x: i64, y: i64) -> VerletObject {
    VerletObject::new(Vec2::new(x, y))
}

fn positions(objects: &[VerletObject]) -> Vec<(i64, i64)> {
    objects.iter().map(|o| (o.position_current.x, o.position_current.y)).collect()
}

#[test]
fn box_clamps_to_nearest_wall() {
    let boundary = BoundaryPolicy::Rect { width: 200, height: 200 };
    let mut objects = vec![at(-5, 100), at(300, 250), at(100, 100)];
    Solver::apply_constraints(&mut objects, boundary, 3);
    // walls at 4 and 196 for radius 3 with the one-unit margin
    assert_eq!(positions(&objects), vec![(4, 100), (196, 196), (100, 100)]);
}

#[test]
fn box_leaves_history_alone() {
    let boundary = BoundaryPolicy::Rect { width: 200, height: 200 };
    let mut objects = vec![at(-5, 100)];
    let old = objects[0].position_old;
    Solver::apply_constraints(&mut objects, boundary, 3);
    assert_eq!(objects[0].position_old, old);
    assert_eq!(objects[0].acceleration, Vec2::new(0, 0));
}

#[test]
fn circle_clamps_radially() {
    let boundary = BoundaryPolicy::Circle { center: Vec2::new(0, 0), radius: 100 };
    let mut objects = vec![at(200, 0)];
    Solver::apply_constraints(&mut objects, boundary, 3);
    // pulled straight back onto the containment circle of radius 97
    assert_eq!(positions(&objects), vec![(97, 0)]);
}

#[test]
fn circle_clamp_keeps_direction() {
    let boundary = BoundaryPolicy::Circle { center: Vec2::new(0, 0), radius: 100 };
    let mut objects = vec![at(100, 100)];
    Solver::apply_constraints(&mut objects, boundary, 3);
    // |(100, 100)| floors to 141; each axis scales to 100 * 97 / 141 = 68
    assert_eq!(positions(&objects), vec![(68, 68)]);
    // still within the containment radius: 2 * 68^2 <= 97^2
    let (x, y) = (objects[0].position_current.x, objects[0].position_current.y);
    assert!(x * x + y * y <= 97 * 97);
}

#[test]
fn circle_leaves_contained_particles_alone() {
    let boundary = BoundaryPolicy::Circle { center: Vec2::new(10, 10), radius: 100 };
    let mut objects = vec![at(50, 10), at(10, 10)];
    Solver::apply_constraints(&mut objects, boundary, 3);
    // the second particle sits exactly at the center: contained, untouched
    assert_eq!(positions(&objects), vec![(50, 10), (10, 10)]);
}

#[test]
fn pair_separates_to_two_radii() {
    let mut objects = vec![at(0, 0), at(2, 0)];
    Solver::solve_collisions(&mut objects, 3);
    assert_eq!(positions(&objects), vec![(-2, 0), (4, 0)]);
    let dx = objects[0].position_current.x - objects[1].position_current.x;
    assert_eq!(dx.abs(), 6);
}

#[test]
fn pair_push_is_symmetric() {
    let mut objects = vec![at(10, 20), at(12, 23)];
    let before = positions(&objects);
    Solver::solve_collisions(&mut objects, 3);
    let after = positions(&objects);
    let move0 = (after[0].0 - before[0].0, after[0].1 - before[0].1);
    let move1 = (after[1].0 - before[1].0, after[1].1 - before[1].1);
    assert_eq!(move0.0, -move1.0);
    assert_eq!(move0.1, -move1.1);
}

#[test]
fn separated_pair_is_untouched() {
    let mut objects = vec![at(0, 0), at(10, 0)];
    Solver::solve_collisions(&mut objects, 3);
    assert_eq!(positions(&objects), vec![(0, 0), (10, 0)]);
}

#[test]
fn coincident_pair_nudged_apart_along_x() {
    let mut objects = vec![at(50, 50), at(50, 50)];
    Solver::solve_collisions(&mut objects, 3);
    assert_eq!(positions(&objects), vec![(53, 50), (47, 50)]);
    let dx = objects[0].position_current.x - objects[1].position_current.x;
    let dy = objects[0].position_current.y - objects[1].position_current.y;
    assert_eq!(dx * dx + dy * dy, 36);
}

#[test]
fn deep_diagonal_overlap_pushes_apart() {
    // Distance sqrt(2) rounds down to 1, so the push is computed against a
    // rounded distance: the pair ends up separated (never closer than it
    // started), here slightly beyond two radii.
    let mut objects = vec![at(0, 0), at(1, 1)];
    Solver::solve_collisions(&mut objects, 3);
    assert_eq!(positions(&objects), vec![(-2, -2), (3, 3)]);
    let dx = objects[0].position_current.x - objects[1].position_current.x;
    let dy = objects[0].position_current.y - objects[1].position_current.y;
    assert!(dx * dx + dy * dy >= 2);
}

#[test]
fn sweep_order_is_deterministic() {
    // (0,1) collide and push the second particle onto the third; (0,2) no
    // longer overlap; (1,2) are then exactly coincident and are nudged apart.
    let mut objects = vec![at(0, 0), at(2, 0), at(4, 0)];
    Solver::solve_collisions(&mut objects, 3);
    assert_eq!(positions(&objects), vec![(-2, 0), (7, 0), (1, 0)]);
}
