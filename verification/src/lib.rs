//! A constraint-based particle-physics core: Verlet integration over
//! fixed-point integer coordinates, boundary projection (circular or
//! rectangular), and brute-force pairwise collision relaxation.
//!
//! Coordinates, velocities and accelerations are plain `i64` values in
//! host-chosen units; every arithmetic result is saturated to the range
//! `[-COORD_LIMIT, COORD_LIMIT]` so that the solver is total and never
//! overflows, mirroring the way a floating-point solver avoids letting
//! infinities propagate into persistent state.

mod boundary;
mod collision;
mod math;
mod particle;
mod solver;
mod vec2;

pub use boundary::clamp_spec;
pub use boundary::constrain_particle;
pub use boundary::constrain_spec;
pub use boundary::BoundaryPolicy;
pub use collision::pass_inner;
pub use collision::pass_outer;
pub use collision::resolve_pair;
pub use collision::resolve_pair_spec;
pub use math::clip;
pub use math::in_range;
pub use math::isqrt;
pub use math::sqrt_floor;
pub use math::COORD_LIMIT;
pub use particle::all_wf;
pub use particle::VerletObject;
pub use solver::constrain_all;
pub use solver::gravitate_all;
pub use solver::integrate_all;
pub use solver::simulate_spec;
pub use solver::substep_spec;
pub use solver::Solver;
pub use vec2::dist2;
pub use vec2::Vec2;
