//! A single point mass: current position, previous position and the force
//! accumulator, advanced by Verlet integration.

use crate::math::{accel_term, clip, clip_to_coord, in_range, triangle, COORD_LIMIT};
use crate::math::lemma_segment_in_interval;
use crate::vec2::Vec2;
use vstd::prelude::*;

verus! {

/// A particle's kinematic state. Velocity is not stored: it is implicit in
/// `position_current - position_old`, the displacement of the last
/// integration step.
#[derive(Clone, Copy, Debug, PartialEq, Eq, Structural)]
pub struct VerletObject {
    pub position_current: Vec2,
    pub position_old: Vec2,
    pub acceleration: Vec2,
}

impl VerletObject {
    /// All stored coordinates lie in the saturation range.
    pub open spec fn wf(self) -> bool {
        &&& self.position_current.in_coord_range()
        &&& self.position_old.in_coord_range()
        &&& self.acceleration.in_coord_range()
    }

    /// The particle a spawn produces: at rest at `position` (saturated into
    /// the coordinate range), with an empty force accumulator.
    pub open spec fn spawn_spec(position: Vec2) -> VerletObject {
        let p = Vec2 { x: clip(position.x as int) as i64, y: clip(position.y as int) as i64 };
        VerletObject { position_current: p, position_old: p, acceleration: Vec2 { x: 0, y: 0 } }
    }

    pub fn new(position: Vec2) -> (r: VerletObject)
        ensures
            r == VerletObject::spawn_spec(position),
            r.wf(),
    {
        let p = Vec2 {
            x: clip_to_coord(position.x as i128),
            y: clip_to_coord(position.y as i128),
        };
        VerletObject { position_current: p, position_old: p, acceleration: Vec2 { x: 0, y: 0 } }
    }

    /// The state after adding `delta` into the force accumulator. Positions
    /// are untouched; the sum saturates into the coordinate range.
    pub open spec fn accelerate_spec(self, delta: Vec2) -> VerletObject {
        VerletObject {
            position_current: self.position_current,
            position_old: self.position_old,
            acceleration: Vec2 {
                x: clip(self.acceleration.x + delta.x) as i64,
                y: clip(self.acceleration.y + delta.y) as i64,
            },
        }
    }

    pub fn accelerate(&mut self, acceleration: Vec2)
        ensures
            *final(self) == old(self).accelerate_spec(acceleration),
            final(self).acceleration.in_coord_range(),
            old(self).wf() ==> final(self).wf(),
    {
        self.acceleration = Vec2 {
            x: clip_to_coord(self.acceleration.x as i128 + acceleration.x as i128),
            y: clip_to_coord(self.acceleration.y as i128 + acceleration.y as i128),
        };
    }

    /// The state after one Verlet integration step of length `dt`: the new
    /// position is the old one advanced by the implicit velocity plus
    /// `acceleration * dt * dt` (saturated), the position history shifts,
    /// and the force accumulator is reset to zero.
    pub open spec fn integrate_spec(self, dt: int) -> VerletObject {
        let vx = self.position_current.x - self.position_old.x;
        let vy = self.position_current.y - self.position_old.y;
        VerletObject {
            position_current: Vec2 {
                x: clip(self.position_current.x + vx + self.acceleration.x * dt * dt) as i64,
                y: clip(self.position_current.y + vy + self.acceleration.y * dt * dt) as i64,
            },
            position_old: self.position_current,
            acceleration: Vec2 { x: 0, y: 0 },
        }
    }

    pub fn update_position(&mut self, dt: i64)
        requires
            0 <= dt <= COORD_LIMIT,
            old(self).acceleration.in_coord_range(),
        ensures
            *final(self) == old(self).integrate_spec(dt as int),
            old(self).position_current.in_coord_range() ==> final(self).wf(),
    {
        let ax = accel_term(self.acceleration.x, dt);
        let ay = accel_term(self.acceleration.y, dt);
        let cx = self.position_current.x as i128;
        let cy = self.position_current.y as i128;
        let nx = clip_to_coord(cx + (cx - self.position_old.x as i128) + ax);
        let ny = clip_to_coord(cy + (cy - self.position_old.y as i128) + ay);
        self.position_old = self.position_current;
        self.position_current = Vec2 { x: nx, y: ny };
        self.acceleration = Vec2 { x: 0, y: 0 };
    }

    pub fn get_position(&self) -> (r: Vec2)
        ensures
            r == self.position_current,
    {
        self.position_current
    }
}

/// Every particle of the collection has its coordinates in the saturation
/// range.
pub open spec fn all_wf(s: Seq<VerletObject>) -> bool {
    forall|i: int| 0 <= i < s.len() ==> (#[trigger] s[i]).wf()
}

/// Uniform motion is preserved: with an empty force accumulator and no
/// saturation, one integration step advances the position by exactly the
/// implicit velocity, and the implicit velocity is unchanged.
pub proof fn lemma_integrate_uniform_motion(p: VerletObject, dt: int)
    requires
        p.acceleration == (Vec2 { x: 0i64, y: 0i64 }),
        0 <= dt,
        in_range(2 * p.position_current.x - p.position_old.x),
        in_range(2 * p.position_current.y - p.position_old.y),
    ensures
        p.integrate_spec(dt).position_current.x - p.integrate_spec(dt).position_old.x
            == p.position_current.x - p.position_old.x,
        p.integrate_spec(dt).position_current.y - p.integrate_spec(dt).position_old.y
            == p.position_current.y - p.position_old.y,
        p.integrate_spec(dt).position_current.x
            == p.position_current.x + (p.position_current.x - p.position_old.x),
        p.integrate_spec(dt).position_current.y
            == p.position_current.y + (p.position_current.y - p.position_old.y),
{
    assert(0 * dt * dt == 0) by (nonlinear_arith);
}

/// The force accumulator is linear: accumulating `g1` then `g2` and
/// integrating gives the same state as accumulating `g1 + g2` once and
/// integrating, as long as no sum saturates.
pub proof fn lemma_accelerate_linear(p: VerletObject, g1: Vec2, g2: Vec2, dt: int)
    requires
        in_range(p.acceleration.x + g1.x),
        in_range(p.acceleration.y + g1.y),
        in_range(p.acceleration.x + g1.x + g2.x),
        in_range(p.acceleration.y + g1.y + g2.y),
        in_range(g1.x + g2.x),
        in_range(g1.y + g2.y),
    ensures
        p.accelerate_spec(g1).accelerate_spec(g2).integrate_spec(dt) == p.accelerate_spec(
            Vec2 { x: (g1.x + g2.x) as i64, y: (g1.y + g2.y) as i64 },
        ).integrate_spec(dt),
{
}

/// Integration always leaves the force accumulator at exactly zero, no
/// matter what was accumulated before.
pub proof fn lemma_integrate_resets_acceleration(p: VerletObject, dt: int)
    ensures
        p.integrate_spec(dt).acceleration == (Vec2 { x: 0i64, y: 0i64 }),
{
}

/// `k` gravity-only sub-steps of length `dt`: each accumulates `g` and then
/// integrates.
pub open spec fn free_fall_spec(p: VerletObject, g: Vec2, dt: int, k: nat) -> VerletObject
    decreases k,
{
    if k == 0 {
        p
    } else {
        free_fall_spec(p, g, dt, (k - 1) as nat).accelerate_spec(g).integrate_spec(dt)
    }
}

/// The closed form of gravity-only free fall from rest: after `k` sub-steps
/// the position has moved by `triangle(k) * g * dt * dt` on each axis and
/// the implicit velocity is `k * g * dt * dt`, as long as no step saturates.
pub proof fn lemma_free_fall_from_rest(p: VerletObject, g: Vec2, dt: int, k: nat)
    requires
        p.position_current == p.position_old,
        p.acceleration == (Vec2 { x: 0i64, y: 0i64 }),
        g.in_coord_range(),
        p.position_current.in_coord_range(),
        0 <= dt <= COORD_LIMIT as int,
        in_range(p.position_current.x + triangle(k) * (g.x * dt * dt)),
        in_range(p.position_current.y + triangle(k) * (g.y * dt * dt)),
    ensures
        free_fall_spec(p, g, dt, k).position_current.x == p.position_current.x + triangle(k) * (
        g.x * dt * dt),
        free_fall_spec(p, g, dt, k).position_current.y == p.position_current.y + triangle(k) * (
        g.y * dt * dt),
        free_fall_spec(p, g, dt, k).position_current.x - free_fall_spec(p, g, dt, k).position_old.x
            == k * (g.x * dt * dt),
        free_fall_spec(p, g, dt, k).position_current.y - free_fall_spec(p, g, dt, k).position_old.y
            == k * (g.y * dt * dt),
        free_fall_spec(p, g, dt, k).acceleration == (Vec2 { x: 0i64, y: 0i64 }),
    decreases k,
{
    let ax = g.x * dt * dt;
    let ay = g.y * dt * dt;
    let c = p.position_current;
    if k == 0 {
        assert(triangle(k) * ax == 0) by (nonlinear_arith)
            requires
                triangle(k) == 0,
        ;
        assert(triangle(k) * ay == 0) by (nonlinear_arith)
            requires
                triangle(k) == 0,
        ;
        assert(k * ax == 0) by (nonlinear_arith)
            requires
                k == 0,
        ;
        assert(k * ay == 0) by (nonlinear_arith)
            requires
                k == 0,
        ;
    } else {
        let km = (k - 1) as nat;
        assert(triangle(k) == k + triangle(km));
        lemma_segment_in_interval(
            -(COORD_LIMIT as int),
            COORD_LIMIT as int,
            c.x as int,
            ax,
            triangle(km) as int,
            triangle(k) as int,
        );
        lemma_segment_in_interval(
            -(COORD_LIMIT as int),
            COORD_LIMIT as int,
            c.y as int,
            ay,
            triangle(km) as int,
            triangle(k) as int,
        );
        lemma_free_fall_from_rest(p, g, dt, km);
        let q = free_fall_spec(p, g, dt, km);
        let s = q.accelerate_spec(g).integrate_spec(dt);
        assert(free_fall_spec(p, g, dt, k) == s);
        // One more step from the closed form at k - 1.
        assert(triangle(km) * ax + km * ax + ax == triangle(k) * ax) by (nonlinear_arith)
            requires
                triangle(k) == km + 1 + triangle(km),
        ;
        assert(triangle(km) * ay + km * ay + ay == triangle(k) * ay) by (nonlinear_arith)
            requires
                triangle(k) == km + 1 + triangle(km),
        ;
        assert(triangle(k) * ax - triangle(km) * ax == k * ax) by (nonlinear_arith)
            requires
                triangle(k) == km + 1 + triangle(km),
                k == km + 1,
        ;
        assert(triangle(k) * ay - triangle(km) * ay == k * ay) by (nonlinear_arith)
            requires
                triangle(k) == km + 1 + triangle(km),
                k == km + 1,
        ;
    }
}

/// Sub-step invariance on the inputs where it holds: a particle at rest
/// under zero gravity is left exactly where it is by any number of
/// sub-steps, whatever their length.
pub proof fn lemma_substeps_at_rest(p: VerletObject, dt: int, k: nat)
    requires
        p.position_current == p.position_old,
        p.acceleration == (Vec2 { x: 0i64, y: 0i64 }),
        p.position_current.in_coord_range(),
        0 <= dt <= COORD_LIMIT as int,
    ensures
        free_fall_spec(p, Vec2 { x: 0i64, y: 0i64 }, dt, k) == p,
{
    let g = Vec2 { x: 0i64, y: 0i64 };
    assert(triangle(k) * (0 * dt * dt) == 0) by (nonlinear_arith);
    assert(k * (0 * dt * dt) == 0) by (nonlinear_arith);
    lemma_free_fall_from_rest(p, g, dt, k);
    let q = free_fall_spec(p, g, dt, k);
    assert(q.position_current.x == p.position_current.x);
    assert(q.position_current.y == p.position_current.y);
    assert(q.position_old.x == p.position_old.x);
    assert(q.position_old.y == p.position_old.y);
}

} // verus!
