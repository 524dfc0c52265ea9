//! The solver: owns the simulation configuration (gravity, particle
//! radius) and advances a host-owned particle collection one frame at a
//! time, splitting the frame into equal sub-steps of gravity, boundary
//! projection, collision resolution and integration.

use crate::boundary::{constrain_particle, constrain_spec, BoundaryPolicy};
use crate::collision::{pass_inner, pass_outer, resolve_pair};
use crate::math::{lemma_segment_in_interval, triangle, COORD_LIMIT};
use crate::particle::{all_wf, free_fall_spec, lemma_free_fall_from_rest, VerletObject};
use crate::vec2::{dist2, Vec2};
use vstd::arithmetic::div_mod::lemma_fundamental_div_mod;
use vstd::prelude::*;

verus! {

/// All particles with `g` added to their force accumulators.
pub open spec fn gravitate_all(s: Seq<VerletObject>, g: Vec2) -> Seq<VerletObject> {
    s.map(|i: int, o: VerletObject| o.accelerate_spec(g))
}

/// All particles projected back into the boundary region.
pub open spec fn constrain_all(s: Seq<VerletObject>, boundary: BoundaryPolicy, r: int) -> Seq<
    VerletObject,
> {
    s.map(|i: int, o: VerletObject| constrain_spec(o, boundary, r))
}

/// All particles advanced by one integration step of length `dt`.
pub open spec fn integrate_all(s: Seq<VerletObject>, dt: int) -> Seq<VerletObject> {
    s.map(|i: int, o: VerletObject| o.integrate_spec(dt))
}

/// One sub-step: gravity, boundary projection, one collision sweep, then
/// integration, in that fixed order.
pub open spec fn substep_spec(
    s: Seq<VerletObject>,
    g: Vec2,
    boundary: BoundaryPolicy,
    r: int,
    dt: int,
) -> Seq<VerletObject> {
    integrate_all(pass_outer(constrain_all(gravitate_all(s, g), boundary, r), 0, r), dt)
}

/// `k` sub-steps in sequence.
pub open spec fn simulate_spec(
    s: Seq<VerletObject>,
    g: Vec2,
    boundary: BoundaryPolicy,
    r: int,
    dt: int,
    k: nat,
) -> Seq<VerletObject>
    decreases k,
{
    if k == 0 {
        s
    } else {
        substep_spec(simulate_spec(s, g, boundary, r, dt, (k - 1) as nat), g, boundary, r, dt)
    }
}

/// Whether a particle's current position lies inside the boundary region,
/// so that projection leaves it alone.
pub open spec fn inside_boundary(o: VerletObject, boundary: BoundaryPolicy, r: int) -> bool {
    match boundary {
        BoundaryPolicy::Rect { width, height } => {
            &&& r + 1 <= o.position_current.x <= width - r - 1
            &&& r + 1 <= o.position_current.y <= height - r - 1
        },
        BoundaryPolicy::Circle { center, radius } => dist2(
            o.position_current,
            center,
        ) <= (radius - r) * (radius - r),
    }
}

/// Sub-step invariance on the inputs where it holds: a single particle at
/// rest under zero gravity, inside the boundary, is left exactly where it
/// is by a frame, whatever the number of sub-steps; so on these inputs the
/// sub-step count does not change the trajectory.
pub proof fn lemma_simulate_at_rest(
    p: VerletObject,
    boundary: BoundaryPolicy,
    r: int,
    dt: int,
    k: nat,
)
    requires
        p.position_current == p.position_old,
        p.acceleration == (Vec2 { x: 0i64, y: 0i64 }),
        p.position_current.in_coord_range(),
        inside_boundary(p, boundary, r),
        0 <= dt,
    ensures
        simulate_spec(seq![p], Vec2 { x: 0i64, y: 0i64 }, boundary, r, dt, k) == seq![p],
    decreases k,
{
    let g = Vec2 { x: 0i64, y: 0i64 };
    if k > 0 {
        lemma_simulate_at_rest(p, boundary, r, dt, (k - 1) as nat);
        let s = seq![p];
        assert(p.accelerate_spec(g) == p);
        assert(gravitate_all(s, g) =~= s);
        assert(constrain_spec(p, boundary, r) == p);
        assert(constrain_all(s, boundary, r) =~= s);
        assert(pass_outer(s, 0, r) == pass_outer(pass_inner(s, 0, 1, r), 1, r));
        assert(pass_inner(s, 0, 1, r) == s);
        assert(pass_outer(s, 1, r) == s);
        assert(0 * dt * dt == 0) by (nonlinear_arith);
        assert(p.integrate_spec(dt) == p);
        assert(integrate_all(s, dt) =~= s);
        assert(substep_spec(s, g, boundary, r, dt) == s);
    }
}

/// Free fall through the whole pipeline: a single particle at rest whose
/// closed-form trajectory stays inside a rectangular boundary follows
/// exactly the gravity-only closed form — the boundary projection, the
/// collision sweep and the saturation never interfere. Together with
/// `lemma_free_fall_from_rest` this gives the exact position after any
/// frame split, and shows how the sub-step count enters it.
pub proof fn lemma_simulate_free_fall(
    p: VerletObject,
    g: Vec2,
    width: i64,
    height: i64,
    r: int,
    dt: int,
    k: nat,
)
    requires
        p.position_current == p.position_old,
        p.acceleration == (Vec2 { x: 0i64, y: 0i64 }),
        g.in_coord_range(),
        0 <= dt <= COORD_LIMIT as int,
        (BoundaryPolicy::Rect { width, height }).fits(r),
        r + 1 <= p.position_current.x <= width - r - 1,
        r + 1 <= p.position_current.y <= height - r - 1,
        r + 1 <= p.position_current.x + triangle(k) * (g.x * dt * dt) <= width - r
            - 1,
        r + 1 <= p.position_current.y + triangle(k) * (g.y * dt * dt) <= height - r
            - 1,
    ensures
        simulate_spec(seq![p], g, BoundaryPolicy::Rect { width, height }, r, dt, k) == seq![
            free_fall_spec(p, g, dt, k),
        ],
    decreases k,
{
    let boundary = BoundaryPolicy::Rect { width, height };
    let ax = g.x * dt * dt;
    let ay = g.y * dt * dt;
    let c = p.position_current;
    if k > 0 {
        let km = (k - 1) as nat;
        assert(triangle(k) == k + triangle(km));
        lemma_segment_in_interval(
            r + 1,
            width - r - 1,
            c.x as int,
            ax,
            triangle(km) as int,
            triangle(k) as int,
        );
        lemma_segment_in_interval(
            r + 1,
            height - r - 1,
            c.y as int,
            ay,
            triangle(km) as int,
            triangle(k) as int,
        );
        lemma_simulate_free_fall(p, g, width, height, r, dt, km);
        lemma_free_fall_from_rest(p, g, dt, km);
        let q = free_fall_spec(p, g, dt, km);
        let q1 = q.accelerate_spec(g);
        let s = seq![q];
        assert(gravitate_all(s, g) =~= seq![q1]);
        assert(q1.position_current == q.position_current);
        assert(constrain_spec(q1, boundary, r) == q1);
        assert(constrain_all(seq![q1], boundary, r) =~= seq![q1]);
        assert(pass_outer(seq![q1], 0, r) == pass_outer(
            pass_inner(seq![q1], 0, 1, r),
            1,
            r,
        ));
        assert(pass_inner(seq![q1], 0, 1, r) == seq![q1]);
        assert(pass_outer(seq![q1], 1, r) == seq![q1]);
        assert(integrate_all(seq![q1], dt) =~= seq![q1.integrate_spec(dt)]);
        assert(substep_spec(s, g, boundary, r, dt) == seq![
            free_fall_spec(p, g, dt, k),
        ]);
    }
}

/// The simulation driver. It owns only its configuration; the particle
/// collection is owned by the host and borrowed for the duration of a step.
#[derive(Clone, Copy, Debug, PartialEq, Eq, Structural)]
pub struct Solver {
    /// Constant acceleration applied to every particle every sub-step.
    pub gravity: Vec2,
    /// The radius every particle is assumed to have.
    pub radius: i64,
}

impl Solver {
    /// The radius is usable by the collision and boundary arithmetic.
    pub open spec fn wf(self) -> bool {
        0 <= self.radius <= COORD_LIMIT as int
    }

    /// The default configuration: gravity of 1000 units downward (the y
    /// axis grows downward, as on a screen), particle radius 3.
    pub fn new() -> (s: Solver)
        ensures
            s == (Solver { gravity: Vec2 { x: 0i64, y: 1000i64 }, radius: 3i64 }),
            s.wf(),
    {
        Solver { gravity: Vec2 { x: 0, y: 1000 }, radius: 3 }
    }

    /// A solver with host-chosen gravity and particle radius.
    pub fn new_with(gravity: Vec2, radius: i64) -> (s: Solver)
        requires
            0 <= radius <= COORD_LIMIT,
        ensures
            s == (Solver { gravity, radius }),
            s.wf(),
    {
        Solver { gravity, radius }
    }

    /// Add `gravity` to every particle's force accumulator. Particles are
    /// independent, so the order is immaterial.
    pub fn apply_gravity(objects: &mut Vec<VerletObject>, gravity: &Vec2)
        ensures
            final(objects)@ == gravitate_all(old(objects)@, *gravity),
            all_wf(old(objects)@) ==> all_wf(final(objects)@),
    {
        let n = objects.len();
        let mut k: usize = 0;
        while k < n
            invariant
                k <= n,
                objects@.len() == n,
                n == old(objects)@.len(),
                forall|m: int|
                    0 <= m < k ==> objects@[m] == (#[trigger] old(objects)@[m]).accelerate_spec(
                        *gravity,
                    ),
                forall|m: int| k <= m < n ==> objects@[m] == old(objects)@[m],
            decreases n - k,
        {
            let mut o = objects[k];
            o.accelerate(*gravity);
            objects[k] = o;
            k = k + 1;
        }
        proof {
            assert(objects@ =~= gravitate_all(old(objects)@, *gravity));
            assert forall|m: int| 0 <= m < n && all_wf(old(objects)@) implies (
            #[trigger] objects@[m]).wf() by {
                assert(old(objects)@[m].wf());
            }
        }
    }

    /// Integrate every particle by `dt`. Particles are independent, so the
    /// order is immaterial.
    pub fn update_positions(objects: &mut Vec<VerletObject>, dt: i64)
        requires
            0 <= dt <= COORD_LIMIT,
            all_wf(old(objects)@),
        ensures
            final(objects)@ == integrate_all(old(objects)@, dt as int),
            all_wf(final(objects)@),
    {
        let n = objects.len();
        let mut k: usize = 0;
        while k < n
            invariant
                k <= n,
                0 <= dt <= COORD_LIMIT,
                objects@.len() == n,
                n == old(objects)@.len(),
                all_wf(old(objects)@),
                forall|m: int|
                    0 <= m < k ==> objects@[m] == (#[trigger] old(objects)@[m]).integrate_spec(
                        dt as int,
                    ),
                forall|m: int| k <= m < n ==> objects@[m] == old(objects)@[m],
            decreases n - k,
        {
            let mut o = objects[k];
            proof {
                assert(old(objects)@[k as int].wf());
            }
            o.update_position(dt);
            objects[k] = o;
            k = k + 1;
        }
        proof {
            assert(objects@ =~= integrate_all(old(objects)@, dt as int));
            assert forall|m: int| 0 <= m < n implies (#[trigger] objects@[m]).wf() by {
                assert(old(objects)@[m].wf());
            }
        }
    }

    /// Project every particle back into the boundary region. Particles are
    /// independent, so the order is immaterial.
    pub fn apply_constraints(objects: &mut Vec<VerletObject>, boundary: BoundaryPolicy, radius: i64)
        requires
            boundary.fits(radius as int),
            all_wf(old(objects)@),
        ensures
            final(objects)@ == constrain_all(old(objects)@, boundary, radius as int),
            all_wf(final(objects)@),
    {
        let n = objects.len();
        let mut k: usize = 0;
        while k < n
            invariant
                k <= n,
                boundary.fits(radius as int),
                objects@.len() == n,
                n == old(objects)@.len(),
                all_wf(old(objects)@),
                forall|m: int|
                    0 <= m < k ==> objects@[m] == constrain_spec(
                        #[trigger] old(objects)@[m],
                        boundary,
                        radius as int,
                    ),
                forall|m: int| 0 <= m < k ==> (#[trigger] objects@[m]).wf(),
                forall|m: int| k <= m < n ==> objects@[m] == old(objects)@[m],
            decreases n - k,
        {
            proof {
                assert(old(objects)@[k as int].wf());
            }
            let o = constrain_particle(objects[k], boundary, radius);
            objects[k] = o;
            k = k + 1;
        }
        proof {
            assert(objects@ =~= constrain_all(old(objects)@, boundary, radius as int));
        }
    }

    /// One sequential sweep of brute-force pairwise collision resolution:
    /// every unordered pair `(i, j)` with `i < j` is checked exactly once,
    /// in ascending index order, each pair acting on the state the previous
    /// pair left. That ordering is part of the defined semantics.
    pub fn solve_collisions(objects: &mut Vec<VerletObject>, radius: i64)
        requires
            0 <= radius <= COORD_LIMIT,
            all_wf(old(objects)@),
        ensures
            final(objects)@ == pass_outer(old(objects)@, 0, radius as int),
            all_wf(final(objects)@),
    {
        let n = objects.len();
        let r_ghost: Ghost<int> = Ghost(radius as int);
        let mut i: usize = 0;
        while i < n
            invariant
                i <= n,
                0 <= radius <= COORD_LIMIT,
                r_ghost@ == radius as int,
                objects@.len() == n,
                n == old(objects)@.len(),
                all_wf(objects@),
                pass_outer(old(objects)@, 0, r_ghost@) == pass_outer(objects@, i as int, r_ghost@),
            decreases n - i,
        {
            let mut j: usize = i + 1;
            while j < n
                invariant
                    i < j <= n,
                    i < n,
                    0 <= radius <= COORD_LIMIT,
                    r_ghost@ == radius as int,
                    objects@.len() == n,
                    n == old(objects)@.len(),
                    all_wf(objects@),
                    pass_outer(old(objects)@, 0, r_ghost@) == pass_outer(
                        pass_inner(objects@, i as int, j as int, r_ghost@),
                        i as int + 1,
                        r_ghost@,
                    ),
                decreases n - j,
            {
                let ghost s_before = objects@;
                let p = resolve_pair(objects[i], objects[j], radius);
                objects[i] = p.0;
                objects[j] = p.1;
                proof {
                    assert(objects@ =~= s_before.update(i as int, p.0).update(j as int, p.1));
                    assert(pass_inner(s_before, i as int, j as int, r_ghost@)
                        == pass_inner(objects@, i as int, j as int + 1, r_ghost@));
                    assert forall|m: int| 0 <= m < n implies (#[trigger] objects@[m]).wf() by {
                        if m != i as int && m != j as int {
                            assert(objects@[m] == s_before[m]);
                        }
                    }
                }
                j = j + 1;
            }
            proof {
                assert(pass_inner(objects@, i as int, n as int, r_ghost@)
                    == objects@);
            }
            i = i + 1;
        }
        proof {
            assert(pass_outer(objects@, n as int, r_ghost@) == objects@);
        }
    }

    /// Advance the whole collection by one frame of length `dt`, in
    /// `substeps` equal sub-steps. A sub-step count of zero is treated as a
    /// no-op (there is no time slice to simulate), never as a division by
    /// zero.
    pub fn update(
        &mut self,
        objects: &mut Vec<VerletObject>,
        dt: i64,
        substeps: u32,
        boundary: BoundaryPolicy,
    )
        requires
            old(self).wf(),
            0 <= dt <= COORD_LIMIT,
            boundary.fits(old(self).radius as int),
            all_wf(old(objects)@),
        ensures
            *final(self) == *old(self),
            substeps == 0 ==> final(objects)@ == old(objects)@,
            substeps > 0 ==> final(objects)@ == simulate_spec(
                old(objects)@,
                old(self).gravity,
                boundary,
                old(self).radius as int,
                dt as int / substeps as int,
                substeps as nat,
            ),
            all_wf(final(objects)@),
    {
        if substeps == 0 {
            return ;
        }
        let sub_dt = ((dt as u64) / (substeps as u64)) as i64;
        proof {
            lemma_fundamental_div_mod(dt as int, substeps as int);
            assert(sub_dt as int == dt as int / substeps as int);
            assert((substeps as int) * (dt as int / substeps as int) >= dt as int
                / substeps as int) by (nonlinear_arith)
                requires
                    substeps as int >= 1,
                    dt as int / substeps as int >= 0,
            ;
        }
        let ghost g = self.gravity;
        let ghost r: int = self.radius as int;
        let ghost s0 = objects@;
        let mut step: u32 = 0;
        while step < substeps
            invariant
                step <= substeps,
                substeps > 0,
                *self == *old(self),
                self.wf(),
                0 <= sub_dt <= COORD_LIMIT,
                boundary.fits(r),
                g == self.gravity,
                r == self.radius as int,
                all_wf(objects@),
                objects@ == simulate_spec(s0, g, boundary, r, sub_dt as int, step as nat),
            decreases substeps - step,
        {
            let ghost before = objects@;
            Self::apply_gravity(objects, &self.gravity);
            Self::apply_constraints(objects, boundary, self.radius);
            Self::solve_collisions(objects, self.radius);
            Self::update_positions(objects, sub_dt);
            proof {
                assert(objects@ == substep_spec(before, g, boundary, r, sub_dt as int));
                assert(simulate_spec(s0, g, boundary, r, sub_dt as int, (step + 1) as nat)
                    == substep_spec(before, g, boundary, r, sub_dt as int));
            }
            step = step + 1;
        }
    }
}

} // verus!
