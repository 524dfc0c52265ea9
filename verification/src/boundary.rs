//! Boundary projection: clamping a particle's current position back into
//! the containment region, radially for a circular region and per axis for
//! a rectangular one.

use crate::math::{
    in_range, isqrt, lemma_scale_toward_bounds, lemma_sqrt_floor_bounds, scale_exec, scale_toward,
    sqrt_floor, COORD_LIMIT,
};
use crate::particle::VerletObject;
use crate::vec2::{dist2, Vec2};
use vstd::prelude::*;

verus! {

/// The containment region that particles are projected back into.
#[derive(Clone, Copy, Debug, PartialEq, Eq, Structural)]
pub enum BoundaryPolicy {
    /// Keep every particle within `radius` of `center` (minus the particle
    /// radius), clamping radially.
    Circle { center: Vec2, radius: i64 },
    /// Keep every particle inside `[r + 1, width - r - 1] x [r + 1,
    /// height - r - 1]` for particle radius `r` (one unit of visual margin
    /// inside the walls), clamping each axis independently.
    Rect { width: i64, height: i64 },
}

impl BoundaryPolicy {
    /// The boundary is non-degenerate for particle radius `r` and lies far
    /// enough inside the coordinate range that projection never saturates.
    pub open spec fn fits(self, r: int) -> bool {
        match self {
            BoundaryPolicy::Circle { center, radius } => {
                &&& 0 <= r <= radius as int
                &&& in_range(center.x - radius)
                &&& in_range(center.x + radius)
                &&& in_range(center.y - radius)
                &&& in_range(center.y + radius)
            },
            BoundaryPolicy::Rect { width, height } => {
                &&& 0 <= r
                &&& 2 * r + 2 <= width as int <= COORD_LIMIT as int
                &&& 2 * r + 2 <= height as int <= COORD_LIMIT as int
            },
        }
    }
}

/// Clamp `v` into `[lo, hi]`, checking the lower wall first, as the solver
/// does (for `lo <= hi` this is the usual two-sided clamp).
pub open spec fn clamp_spec(v: int, lo: int, hi: int) -> int {
    let w = if v < lo {
        lo
    } else {
        v
    };
    if w > hi {
        hi
    } else {
        w
    }
}

/// Where boundary projection puts a particle: `position_current` is moved
/// back into the region; `position_old` and the force accumulator are kept,
/// so the correction changes the implicit velocity, by design.
pub open spec fn constrain_spec(o: VerletObject, boundary: BoundaryPolicy, r: int) -> VerletObject {
    match boundary {
        BoundaryPolicy::Rect { width, height } => VerletObject {
            position_current: Vec2 {
                x: clamp_spec(o.position_current.x as int, r + 1, width - r - 1) as i64,
                y: clamp_spec(o.position_current.y as int, r + 1, height - r - 1) as i64,
            },
            position_old: o.position_old,
            acceleration: o.acceleration,
        },
        BoundaryPolicy::Circle { center, radius } => {
            let limit = radius - r;
            let ox = o.position_current.x - center.x;
            let oy = o.position_current.y - center.y;
            let d2 = ox * ox + oy * oy;
            if d2 <= limit * limit {
                o
            } else {
                let d = sqrt_floor(d2 as nat) as int;
                VerletObject {
                    position_current: Vec2 {
                        x: (center.x + scale_toward(ox, limit, d)) as i64,
                        y: (center.y + scale_toward(oy, limit, d)) as i64,
                    },
                    position_old: o.position_old,
                    acceleration: o.acceleration,
                }
            }
        },
    }
}

/// Box containment: projection moves each coordinate to the nearest
/// violated wall, leaves coordinates already inside unchanged, and the
/// result lies inside the box. Position history and the accumulator are
/// untouched.
pub proof fn lemma_rect_containment(o: VerletObject, width: i64, height: i64, r: int)
    requires
        (BoundaryPolicy::Rect { width, height }).fits(r),
    ensures
        constrain_spec(o, BoundaryPolicy::Rect { width, height }, r).position_old
            == o.position_old,
        constrain_spec(o, BoundaryPolicy::Rect { width, height }, r).acceleration
            == o.acceleration,
        r + 1 <= constrain_spec(o, BoundaryPolicy::Rect { width, height }, r).position_current.x
            <= width - r - 1,
        r + 1 <= constrain_spec(o, BoundaryPolicy::Rect { width, height }, r).position_current.y
            <= height - r - 1,
        o.position_current.x < r + 1 ==> constrain_spec(
            o,
            BoundaryPolicy::Rect { width, height },
            r,
        ).position_current.x == r + 1,
        o.position_current.x > width - r - 1 ==> constrain_spec(
            o,
            BoundaryPolicy::Rect { width, height },
            r,
        ).position_current.x == width - r - 1,
        r + 1 <= o.position_current.x <= width - r - 1 ==> constrain_spec(
            o,
            BoundaryPolicy::Rect { width, height },
            r,
        ).position_current.x == o.position_current.x,
        o.position_current.y < r + 1 ==> constrain_spec(
            o,
            BoundaryPolicy::Rect { width, height },
            r,
        ).position_current.y == r + 1,
        o.position_current.y > height - r - 1 ==> constrain_spec(
            o,
            BoundaryPolicy::Rect { width, height },
            r,
        ).position_current.y == height - r - 1,
        r + 1 <= o.position_current.y <= height - r - 1 ==> constrain_spec(
            o,
            BoundaryPolicy::Rect { width, height },
            r,
        ).position_current.y == o.position_current.y,
{
}

/// Circular containment: a particle already within `radius - r` of the
/// center is untouched; one outside is pulled onto the bounding circle, to
/// an integer distance of at most `radius - r` from the center, on the same
/// side of the center along each axis as before. Position history and the
/// accumulator are untouched.
pub proof fn lemma_circle_containment(o: VerletObject, center: Vec2, radius: i64, r: int)
    requires
        (BoundaryPolicy::Circle { center, radius }).fits(r),
    ensures
        constrain_spec(o, BoundaryPolicy::Circle { center, radius }, r).position_old
            == o.position_old,
        constrain_spec(o, BoundaryPolicy::Circle { center, radius }, r).acceleration
            == o.acceleration,
        dist2(o.position_current, center) <= (radius - r) * (radius - r) ==> constrain_spec(
            o,
            BoundaryPolicy::Circle { center, radius },
            r,
        ) == o,
        dist2(o.position_current, center) > (radius - r) * (radius - r) ==> dist2(
            constrain_spec(o, BoundaryPolicy::Circle { center, radius }, r).position_current,
            center,
        ) < (radius - r + 1) * (radius - r + 1),
        (constrain_spec(o, BoundaryPolicy::Circle { center, radius }, r).position_current.x
            - center.x) * (o.position_current.x - center.x) >= 0,
        (constrain_spec(o, BoundaryPolicy::Circle { center, radius }, r).position_current.y
            - center.y) * (o.position_current.y - center.y) >= 0,
        // Per axis, the result is the exact radial projection
        // `offset * (radius - r) / distance` up to less than one rounding
        // unit (everything scaled by `d`, the rounded distance).
        dist2(o.position_current, center) > (radius - r) * (radius - r) ==> -(sqrt_floor(
            dist2(o.position_current, center) as nat,
        ) as int) < (sqrt_floor(dist2(o.position_current, center) as nat) as int) * (constrain_spec(
            o,
            BoundaryPolicy::Circle { center, radius },
            r,
        ).position_current.x - center.x) - (o.position_current.x - center.x) * (radius - r)
            < sqrt_floor(dist2(o.position_current, center) as nat) as int,
        dist2(o.position_current, center) > (radius - r) * (radius - r) ==> -(sqrt_floor(
            dist2(o.position_current, center) as nat,
        ) as int) < (sqrt_floor(dist2(o.position_current, center) as nat) as int) * (constrain_spec(
            o,
            BoundaryPolicy::Circle { center, radius },
            r,
        ).position_current.y - center.y) - (o.position_current.y - center.y) * (radius - r)
            < sqrt_floor(dist2(o.position_current, center) as nat) as int,
{
    let limit = (radius - r) as int;
    let ox = o.position_current.x - center.x;
    let oy = o.position_current.y - center.y;
    let d2 = ox * ox + oy * oy;
    if d2 <= limit * limit {
        assert(ox * ox >= 0 && oy * oy >= 0) by (nonlinear_arith);
        assert((o.position_current.x - center.x) * (o.position_current.x - center.x) >= 0
            && (o.position_current.y - center.y) * (o.position_current.y - center.y) >= 0)
            by (nonlinear_arith);
    } else {
        lemma_sqrt_floor_bounds(d2 as nat);
        let d = sqrt_floor(d2 as nat) as int;
        assert(d2 >= 1 && d >= 1 && limit <= d) by (nonlinear_arith)
            requires
                0 <= limit,
                limit * limit < d2,
                d * d <= d2,
                d2 < (d + 1) * (d + 1),
                0 <= d,
        ;
        assert(-d <= ox <= d && -d <= oy <= d) by (nonlinear_arith)
            requires
                d2 == ox * ox + oy * oy,
                d2 < (d + 1) * (d + 1),
                0 <= d,
        ;
        lemma_scale_toward_bounds(ox, limit, d);
        lemma_scale_toward_bounds(oy, limit, d);
        let nx = scale_toward(ox, limit, d);
        let ny = scale_toward(oy, limit, d);
        assert((d * nx) * (d * nx) <= (ox * limit) * (ox * limit)) by (nonlinear_arith)
            requires
                1 <= d,
                ox >= 0 ==> 0 <= nx && d * nx <= ox * limit,
                ox < 0 ==> nx <= 0 && ox * limit <= d * nx,
        ;
        assert((d * ny) * (d * ny) <= (oy * limit) * (oy * limit)) by (nonlinear_arith)
            requires
                1 <= d,
                oy >= 0 ==> 0 <= ny && d * ny <= oy * limit,
                oy < 0 ==> ny <= 0 && oy * limit <= d * ny,
        ;
        assert(d * d * (nx * nx) <= (limit * limit) * (ox * ox)) by (nonlinear_arith)
            requires
                (d * nx) * (d * nx) <= (ox * limit) * (ox * limit),
        ;
        assert(d * d * (ny * ny) <= (limit * limit) * (oy * oy)) by (nonlinear_arith)
            requires
                (d * ny) * (d * ny) <= (oy * limit) * (oy * limit),
        ;
        assert(d * d * (nx * nx + ny * ny) <= (limit * limit) * d2) by (nonlinear_arith)
            requires
                d * d * (nx * nx) <= (limit * limit) * (ox * ox),
                d * d * (ny * ny) <= (limit * limit) * (oy * oy),
                d2 == ox * ox + oy * oy,
        ;
        assert((limit * limit) * d2 <= (limit * limit) * (d * d + 2 * d)) by (nonlinear_arith)
            requires
                d2 < (d + 1) * (d + 1),
                0 <= limit,
        ;
        assert((limit * limit) * (d * d + 2 * d) <= d * d * (limit * limit + 2 * limit))
            by (nonlinear_arith)
            requires
                0 <= limit <= d,
        ;
        assert(nx * nx + ny * ny <= limit * limit + 2 * limit) by (nonlinear_arith)
            requires
                d * d * (nx * nx + ny * ny) <= d * d * (limit * limit + 2 * limit),
                1 <= d,
        ;
        assert(limit * limit + 2 * limit < (limit + 1) * (limit + 1)) by (nonlinear_arith);
        // The stored coordinates do not saturate, so the distance of the
        // result is the distance of the exact projection.
        assert(in_range(center.x + nx) && in_range(center.y + ny));
        let q = constrain_spec(o, BoundaryPolicy::Circle { center, radius }, r);
        assert(q.position_current.x == center.x + nx && q.position_current.y == center.y + ny);
        assert(dist2(q.position_current, center) == nx * nx + ny * ny);
        // Axis signs are preserved.
        assert(nx * ox >= 0 && ny * oy >= 0) by (nonlinear_arith)
            requires
                (ox >= 0 ==> nx >= 0) && (ox < 0 ==> nx <= 0),
                (oy >= 0 ==> ny >= 0) && (oy < 0 ==> ny <= 0),
        ;
    }
}

/// Clamp one coordinate between two walls, lower wall first.
fn clamp_exec(v: i64, lo: i64, hi: i64) -> (r: i64)
    ensures
        r as int == clamp_spec(v as int, lo as int, hi as int),
{
    let mut w = v;
    if w < lo {
        w = lo;
    }
    if w > hi {
        w = hi;
    }
    w
}

/// Project one particle back into the boundary region.
pub fn constrain_particle(o: VerletObject, boundary: BoundaryPolicy, radius: i64) -> (r:
    VerletObject)
    requires
        o.wf(),
        boundary.fits(radius as int),
    ensures
        r == constrain_spec(o, boundary, radius as int),
        r.wf(),
{
    match boundary {
        BoundaryPolicy::Rect { width, height } => {
            let lo = radius + 1;
            VerletObject {
                position_current: Vec2 {
                    x: clamp_exec(o.position_current.x, lo, width - radius - 1),
                    y: clamp_exec(o.position_current.y, lo, height - radius - 1),
                },
                position_old: o.position_old,
                acceleration: o.acceleration,
            }
        },
        BoundaryPolicy::Circle { center, radius: region_radius } => {
            let ox = o.position_current.x - center.x;
            let oy = o.position_current.y - center.y;
            proof {
                assert(0 <= (ox as i128) * (ox as i128) <= 0x4_0000_0000_0000_0000_0000i128
                    && 0 <= (oy as i128) * (oy as i128) <= 0x4_0000_0000_0000_0000_0000i128)
                    by (nonlinear_arith)
                    requires
                        -0x200_0000_0000i128 <= (ox as i128) <= 0x200_0000_0000i128,
                        -0x200_0000_0000i128 <= (oy as i128) <= 0x200_0000_0000i128,
                ;
            }
            let d2 = (ox as i128) * (ox as i128) + (oy as i128) * (oy as i128);
            let limit = region_radius - radius;
            proof {
                assert(0 <= (limit as i128) * (limit as i128)
                    <= 0x10_0000_0000_0000_0000_0000i128) by (nonlinear_arith)
                    requires
                        0 <= (limit as i128) <= 0x400_0000_0000i128,
                ;
            }
            if d2 <= (limit as i128) * (limit as i128) {
                o
            } else {
                let du = isqrt(d2 as u128);
                proof {
                    assert((d2 as u128) as nat == d2 as nat);
                    lemma_sqrt_floor_bounds(d2 as nat);
                    assert((du as int) * (du as int) <= d2 as int
                        && (d2 as int) < ((du as int) + 1) * ((du as int) + 1));
                    assert(1 <= (du as int) && (du as int) <= 0x400_0000_0000int)
                        by (nonlinear_arith)
                        requires
                            (du as int) * (du as int) <= d2 as int,
                            (d2 as int) < ((du as int) + 1) * ((du as int) + 1),
                            0 <= (du as int),
                            0 < d2 as int <= 0x8_0000_0000_0000_0000_0000int,
                    ;
                    assert(-(du as int) <= ox as int <= du as int && -(du as int) <= oy as int
                        <= du as int) by (nonlinear_arith)
                        requires
                            d2 as int == (ox as int) * (ox as int) + (oy as int) * (oy as int),
                            (d2 as int) < ((du as int) + 1) * ((du as int) + 1),
                            0 <= (du as int),
                    ;
                }
                let d = du as i64;
                let sx = scale_exec(ox, limit, d);
                let sy = scale_exec(oy, limit, d);
                VerletObject {
                    position_current: Vec2 { x: center.x + sx, y: center.y + sy },
                    position_old: o.position_old,
                    acceleration: o.acceleration,
                }
            }
        },
    }
}

} // verus!
