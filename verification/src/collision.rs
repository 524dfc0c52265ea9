//! Pairwise collision resolution: every unordered pair of particles closer
//! than two radii is pushed apart symmetrically along its separation axis,
//! one sequential sweep per sub-step.

use crate::math::{
    clip, clip_to_coord, in_range, isqrt, lemma_scale_toward_bounds, lemma_sqrt_floor_bounds,
    scale_exec, scale_toward, sqrt_floor, COORD_LIMIT,
};
use crate::particle::VerletObject;
use crate::vec2::{dist2, Vec2};
use vstd::prelude::*;

verus! {

/// Where one pair resolution puts two particles of radius `r`. A pair at
/// squared distance of at least `(2r)^2` is untouched; an exactly
/// coincident pair is nudged apart along the x axis by `r` each way; any
/// other overlapping pair is pushed apart symmetrically along its
/// separation axis by half the overlap each. Only `position_current`
/// changes; the resulting coordinates saturate.
pub open spec fn resolve_pair_spec(a: VerletObject, b: VerletObject, r: int) -> (VerletObject,
    VerletObject) {
    let dx = a.position_current.x - b.position_current.x;
    let dy = a.position_current.y - b.position_current.y;
    let d2 = dx * dx + dy * dy;
    if d2 >= (2 * r) * (2 * r) {
        (a, b)
    } else if d2 == 0 {
        (
            VerletObject {
                position_current: Vec2 {
                    x: clip(a.position_current.x + r) as i64,
                    y: a.position_current.y,
                },
                position_old: a.position_old,
                acceleration: a.acceleration,
            },
            VerletObject {
                position_current: Vec2 {
                    x: clip(b.position_current.x - r) as i64,
                    y: b.position_current.y,
                },
                position_old: b.position_old,
                acceleration: b.acceleration,
            },
        )
    } else {
        let d = sqrt_floor(d2 as nat) as int;
        let overlap = 2 * r - d;
        let px = scale_toward(dx, overlap, 2 * d);
        let py = scale_toward(dy, overlap, 2 * d);
        (
            VerletObject {
                position_current: Vec2 {
                    x: clip(a.position_current.x + px) as i64,
                    y: clip(a.position_current.y + py) as i64,
                },
                position_old: a.position_old,
                acceleration: a.acceleration,
            },
            VerletObject {
                position_current: Vec2 {
                    x: clip(b.position_current.x - px) as i64,
                    y: clip(b.position_current.y - py) as i64,
                },
                position_old: b.position_old,
                acceleration: b.acceleration,
            },
        )
    }
}

/// The rest of one sweep row: resolve pairs `(i, j), (i, j + 1), ...` in
/// order, each on the state the previous pair left.
pub open spec fn pass_inner(s: Seq<VerletObject>, i: int, j: int, r: int) -> Seq<VerletObject>
    decreases s.len() - j,
{
    if 0 <= i && i < j && j < s.len() {
        let p = resolve_pair_spec(s[i], s[j], r);
        pass_inner(s.update(i, p.0).update(j, p.1), i, j + 1, r)
    } else {
        s
    }
}

pub proof fn lemma_pass_inner_len(s: Seq<VerletObject>, i: int, j: int, r: int)
    ensures
        pass_inner(s, i, j, r).len() == s.len(),
    decreases s.len() - j,
{
    if 0 <= i && i < j && j < s.len() {
        let p = resolve_pair_spec(s[i], s[j], r);
        lemma_pass_inner_len(s.update(i, p.0).update(j, p.1), i, j + 1, r);
    }
}

/// The rest of one full sweep: row `i` (pairs `(i, i + 1)` onward), then
/// the rows below it, in index order.
pub open spec fn pass_outer(s: Seq<VerletObject>, i: int, r: int) -> Seq<VerletObject>
    decreases s.len() - i,
    via pass_outer_decreases
{
    if 0 <= i && i < s.len() {
        pass_outer(pass_inner(s, i, i + 1, r), i + 1, r)
    } else {
        s
    }
}

#[via_fn]
proof fn pass_outer_decreases(s: Seq<VerletObject>, i: int, r: int) {
    if 0 <= i && i < s.len() {
        lemma_pass_inner_len(s, i, i + 1, r);
    }
}

pub proof fn lemma_pass_outer_len(s: Seq<VerletObject>, i: int, r: int)
    ensures
        pass_outer(s, i, r).len() == s.len(),
    decreases s.len() - i,
{
    if 0 <= i && i < s.len() {
        lemma_pass_inner_len(s, i, i + 1, r);
        lemma_pass_outer_len(pass_inner(s, i, i + 1, r), i + 1, r);
    }
}

/// Pairs that do not overlap are left exactly as they are.
pub proof fn lemma_no_overlap_unchanged(a: VerletObject, b: VerletObject, r: int)
    requires
        dist2(a.position_current, b.position_current) >= (2 * r) * (2 * r),
    ensures
        resolve_pair_spec(a, b, r) == (a, b),
{
}

/// An overlapping pair is pushed apart symmetrically (the two displacements
/// are exact opposites), along the original separation axis (each
/// displacement component has the sign of the axis component), only
/// `position_current` moves, and the pair never ends up closer than it
/// started — provided the particles sit far enough from the edge of the
/// coordinate range that nothing saturates.
pub proof fn lemma_collision_separation(a: VerletObject, b: VerletObject, r: int)
    requires
        0 <= r,
        in_range(a.position_current.x + 2 * r),
        in_range(a.position_current.x - 2 * r),
        in_range(a.position_current.y + 2 * r),
        in_range(a.position_current.y - 2 * r),
        in_range(b.position_current.x + 2 * r),
        in_range(b.position_current.x - 2 * r),
        in_range(b.position_current.y + 2 * r),
        in_range(b.position_current.y - 2 * r),
    ensures
        resolve_pair_spec(a, b, r).0.position_old == a.position_old,
        resolve_pair_spec(a, b, r).0.acceleration == a.acceleration,
        resolve_pair_spec(a, b, r).1.position_old == b.position_old,
        resolve_pair_spec(a, b, r).1.acceleration == b.acceleration,
        resolve_pair_spec(a, b, r).0.position_current.x - a.position_current.x == -(
        resolve_pair_spec(a, b, r).1.position_current.x - b.position_current.x),
        resolve_pair_spec(a, b, r).0.position_current.y - a.position_current.y == -(
        resolve_pair_spec(a, b, r).1.position_current.y - b.position_current.y),
        (resolve_pair_spec(a, b, r).0.position_current.x - a.position_current.x) * (
        a.position_current.x - b.position_current.x) >= 0,
        (resolve_pair_spec(a, b, r).0.position_current.y - a.position_current.y) * (
        a.position_current.y - b.position_current.y) >= 0,
        dist2(
            resolve_pair_spec(a, b, r).0.position_current,
            resolve_pair_spec(a, b, r).1.position_current,
        ) >= dist2(a.position_current, b.position_current),
{
    let dx = a.position_current.x - b.position_current.x;
    let dy = a.position_current.y - b.position_current.y;
    let d2 = dx * dx + dy * dy;
    if d2 >= (2 * r) * (2 * r) {
        assert(0 * dx >= 0 && 0 * dy >= 0) by (nonlinear_arith);
    } else if d2 == 0 {
        assert(dx == 0 && dy == 0) by (nonlinear_arith)
            requires
                dx * dx + dy * dy == 0,
        ;
        let q = resolve_pair_spec(a, b, r);
        assert(q.0.position_current.x == a.position_current.x + r);
        assert(q.1.position_current.x == b.position_current.x - r);
        assert(r * 0 >= 0 && 0 * 0 >= 0) by (nonlinear_arith);
        assert((2 * r) * (2 * r) >= 0) by (nonlinear_arith)
            requires
                0 <= r,
        ;
        assert(dist2(q.0.position_current, q.1.position_current) == (2 * r) * (2 * r));
    } else {
        assert(d2 >= 0) by (nonlinear_arith)
            requires
                d2 == dx * dx + dy * dy,
        ;
        lemma_sqrt_floor_bounds(d2 as nat);
        let d = sqrt_floor(d2 as nat) as int;
        assert(d * d <= d2 && d2 < (d + 1) * (d + 1));
        assert(1 <= d && d < 2 * r) by (nonlinear_arith)
            requires
                d * d <= d2,
                d2 < (d + 1) * (d + 1),
                0 <= d,
                0 < d2,
                d2 < (2 * r) * (2 * r),
                0 <= r,
        ;
        let overlap = 2 * r - d;
        assert(-(2 * d) <= dx <= 2 * d && -(2 * d) <= dy <= 2 * d) by (nonlinear_arith)
            requires
                d2 == dx * dx + dy * dy,
                d2 < (d + 1) * (d + 1),
                0 <= d,
        ;
        lemma_scale_toward_bounds(dx, overlap, 2 * d);
        lemma_scale_toward_bounds(dy, overlap, 2 * d);
        let px = scale_toward(dx, overlap, 2 * d);
        let py = scale_toward(dy, overlap, 2 * d);
        let q = resolve_pair_spec(a, b, r);
        assert(q.0.position_current.x == a.position_current.x + px);
        assert(q.0.position_current.y == a.position_current.y + py);
        assert(q.1.position_current.x == b.position_current.x - px);
        assert(q.1.position_current.y == b.position_current.y - py);
        assert(px * dx >= 0 && py * dy >= 0) by (nonlinear_arith)
            requires
                (dx >= 0 ==> px >= 0) && (dx < 0 ==> px <= 0),
                (dy >= 0 ==> py >= 0) && (dy < 0 ==> py <= 0),
        ;
        assert((dx + 2 * px) * (dx + 2 * px) >= dx * dx) by (nonlinear_arith)
            requires
                (dx >= 0 ==> px >= 0) && (dx < 0 ==> px <= 0),
        ;
        assert((dy + 2 * py) * (dy + 2 * py) >= dy * dy) by (nonlinear_arith)
            requires
                (dy >= 0 ==> py >= 0) && (dy < 0 ==> py <= 0),
        ;
        assert(dist2(q.0.position_current, q.1.position_current) == (dx + 2 * px) * (dx + 2 * px)
            + (dy + 2 * py) * (dy + 2 * py));
    }
}

/// The push never overshoots beyond the rounding of the distance: for an
/// overlapping, non-coincident pair, the new squared distance scaled by
/// `d^2` (where `d = sqrt_floor` of the old squared distance) is at most
/// `(2r)^2` times the old squared distance — the new separation is at most
/// `2r * old / d`, which is `2r` up to the rounding of `d`. In particular,
/// when the old distance is exact (`d * d` equals the old squared
/// distance, as for an axis-aligned pair), the pair ends up no farther
/// apart than exactly `2r`.
pub proof fn lemma_collision_separation_bound(a: VerletObject, b: VerletObject, r: int)
    requires
        0 <= r,
        0 < dist2(a.position_current, b.position_current),
        dist2(a.position_current, b.position_current) < (2 * r) * (2 * r),
        in_range(a.position_current.x + 2 * r),
        in_range(a.position_current.x - 2 * r),
        in_range(a.position_current.y + 2 * r),
        in_range(a.position_current.y - 2 * r),
        in_range(b.position_current.x + 2 * r),
        in_range(b.position_current.x - 2 * r),
        in_range(b.position_current.y + 2 * r),
        in_range(b.position_current.y - 2 * r),
    ensures
        (sqrt_floor(dist2(a.position_current, b.position_current) as nat) as int) * (sqrt_floor(
            dist2(a.position_current, b.position_current) as nat,
        ) as int) * dist2(
            resolve_pair_spec(a, b, r).0.position_current,
            resolve_pair_spec(a, b, r).1.position_current,
        ) <= (2 * r) * (2 * r) * dist2(a.position_current, b.position_current),
        (sqrt_floor(dist2(a.position_current, b.position_current) as nat) as int) * (sqrt_floor(
            dist2(a.position_current, b.position_current) as nat,
        ) as int) == dist2(a.position_current, b.position_current) ==> dist2(
            resolve_pair_spec(a, b, r).0.position_current,
            resolve_pair_spec(a, b, r).1.position_current,
        ) <= (2 * r) * (2 * r),
{
    let dx = a.position_current.x - b.position_current.x;
    let dy = a.position_current.y - b.position_current.y;
    let d2 = dx * dx + dy * dy;
    assert(d2 == dist2(a.position_current, b.position_current));
    lemma_sqrt_floor_bounds(d2 as nat);
    let d = sqrt_floor(d2 as nat) as int;
    assert(d * d <= d2 && d2 < (d + 1) * (d + 1));
    assert(1 <= d && d < 2 * r) by (nonlinear_arith)
        requires
            d * d <= d2,
            d2 < (d + 1) * (d + 1),
            0 <= d,
            0 < d2,
            d2 < (2 * r) * (2 * r),
            0 <= r,
    ;
    let overlap = 2 * r - d;
    assert(-(2 * d) <= dx <= 2 * d && -(2 * d) <= dy <= 2 * d) by (nonlinear_arith)
        requires
            d2 == dx * dx + dy * dy,
            d2 < (d + 1) * (d + 1),
            0 <= d,
    ;
    lemma_scale_toward_bounds(dx, overlap, 2 * d);
    lemma_scale_toward_bounds(dy, overlap, 2 * d);
    let px = scale_toward(dx, overlap, 2 * d);
    let py = scale_toward(dy, overlap, 2 * d);
    let q = resolve_pair_spec(a, b, r);
    assert(q.0.position_current.x == a.position_current.x + px);
    assert(q.0.position_current.y == a.position_current.y + py);
    assert(q.1.position_current.x == b.position_current.x - px);
    assert(q.1.position_current.y == b.position_current.y - py);
    let ndx = dx + 2 * px;
    let ndy = dy + 2 * py;
    let d2n = dist2(q.0.position_current, q.1.position_current);
    assert(d2n == ndx * ndx + ndy * ndy);
    // Scaled per-axis bound: |d * ndx| <= |dx * 2r|.
    assert((d * ndx) * (d * ndx) <= (dx * (2 * r)) * (dx * (2 * r))) by (nonlinear_arith)
        requires
            1 <= d,
            ndx == dx + 2 * px,
            overlap == 2 * r - d,
            dx >= 0 ==> 0 <= px && (2 * d) * px <= dx * overlap,
            dx < 0 ==> px <= 0 && dx * overlap <= (2 * d) * px,
    ;
    assert((d * ndy) * (d * ndy) <= (dy * (2 * r)) * (dy * (2 * r))) by (nonlinear_arith)
        requires
            1 <= d,
            ndy == dy + 2 * py,
            overlap == 2 * r - d,
            dy >= 0 ==> 0 <= py && (2 * d) * py <= dy * overlap,
            dy < 0 ==> py <= 0 && dy * overlap <= (2 * d) * py,
    ;
    assert(d * d * (ndx * ndx) <= ((2 * r) * (2 * r)) * (dx * dx)) by (nonlinear_arith)
        requires
            (d * ndx) * (d * ndx) <= (dx * (2 * r)) * (dx * (2 * r)),
    ;
    assert(d * d * (ndy * ndy) <= ((2 * r) * (2 * r)) * (dy * dy)) by (nonlinear_arith)
        requires
            (d * ndy) * (d * ndy) <= (dy * (2 * r)) * (dy * (2 * r)),
    ;
    assert(d * d * d2n <= (2 * r) * (2 * r) * d2) by (nonlinear_arith)
        requires
            d * d * (ndx * ndx) <= ((2 * r) * (2 * r)) * (dx * dx),
            d * d * (ndy * ndy) <= ((2 * r) * (2 * r)) * (dy * dy),
            d2 == dx * dx + dy * dy,
            d2n == ndx * ndx + ndy * ndy,
    ;
    if d * d == d2 {
        assert(d2n <= (2 * r) * (2 * r)) by (nonlinear_arith)
            requires
                d * d * d2n <= (2 * r) * (2 * r) * (d * d),
                1 <= d,
        ;
    }
}

/// Degenerate-distance safety: a pair spawned at the exact same position is
/// separated deterministically along the x axis, to a distance of exactly
/// two radii, without touching the y axis.
pub proof fn lemma_coincident_pair_separates(a: VerletObject, b: VerletObject, r: int)
    requires
        a.position_current == b.position_current,
        0 < r,
        in_range(a.position_current.x + r),
        in_range(a.position_current.x - r),
    ensures
        resolve_pair_spec(a, b, r).0.position_current.x == a.position_current.x + r,
        resolve_pair_spec(a, b, r).1.position_current.x == a.position_current.x - r,
        resolve_pair_spec(a, b, r).0.position_current.y == a.position_current.y,
        resolve_pair_spec(a, b, r).1.position_current.y == a.position_current.y,
        dist2(
            resolve_pair_spec(a, b, r).0.position_current,
            resolve_pair_spec(a, b, r).1.position_current,
        ) == (2 * r) * (2 * r),
{
    assert(0 < (2 * r) * (2 * r)) by (nonlinear_arith)
        requires
            0 < r,
    ;
}

/// One full sweep over exactly two particles is one pair resolution.
pub proof fn lemma_pass_two(s: Seq<VerletObject>, r: int)
    requires
        s.len() == 2,
    ensures
        pass_outer(s, 0, r) == seq![
            resolve_pair_spec(s[0], s[1], r).0,
            resolve_pair_spec(s[0], s[1], r).1,
        ],
{
    let p = resolve_pair_spec(s[0], s[1], r);
    let s1 = s.update(0, p.0).update(1, p.1);
    assert(pass_inner(s, 0, 1, r) == pass_inner(s1, 0, 2, r));
    assert(pass_inner(s1, 0, 2, r) == s1);
    assert(pass_inner(s1, 1, 2, r) == s1);
    assert(pass_outer(s, 0, r) == pass_outer(s1, 1, r));
    assert(pass_outer(s1, 1, r) == pass_outer(s1, 2, r));
    assert(pass_outer(s1, 2, r) == s1);
    assert(s1 =~= seq![p.0, p.1]);
}

/// Resolve one pair of particles of radius `radius`.
pub fn resolve_pair(a: VerletObject, b: VerletObject, radius: i64) -> (res: (
    VerletObject,
    VerletObject,
))
    requires
        a.wf(),
        b.wf(),
        0 <= radius <= COORD_LIMIT,
    ensures
        res == resolve_pair_spec(a, b, radius as int),
        res.0.wf(),
        res.1.wf(),
{
    let dx = a.position_current.x - b.position_current.x;
    let dy = a.position_current.y - b.position_current.y;
    proof {
        assert(0 <= (dx as i128) * (dx as i128) <= 0x4_0000_0000_0000_0000_0000i128 && 0 <= (
        dy as i128) * (dy as i128) <= 0x4_0000_0000_0000_0000_0000i128) by (nonlinear_arith)
            requires
                -0x200_0000_0000i128 <= (dx as i128) <= 0x200_0000_0000i128,
                -0x200_0000_0000i128 <= (dy as i128) <= 0x200_0000_0000i128,
        ;
    }
    let d2 = (dx as i128) * (dx as i128) + (dy as i128) * (dy as i128);
    let two_r = 2 * radius;
    proof {
        assert(0 <= (two_r as i128) * (two_r as i128) <= 0x4_0000_0000_0000_0000_0000i128)
            by (nonlinear_arith)
            requires
                0 <= (two_r as i128) <= 0x200_0000_0000i128,
        ;
    }
    if d2 >= (two_r as i128) * (two_r as i128) {
        (a, b)
    } else if d2 == 0 {
        (
            VerletObject {
                position_current: Vec2 {
                    x: clip_to_coord(a.position_current.x as i128 + radius as i128),
                    y: a.position_current.y,
                },
                position_old: a.position_old,
                acceleration: a.acceleration,
            },
            VerletObject {
                position_current: Vec2 {
                    x: clip_to_coord(b.position_current.x as i128 - radius as i128),
                    y: b.position_current.y,
                },
                position_old: b.position_old,
                acceleration: b.acceleration,
            },
        )
    } else {
        let du = isqrt(d2 as u128);
        proof {
            assert((d2 as u128) as nat == d2 as nat);
            lemma_sqrt_floor_bounds(d2 as nat);
            assert((du as int) * (du as int) <= d2 as int && (d2 as int) < ((du as int) + 1) * ((
            du as int) + 1));
            assert(1 <= (du as int) && (du as int) < two_r as int) by (nonlinear_arith)
                requires
                    (du as int) * (du as int) <= d2 as int,
                    (d2 as int) < ((du as int) + 1) * ((du as int) + 1),
                    0 <= (du as int),
                    0 < d2 as int,
                    (d2 as int) < (two_r as int) * (two_r as int),
                    0 <= two_r as int,
            ;
            assert(-(du as int) <= dx as int <= du as int && -(du as int) <= dy as int <= (
            du as int)) by (nonlinear_arith)
                requires
                    d2 as int == (dx as int) * (dx as int) + (dy as int) * (dy as int),
                    (d2 as int) < ((du as int) + 1) * ((du as int) + 1),
                    0 <= (du as int),
            ;
        }
        let d = du as i64;
        let overlap = two_r - d;
        let px = scale_exec(dx, overlap, 2 * d);
        let py = scale_exec(dy, overlap, 2 * d);
        (
            VerletObject {
                position_current: Vec2 {
                    x: clip_to_coord(a.position_current.x as i128 + px as i128),
                    y: clip_to_coord(a.position_current.y as i128 + py as i128),
                },
                position_old: a.position_old,
                acceleration: a.acceleration,
            },
            VerletObject {
                position_current: Vec2 {
                    x: clip_to_coord(b.position_current.x as i128 - px as i128),
                    y: clip_to_coord(b.position_current.y as i128 - py as i128),
                },
                position_old: b.position_old,
                acceleration: b.acceleration,
            },
        )
    }
}

} // verus!
