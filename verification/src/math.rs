//! Saturating fixed-point scalar arithmetic and an exact integer square
//! root, the numeric kernel under the physics solver.

use vstd::arithmetic::div_mod::{
    lemma_div_is_ordered, lemma_div_multiples_vanish, lemma_div_pos_is_pos,
    lemma_fundamental_div_mod, lemma_mod_bound,
};
use vstd::arithmetic::mul::{lemma_mul_inequality, lemma_mul_nonnegative};
use vstd::prelude::*;

verus! {

/// Every coordinate the solver stores lies in `[-COORD_LIMIT, COORD_LIMIT]`.
pub const COORD_LIMIT: i64 = 0x100_0000_0000;

/// Saturate an unbounded integer into the coordinate range.
pub open spec fn clip(x: int) -> int {
    if x < -(COORD_LIMIT as int) {
        -(COORD_LIMIT as int)
    } else if x > COORD_LIMIT as int {
        COORD_LIMIT as int
    } else {
        x
    }
}

/// Whether a scalar already lies in the coordinate range (so `clip` is the
/// identity on it).
pub open spec fn in_range(x: int) -> bool {
    -(COORD_LIMIT as int) <= x <= COORD_LIMIT as int
}

pub(crate) fn clip_to_coord(x: i128) -> (r: i64)
    ensures
        r as int == clip(x as int),
{
    if x < -(COORD_LIMIT as i128) {
        -COORD_LIMIT
    } else if x > COORD_LIMIT as i128 {
        COORD_LIMIT
    } else {
        x as i64
    }
}

/// The `k`-th triangular number, `1 + 2 + ... + k`.
pub open spec fn triangle(k: nat) -> nat
    decreases k,
{
    if k == 0 {
        0
    } else {
        k + triangle((k - 1) as nat)
    }
}

/// A point on the segment from `c` to `c + tk * a` stays in an interval
/// that holds both endpoints.
pub proof fn lemma_segment_in_interval(lo: int, hi: int, c: int, a: int, t: int, tk: int)
    requires
        0 <= t <= tk,
        lo <= c <= hi,
        lo <= c + tk * a <= hi,
    ensures
        lo <= c + t * a <= hi,
{
    if a >= 0 {
        assert(0 <= t * a <= tk * a) by (nonlinear_arith)
            requires
                0 <= t <= tk,
                0 <= a,
        ;
    } else {
        assert(tk * a <= t * a <= 0) by (nonlinear_arith)
            requires
                0 <= t <= tk,
                a < 0,
        ;
    }
}

/// The acceleration term of one Verlet step, `a * dt * dt`, computed wide
/// enough that it cannot overflow.
pub(crate) fn accel_term(a: i64, dt: i64) -> (r: i128)
    requires
        in_range(a as int),
        0 <= dt <= COORD_LIMIT,
    ensures
        r as int == a * dt * dt,
        -0x100_0000_0000_0000_0000_0000_0000_0000i128 <= r
            <= 0x100_0000_0000_0000_0000_0000_0000_0000i128,
{
    proof {
        assert(-0x1_0000_0000_0000_0000_0000i128 <= (a as i128) * (dt as i128)
            <= 0x1_0000_0000_0000_0000_0000i128) by (nonlinear_arith)
            requires
                -0x100_0000_0000i128 <= (a as i128) <= 0x100_0000_0000i128,
                0 <= (dt as i128) <= 0x100_0000_0000i128,
        ;
    }
    let p = (a as i128) * (dt as i128);
    proof {
        assert(-0x100_0000_0000_0000_0000_0000_0000_0000i128 <= p * (dt as i128)
            <= 0x100_0000_0000_0000_0000_0000_0000_0000i128) by (nonlinear_arith)
            requires
                -0x1_0000_0000_0000_0000_0000i128 <= p <= 0x1_0000_0000_0000_0000_0000i128,
                0 <= (dt as i128) <= 0x100_0000_0000i128,
        ;
    }
    p * (dt as i128)
}

/// The integer square root: the largest `r` with `r * r <= n`.
pub open spec fn sqrt_floor(n: nat) -> nat
    decreases n,
{
    if n == 0 {
        0
    } else {
        let p = sqrt_floor((n - 1) as nat);
        if (p + 1) * (p + 1) <= n {
            p + 1
        } else {
            p
        }
    }
}

/// `sqrt_floor(n)` squares to at most `n`, and the next integer up squares
/// past `n`.
pub proof fn lemma_sqrt_floor_bounds(n: nat)
    ensures
        sqrt_floor(n) * sqrt_floor(n) <= n,
        n < (sqrt_floor(n) + 1) * (sqrt_floor(n) + 1),
    decreases n,
{
    if n > 0 {
        lemma_sqrt_floor_bounds((n - 1) as nat);
        let p = sqrt_floor((n - 1) as nat);
        if (p + 1) * (p + 1) <= n {
            assert(sqrt_floor(n) == p + 1);
            assert(n < (p + 2) * (p + 2)) by (nonlinear_arith)
                requires
                    n >= 1,
                    ((n - 1) as nat) < (p + 1) * (p + 1),
            ;
            assert((sqrt_floor(n) + 1) * (sqrt_floor(n) + 1) == (p + 2) * (p + 2));
        } else {
            assert(sqrt_floor(n) == p);
            assert(n < (sqrt_floor(n) + 1) * (sqrt_floor(n) + 1));
        }
    } else {
        assert(sqrt_floor(n) == 0);
        assert((sqrt_floor(n) + 1) * (sqrt_floor(n) + 1) == 1) by (nonlinear_arith)
            requires
                sqrt_floor(n) == 0,
        ;
    }
}

/// Any `r` that brackets `n` between consecutive squares is the square root.
pub proof fn lemma_sqrt_floor_unique(n: nat, r: nat)
    requires
        r * r <= n,
        n < (r + 1) * (r + 1),
    ensures
        r == sqrt_floor(n),
{
    lemma_sqrt_floor_bounds(n);
    let s = sqrt_floor(n);
    if r < s {
        assert((r + 1) * (r + 1) <= s * s) by (nonlinear_arith)
            requires
                r + 1 <= s,
        ;
    }
    if s < r {
        assert((s + 1) * (s + 1) <= r * r) by (nonlinear_arith)
            requires
                s + 1 <= r,
        ;
    }
}

/// Scale `v` by the ratio `num / den`, rounding the magnitude down and
/// keeping the sign of `v`. This is how a separation axis is normalized and
/// rescaled: `v * num / den` without leaving the integers.
pub open spec fn scale_toward(v: int, num: int, den: int) -> int {
    if v >= 0 {
        (v * num) / den
    } else {
        -(((-v) * num) / den)
    }
}

/// The scaled value keeps the sign of `v`; for `|v| <= den` its magnitude
/// is at most `num`; and `den * scale_toward(v, num, den)` stays on `v`'s
/// side of `v * num`.
pub proof fn lemma_scale_toward_bounds(v: int, num: int, den: int)
    requires
        0 <= num,
        1 <= den,
        -den <= v <= den,
    ensures
        v >= 0 ==> 0 <= scale_toward(v, num, den),
        v < 0 ==> scale_toward(v, num, den) <= 0,
        -num <= scale_toward(v, num, den) <= num,
        v >= 0 ==> den * scale_toward(v, num, den) <= v * num,
        v < 0 ==> v * num <= den * scale_toward(v, num, den),
        -den < den * scale_toward(v, num, den) - v * num < den,
{
    let w = if v >= 0 {
        v
    } else {
        -v
    };
    lemma_mul_nonnegative(w, num);
    lemma_div_pos_is_pos(w * num, den);
    lemma_fundamental_div_mod(w * num, den);
    lemma_mod_bound(w * num, den);
    lemma_mul_inequality(w, den, num);
    lemma_div_is_ordered(w * num, den * num, den);
    lemma_div_multiples_vanish(num, den);
    assert(w * num == if v >= 0 {
        v * num
    } else {
        -(v * num)
    }) by (nonlinear_arith)
        requires
            w == if v >= 0 {
                v
            } else {
                -v
            },
    ;
    assert(den * num == num * den) by (nonlinear_arith);
    assert(den * -((w * num) / den) == -(den * ((w * num) / den))) by (nonlinear_arith);
}

/// Executable form of `scale_toward`, for arguments within twice the
/// coordinate range.
pub(crate) fn scale_exec(v: i64, num: i64, den: i64) -> (r: i64)
    requires
        0 <= num <= 0x400_0000_0000,
        1 <= den <= 0x400_0000_0000,
        -den <= v <= den,
    ensures
        r as int == scale_toward(v as int, num as int, den as int),
        -num <= r <= num,
{
    proof {
        lemma_scale_toward_bounds(v as int, num as int, den as int);
    }
    if v >= 0 {
        proof {
            assert((v as u128) * (num as u128) <= 0x10_0000_0000_0000_0000_0000u128)
                by (nonlinear_arith)
                requires
                    (v as u128) <= 0x400_0000_0000u128,
                    (num as u128) <= 0x400_0000_0000u128,
            ;
        }
        (((v as u128) * (num as u128)) / (den as u128)) as i64
    } else {
        let w = -v;
        proof {
            assert((w as u128) * (num as u128) <= 0x10_0000_0000_0000_0000_0000u128)
                by (nonlinear_arith)
                requires
                    (w as u128) <= 0x400_0000_0000u128,
                    (num as u128) <= 0x400_0000_0000u128,
            ;
        }
        let m = (((w as u128) * (num as u128)) / (den as u128)) as i64;
        -m
    }
}

/// Exact integer square root of a `u128`, by bisection.
pub fn isqrt(n: u128) -> (r: u64)
    ensures
        r as nat == sqrt_floor(n as nat),
        (r * r) as nat <= n as nat,
{
    let mut lo: u128 = 0;
    let mut hi: u128 = 0x1_0000_0000_0000_0000;
    proof {
        assert((hi as int) * (hi as int) > n as int) by (nonlinear_arith)
            requires
                hi == 0x1_0000_0000_0000_0000u128,
                n <= u128::MAX,
        ;
    }
    while lo + 1 < hi
        invariant
            lo < hi <= 0x1_0000_0000_0000_0000u128,
            (lo as int) * (lo as int) <= n as int,
            (n as int) < (hi as int) * (hi as int),
        decreases hi - lo,
    {
        let mid = lo + (hi - lo) / 2;
        proof {
            assert((mid as int) * (mid as int) < 0x1_0000_0000_0000_0000_0000_0000_0000_0000int)
                by (nonlinear_arith)
                requires
                    mid < 0x1_0000_0000_0000_0000u128,
            ;
        }
        if mid * mid <= n {
            lo = mid;
        } else {
            hi = mid;
        }
    }
    proof {
        lemma_sqrt_floor_unique(n as nat, lo as nat);
    }
    lo as u64
}

} // verus!
