//! Fixed-point scalar arithmetic shared by the whole simulation core.
//!
//! A coordinate is an `i64` counting millionths of a world unit, so the arena
//! square `[-1.0, 1.0]` spans `[-UNIT, UNIT]`. Every stored coordinate is kept
//! inside `[-COORD_LIMIT, COORD_LIMIT]` by clamping, which bounds all the
//! intermediate arithmetic of the integrator and the collision solver.

use vstd::prelude::*;

verus! {

/// Fixed-point units per world unit.
pub const UNIT: i64 = 1_000_000;

/// Largest magnitude a stored coordinate may have (one million world units,
/// far outside any reachable trajectory).
pub const COORD_LIMIT: i64 = 1_000_000_000_000;

/// Largest radius a body may have (one world unit).
pub const RADIUS_LIMIT: i64 = 1_000_000;

/// Largest magnitude an acceleration component may have (a hundred world
/// units per squared second).
pub const ACCEL_LIMIT: i64 = 100_000_000;

/// Largest timestep accepted by the integrator (ten seconds).
pub const DT_LIMIT: i64 = 10_000_000;

/// Largest magnitude a single positional shift may have.
pub const SHIFT_LIMIT: i64 = 10_000_000_000_000;

/// Clamp of a mathematical coordinate into the representable band.
pub open spec fn clamp_coord_spec(v: int) -> int {
    if v < -COORD_LIMIT {
        -COORD_LIMIT as int
    } else if v > COORD_LIMIT {
        COORD_LIMIT as int
    } else {
        v
    }
}

/// Clamps a coordinate into `[-COORD_LIMIT, COORD_LIMIT]`.
pub fn clamp_coord(v: i64) -> (r: i64)
    ensures
        r == clamp_coord_spec(v as int),
{
    if v < -COORD_LIMIT {
        -COORD_LIMIT
    } else if v > COORD_LIMIT {
        COORD_LIMIT
    } else {
        v
    }
}

/// Magnitude of an integer.
pub open spec fn abs_spec(v: int) -> int {
    if v < 0 {
        -v
    } else {
        v
    }
}

/// Magnitude of an `i64`, as a `u64`.
pub fn abs64(v: i64) -> (r: u64)
    requires
        v > i64::MIN,
    ensures
        r == abs_spec(v as int),
{
    if v < 0 {
        (-v) as u64
    } else {
        v as u64
    }
}

/// The product `a * b` scaled back down by `UNIT`, truncated toward zero.
/// This is the fixed-point analogue of multiplying two scalars.
pub open spec fn fmul_spec(a: int, b: int) -> int {
    let p = a * b;
    if p >= 0 {
        p / (UNIT as int)
    } else {
        -((-p) / (UNIT as int))
    }
}

proof fn lemma_abs_mul(a: int, b: int)
    by (nonlinear_arith)
    ensures
        abs_spec(a) * abs_spec(b) == abs_spec(a * b),
        ((a < 0) != (b < 0)) && a * b != 0 ==> a * b < 0,
        ((a < 0) == (b < 0)) ==> a * b >= 0,
{
}

/// Fixed-point multiplication: `(a * b) / UNIT`, truncated toward zero.
pub fn fmul(a: i64, b: i64) -> (r: i64)
    requires
        a > i64::MIN,
        b > i64::MIN,
        abs_spec(a as int) * abs_spec(b as int) <= i64::MAX * (UNIT as int),
    ensures
        r == fmul_spec(a as int, b as int),
{
    let ma = abs64(a) as u128;
    let mb = abs64(b) as u128;
    let m = (ma * mb) / (UNIT as u128);
    proof {
        lemma_abs_mul(a as int, b as int);
        vstd::arithmetic::div_mod::lemma_div_is_ordered(
            (ma * mb) as int,
            i64::MAX * (UNIT as int),
            UNIT as int,
        );
        vstd::arithmetic::div_mod::lemma_div_multiples_vanish(i64::MAX as int, UNIT as int);
    }
    if (a < 0) != (b < 0) {
        -(m as i64)
    } else {
        m as i64
    }
}

/// The product of two magnitudes is bounded by the product of their bounds.
pub proof fn lemma_mul_le(a: int, b: int, ma: int, mb: int)
    by (nonlinear_arith)
    requires
        abs_spec(a) <= ma,
        abs_spec(b) <= mb,
    ensures
        abs_spec(a) * abs_spec(b) <= ma * mb,
{
}

/// The magnitude of a fixed-point product is bounded by the product of the
/// factors' bounds, scaled down by `UNIT`.
pub proof fn lemma_fmul_bound(a: int, b: int, ma: int, mb: int)
    requires
        abs_spec(a) <= ma,
        abs_spec(b) <= mb,
    ensures
        abs_spec(fmul_spec(a, b)) <= ma * mb / (UNIT as int),
{
    let p = a * b;
    lemma_abs_mul(a, b);
    assert(abs_spec(p) <= ma * mb) by (nonlinear_arith)
        requires
            abs_spec(p) == abs_spec(a) * abs_spec(b),
            0 <= abs_spec(a) <= ma,
            0 <= abs_spec(b) <= mb,
    ;
    vstd::arithmetic::div_mod::lemma_div_is_ordered(abs_spec(p), ma * mb, UNIT as int);
    if p >= 0 {
    } else {
        assert(fmul_spec(a, b) == -(abs_spec(p) / (UNIT as int)));
        vstd::arithmetic::div_mod::lemma_div_pos_is_pos(abs_spec(p), UNIT as int);
    }
}

/// Floor of the square root of a natural number.
pub open spec fn sqrt_floor(n: nat) -> nat
    decreases n,
{
    if n == 0 {
        0
    } else {
        let r = sqrt_floor((n - 1) as nat);
        if (r + 1) * (r + 1) <= n {
            r + 1
        } else {
            r
        }
    }
}

pub proof fn lemma_sqrt_floor_bounds(n: nat)
    ensures
        sqrt_floor(n) * sqrt_floor(n) <= n,
        n < (sqrt_floor(n) + 1) * (sqrt_floor(n) + 1),
    decreases n,
{
    if n == 0 {
        assert(sqrt_floor(n) == 0);
        assert((sqrt_floor(n) + 1) * (sqrt_floor(n) + 1) == 1) by (nonlinear_arith)
            requires
                sqrt_floor(n) == 0,
        ;
    } else {
        let m = (n - 1) as nat;
        lemma_sqrt_floor_bounds(m);
        let r = sqrt_floor(m);
        assert(sqrt_floor(n) == if (r + 1) * (r + 1) <= n {
            r + 1
        } else {
            r
        });
        if (r + 1) * (r + 1) <= n {
            assert(sqrt_floor(n) == r + 1);
            assert(sqrt_floor(n) * sqrt_floor(n) <= n);
            assert(n <= (r + 1) * (r + 1));
            assert((r + 1 + 1) * (r + 1 + 1) > (r + 1) * (r + 1)) by (nonlinear_arith);
            assert(n < (sqrt_floor(n) + 1) * (sqrt_floor(n) + 1));
        } else {
            assert(sqrt_floor(n) == r);
            assert(sqrt_floor(n) * sqrt_floor(n) <= n);
            assert(n < (sqrt_floor(n) + 1) * (sqrt_floor(n) + 1));
        }
    }
}

pub proof fn lemma_sqrt_floor_unique(n: nat, r: nat)
    requires
        r * r <= n,
        n < (r + 1) * (r + 1),
    ensures
        r == sqrt_floor(n),
{
    lemma_sqrt_floor_bounds(n);
    let s = sqrt_floor(n);
    if r < s {
        assert((r + 1) * (r + 1) <= s * s) by (nonlinear_arith)
            requires
                r + 1 <= s,
        ;
    }
    if s < r {
        assert((s + 1) * (s + 1) <= r * r) by (nonlinear_arith)
            requires
                s + 1 <= r,
        ;
    }
}

/// Floor of the square root of a `u128`, by bisection.
pub fn isqrt(n: u128) -> (r: u64)
    ensures
        r == sqrt_floor(n as nat),
{
    let mut lo: u64 = 0;
    let mut hi: u64 = u64::MAX;
    proof {
        assert((hi + 1) * (hi + 1) > u128::MAX) by (nonlinear_arith)
            requires
                hi == u64::MAX,
        ;
    }
    while lo < hi
        invariant
            (lo as nat) * (lo as nat) <= n as nat,
            (n as nat) < (hi as nat + 1) * (hi as nat + 1),
            lo <= hi,
        decreases hi - lo,
    {
        let mid = lo + (hi - lo) / 2 + (hi - lo) % 2;
        proof {
            assert((mid as int) * (mid as int) <= u128::MAX) by (nonlinear_arith)
                requires
                    0 <= mid <= u64::MAX,
            ;
        }
        if (mid as u128) * (mid as u128) <= n {
            lo = mid;
        } else {
            hi = mid - 1;
        }
    }
    proof {
        lemma_sqrt_floor_unique(n as nat, lo as nat);
    }
    lo
}

} // verus!
