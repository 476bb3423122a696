//! Fixed-point scalar arithmetic: constants, clamping, truncating division
//! and an exact integer square root, with the spec-level functions that the
//! rest of the solver's contracts are written over.

use vstd::prelude::*;

verus! {

use vstd::arithmetic::div_mod::{lemma_div_is_ordered, lemma_div_nonincreasing};

/// One unit (1.0) in the 16.16 fixed-point encoding used for all coordinates.
pub const FX_ONE: i64 = 65536;

/// pi in fixed point, rounded to the nearest representable value.
pub const PI_FX: i64 = 205887;

/// pi / 2 in fixed point.
pub const HALF_PI_FX: i64 = 102943;

/// Largest magnitude a stored coordinate may take. Every computed coordinate
/// is clamped into [-COORD_LIMIT, COORD_LIMIT] (2^48, about 4.3 billion world
/// units) so that all intermediate products fit in 128-bit arithmetic.
pub const COORD_LIMIT: i64 = 281474976710656;

/// Upper bound on a segment length between two clamped coordinates (2^50).
pub const LEN_LIMIT: i64 = 1125899906842624;

/// Scale applied when deriving angular velocities: velocities are reported
/// per second while timestamps are measured in microseconds.
pub const VEL_SCALE: i64 = 1000000;

/// A coordinate value clamped into the representable range.
pub open spec fn clamp_i(x: int) -> int {
    if x < -(COORD_LIMIT as int) {
        -(COORD_LIMIT as int)
    } else if x > COORD_LIMIT as int {
        COORD_LIMIT as int
    } else {
        x
    }
}

/// Division truncating toward zero, the rounding used by the solver.
pub open spec fn div_trunc(a: int, d: int) -> int
    recommends
        d > 0,
{
    if a >= 0 {
        a / d
    } else {
        -((-a) / d)
    }
}

/// The integer square root: the largest r with r * r <= n.
pub open spec fn sqrt_floor(n: nat) -> nat
    decreases n,
{
    if n == 0 {
        0
    } else {
        let r = sqrt_floor((n - 1) as nat);
        if (r + 1) * (r + 1) <= n {
            r + 1
        } else {
            r
        }
    }
}

/// `sqrt_floor` is what its name says: it is the floor of the square root.
pub proof fn lemma_sqrt_floor(n: nat)
    ensures
        sqrt_floor(n) * sqrt_floor(n) <= n,
        n < (sqrt_floor(n) + 1) * (sqrt_floor(n) + 1),
    decreases n,
{
    if n > 0 {
        lemma_sqrt_floor((n - 1) as nat);
        let r = sqrt_floor((n - 1) as nat);
        assert(r * r <= n - 1 && n - 1 < (r + 1) * (r + 1));
        if (r + 1) * (r + 1) <= n {
            assert(sqrt_floor(n) == r + 1);
            assert(n < ((r + 1) + 1) * ((r + 1) + 1)) by (nonlinear_arith)
                requires
                    n <= (r + 1) * (r + 1),
            ;
            assert(sqrt_floor(n) * sqrt_floor(n) <= n);
            assert(n < (sqrt_floor(n) + 1) * (sqrt_floor(n) + 1));
        } else {
            assert(sqrt_floor(n) == r);
            assert(sqrt_floor(n) * sqrt_floor(n) <= n);
            assert(n < (sqrt_floor(n) + 1) * (sqrt_floor(n) + 1));
        }
    } else {
        assert(sqrt_floor(n) == 0);
        assert(sqrt_floor(n) * sqrt_floor(n) <= n) by (nonlinear_arith)
            requires
                sqrt_floor(n) == 0,
                n == 0nat,
        ;
        assert(n < (sqrt_floor(n) + 1) * (sqrt_floor(n) + 1)) by (nonlinear_arith)
            requires
                sqrt_floor(n) == 0,
                n == 0nat,
        ;
    }
}

/// The floor of the square root is determined by its defining inequalities.
pub proof fn lemma_sqrt_floor_unique(n: nat, r: nat)
    requires
        r * r <= n,
        n < (r + 1) * (r + 1),
    ensures
        r == sqrt_floor(n),
{
    lemma_sqrt_floor(n);
    let s = sqrt_floor(n);
    assert(r == s) by (nonlinear_arith)
        requires
            r * r <= n,
            n < (r + 1) * (r + 1),
            s * s <= n,
            n < (s + 1) * (s + 1),
    ;
}

/// Exact integer square root of a 128-bit value, by bisection.
pub fn isqrt_u128(n: u128) -> (r: u64)
    ensures
        r as nat == sqrt_floor(n as nat),
{
    let mut lo: u128 = 0;
    let mut hi: u128 = 0x10000000000000000;
    while lo + 1 < hi
        invariant
            lo < hi,
            hi <= 0x10000000000000000,
            (lo as nat) * (lo as nat) <= n as nat,
            (n as nat) < (hi as nat) * (hi as nat),
        decreases hi - lo,
    {
        let mid = lo + (hi - lo) / 2;
        assert(mid * mid <= u128::MAX) by (nonlinear_arith)
            requires
                mid < 0x10000000000000000,
        ;
        if mid * mid <= n {
            lo = mid;
        } else {
            hi = mid;
        }
    }
    proof {
        lemma_sqrt_floor_unique(n as nat, lo as nat);
    }
    lo as u64
}

/// Truncating signed division on 128-bit values.
pub fn div_trunc_i128(a: i128, d: i128) -> (r: i128)
    requires
        d > 0,
        a > i128::MIN,
    ensures
        r as int == div_trunc(a as int, d as int),
{
    if a >= 0 {
        let q = (a as u128) / (d as u128);
        proof {
            lemma_div_nonincreasing(a as int, d as int);
        }
        q as i128
    } else {
        let q = ((-a) as u128) / (d as u128);
        proof {
            lemma_div_nonincreasing(-(a as int), d as int);
        }
        -(q as i128)
    }
}

/// Clamp a computed coordinate back into the representable range.
pub fn clamp_coord(v: i128) -> (r: i64)
    ensures
        r as int == clamp_i(v as int),
        r == clamp_i(v as int) as i64,
        -COORD_LIMIT <= r <= COORD_LIMIT,
{
    if v < -(COORD_LIMIT as i128) {
        -COORD_LIMIT
    } else if v > COORD_LIMIT as i128 {
        COORD_LIMIT
    } else {
        v as i64
    }
}

/// Angular rate: an angle difference scaled to per-second units and divided
/// by the elapsed time in microseconds, truncating toward zero.
pub fn scaled_rate(diff: i64, elapsed: u64) -> (r: i64)
    requires
        elapsed >= 1,
        -PI_FX <= diff <= PI_FX,
    ensures
        r as int == div_trunc(diff * VEL_SCALE, elapsed as int),
{
    if diff >= 0 {
        let q = ((diff as u128) * (VEL_SCALE as u128)) / (elapsed as u128);
        proof {
            lemma_div_nonincreasing((diff * VEL_SCALE) as int, elapsed as int);
        }
        q as i64
    } else {
        let q = (((-diff) as u128) * (VEL_SCALE as u128)) / (elapsed as u128);
        proof {
            lemma_div_nonincreasing((-(diff as int)) * (VEL_SCALE as int), elapsed as int);
        }
        -(q as i64)
    }
}

/// The two defining inequalities of the integer square root, stated of a
/// value already known to equal it.
pub proof fn lemma_sqrt_bounds(n: nat, r: nat)
    requires
        r == sqrt_floor(n),
    ensures
        r * r <= n,
        n < (r + 1) * (r + 1),
{
    lemma_sqrt_floor(n);
}

/// A quotient of bounded numerator over a positive divisor is itself bounded:
/// |a| <= d implies |trunc(a * c / d)| <= c.
pub proof fn lemma_div_trunc_scale_bound(a: int, c: int, d: int)
    requires
        d >= 1,
        -d <= a <= d,
        c >= 0,
    ensures
        -c <= div_trunc(a * c, d) <= c,
{
    if a >= 0 {
        assert(a * c <= d * c) by (nonlinear_arith)
            requires
                0 <= a <= d,
                c >= 0,
        ;
        assert(a * c >= 0) by (nonlinear_arith)
            requires
                a >= 0,
                c >= 0,
        ;
        lemma_div_is_ordered(a * c, d * c, d);
        assert((d * c) / d == c) by (nonlinear_arith)
            requires
                d >= 1,
        ;
        vstd::arithmetic::div_mod::lemma_div_pos_is_pos(a * c, d);
    } else {
        assert((-a) * c <= d * c) by (nonlinear_arith)
            requires
                0 <= -a <= d,
                c >= 0,
        ;
        assert((-a) * c >= 0) by (nonlinear_arith)
            requires
                -a >= 0,
                c >= 0,
        ;
        lemma_div_is_ordered((-a) * c, d * c, d);
        assert((d * c) / d == c) by (nonlinear_arith)
            requires
                d >= 1,
        ;
        vstd::arithmetic::div_mod::lemma_div_pos_is_pos((-a) * c, d);
        assert(a * c == -((-a) * c)) by (nonlinear_arith);
    }
}

} // verus!
