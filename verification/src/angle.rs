//! Bend-angle derivation: the fixed-point arccosine of the angle between the
//! two segment directions meeting at an interior joint, computed through a
//! rational arctangent approximation.

use vstd::prelude::*;

verus! {

use crate::fx::{
    div_trunc, sqrt_floor, lemma_sqrt_bounds, isqrt_u128, div_trunc_i128, FX_ONE, HALF_PI_FX,
    PI_FX,
};
use crate::vec3::{lemma_dist_sq_range, lemma_sqrt_zero, Vec3Fx};

/// The arctangent of `t / FX_ONE` for `t` in [0, FX_ONE], by the rational
/// approximation `atan(t) ~ t / (1 + 0.28 t^2)`, in fixed point.
pub open spec fn atan_poly_spec(t: int) -> int
    recommends
        0 <= t <= FX_ONE,
{
    (t * (FX_ONE as int)) / ((FX_ONE as int) + ((t * t) / (FX_ONE as int)) * 28 / 100)
}

/// The angle of the point `(x, y)` in the first quadrant, between 0 and
/// pi / 2, folding the arctangent approximation across the diagonal.
pub open spec fn atan2_frac_spec(y: int, x: int) -> int
    recommends
        0 <= y <= FX_ONE,
        0 <= x <= FX_ONE,
{
    if y == 0 && x == 0 {
        0
    } else if y <= x {
        atan_poly_spec((y * (FX_ONE as int)) / x)
    } else {
        (HALF_PI_FX as int) - atan_poly_spec((x * (FX_ONE as int)) / y)
    }
}

/// The angle with cosine `c` (fixed point, in [-FX_ONE, FX_ONE]) and
/// non-negative sine magnitude `s`, between 0 and pi.
pub open spec fn angle_full_spec(c: int, s: int) -> int
    recommends
        -FX_ONE <= c <= FX_ONE,
        0 <= s <= FX_ONE,
{
    if c >= 0 {
        atan2_frac_spec(s, c)
    } else {
        (PI_FX as int) - atan2_frac_spec(s, -c)
    }
}

/// An angle clamped into [0, pi].
pub open spec fn clamp_angle(a: int) -> int {
    if a < 0 {
        0
    } else if a > PI_FX {
        PI_FX as int
    } else {
        a
    }
}

/// The bend angle at joint `b` between its neighbours `a` and `c`: the angle
/// between the vectors from `b` to `a` and from `b` to `c`, derived from
/// their dot product through the fixed-point arccosine. When either vector
/// is zero (coinciding joints) the angle falls back to pi, the straight
/// configuration.
pub open spec fn interior_angle_spec(a: Vec3Fx, b: Vec3Fx, c: Vec3Fx) -> i64 {
    let ux = a.x - b.x;
    let uy = a.y - b.y;
    let uz = a.z - b.z;
    let vx = c.x - b.x;
    let vy = c.y - b.y;
    let vz = c.z - b.z;
    let usq = ux * ux + uy * uy + uz * uz;
    let vsq = vx * vx + vy * vy + vz * vz;
    if usq == 0 || vsq == 0 {
        PI_FX
    } else {
        let na = sqrt_floor(usq as nat) as int;
        let nb = sqrt_floor(vsq as nat) as int;
        let dt = ux * vx + uy * vy + uz * vz;
        let c0 = div_trunc(dt * FX_ONE, na * nb);
        let cc = if c0 > FX_ONE {
            FX_ONE as int
        } else if c0 < -FX_ONE {
            -(FX_ONE as int)
        } else {
            c0
        };
        let s = sqrt_floor((4294967296 - cc * cc) as nat) as int;
        clamp_angle(angle_full_spec(cc, s)) as i64
    }
}

/// Executable arctangent approximation.
pub fn atan_poly(t: u64) -> (r: u64)
    requires
        t <= 65536,
    ensures
        r as int == atan_poly_spec(t as int),
        r <= t,
{
    proof {
        lemma_small_sq(t as int);
    }
    let t2 = (t * t) / 65536;
    let q = 65536 + (t2 * 28) / 100;
    let r = (t * 65536) / q;
    proof {
        vstd::arithmetic::div_mod::lemma_div_is_ordered_by_denominator(
            (t * 65536) as int,
            65536,
            q as int,
        );
    }
    r
}

/// The square of a value at most one fixed-point unit.
proof fn lemma_small_sq(t: int)
    requires
        0 <= t <= 65536,
    ensures
        0 <= t * t <= 4294967296,
{
    assert(0 <= t * t <= 4294967296) by (nonlinear_arith)
        requires
            0 <= t <= 65536,
    ;
}

/// Executable first-quadrant angle.
pub fn atan2_frac(y: u64, x: u64) -> (r: u64)
    requires
        y <= 65536,
        x <= 65536,
    ensures
        r as int == atan2_frac_spec(y as int, x as int),
        r <= HALF_PI_FX,
{
    if y == 0 && x == 0 {
        return 0;
    }
    if y <= x {
        let t = (y * 65536) / x;
        proof {
            lemma_frac_le_one(y as int, x as int);
        }
        atan_poly(t)
    } else {
        let t = (x * 65536) / y;
        proof {
            lemma_frac_le_one(x as int, y as int);
        }
        let p = atan_poly(t);
        102943 - p
    }
}

/// A scaled quotient of a smaller value over a larger one stays at or below
/// one fixed-point unit.
proof fn lemma_frac_le_one(y: int, x: int)
    requires
        0 <= y <= x,
        x >= 1,
    ensures
        0 <= (y * 65536) / x <= 65536,
{
    assert(0 <= (y * 65536) / x <= 65536) by (nonlinear_arith)
        requires
            0 <= y <= x,
            x >= 1,
    ;
}

/// Executable bend angle at joint `b`.
pub fn interior_angle(a: Vec3Fx, b: Vec3Fx, c: Vec3Fx) -> (r: i64)
    requires
        a.bounded(),
        b.bounded(),
        c.bounded(),
    ensures
        r == interior_angle_spec(a, b, c),
        0 <= r <= PI_FX,
{
    proof {
        lemma_dist_sq_range(a, b);
        lemma_dist_sq_range(c, b);
    }
    let ux = a.x as i128 - b.x as i128;
    let uy = a.y as i128 - b.y as i128;
    let uz = a.z as i128 - b.z as i128;
    let vx = c.x as i128 - b.x as i128;
    let vy = c.y as i128 - b.y as i128;
    let vz = c.z as i128 - b.z as i128;
    let usq = ux * ux + uy * uy + uz * uz;
    let vsq = vx * vx + vy * vy + vz * vz;
    if usq == 0 || vsq == 0 {
        return PI_FX;
    }
    let na = isqrt_u128(usq as u128);
    let nb = isqrt_u128(vsq as u128);
    proof {
        lemma_sqrt_zero(usq as nat);
        lemma_sqrt_zero(vsq as nat);
        lemma_sqrt_bounds(usq as nat, na as nat);
        lemma_sqrt_bounds(vsq as nat, nb as nat);
        lemma_norm_small(na as int, usq as int);
        lemma_norm_small(nb as int, vsq as int);
        lemma_dot_term(ux as int, vx as int);
        lemma_dot_term(uy as int, vy as int);
        lemma_dot_term(uz as int, vz as int);
        lemma_norm_product(na as int, nb as int);
    }
    let dt = ux * vx + uy * vy + uz * vz;
    let den = (na as i128) * (nb as i128);
    let c0 = div_trunc_i128(dt * 65536, den);
    let cc: i64 = if c0 > 65536 {
        65536
    } else if c0 < -65536 {
        -65536
    } else {
        c0 as i64
    };
    proof {
        lemma_small_sq_signed(cc as int);
    }
    let ssq = 4294967296i128 - (cc as i128) * (cc as i128);
    let s = isqrt_u128(ssq as u128);
    proof {
        lemma_sqrt_bounds(ssq as nat, s as nat);
        assert(s as int <= 65536) by (nonlinear_arith)
            requires
                (s as nat) * (s as nat) <= ssq,
                s as int >= 0,
                ssq <= 4294967296,
        ;
    }
    let raw: i64 = if cc >= 0 {
        atan2_frac(s, cc as u64) as i64
    } else {
        PI_FX - (atan2_frac(s, (-cc) as u64) as i64)
    };
    if raw < 0 {
        0
    } else if raw > PI_FX {
        PI_FX
    } else {
        raw
    }
}

/// The floor of a norm of a bounded squared length stays below 2^50, and is
/// at least one when the squared length is positive.
proof fn lemma_norm_small(n: int, sq: int)
    requires
        n >= 0,
        n * n <= sq,
        sq < (n + 1) * (n + 1),
        1 <= sq <= 950737950171172051122527404032,
    ensures
        1 <= n <= 1125899906842624,
{
    assert(1 <= n <= 1125899906842624) by (nonlinear_arith)
        requires
            n >= 0,
            n * n <= sq,
            sq < (n + 1) * (n + 1),
            1 <= sq <= 950737950171172051122527404032,
    ;
}

/// A product of two coordinate differences stays far inside 128 bits.
proof fn lemma_dot_term(p: int, q: int)
    requires
        -562949953421312 <= p <= 562949953421312,
        -562949953421312 <= q <= 562949953421312,
    ensures
        -316912650057057350374175801344 <= p * q <= 316912650057057350374175801344,
{
    assert(-316912650057057350374175801344 <= p * q <= 316912650057057350374175801344)
        by (nonlinear_arith)
        requires
            -562949953421312 <= p <= 562949953421312,
            -562949953421312 <= q <= 562949953421312,
    ;
}

/// A product of two norm floors stays far inside 128 bits.
proof fn lemma_norm_product(na: int, nb: int)
    requires
        1 <= na <= 1125899906842624,
        1 <= nb <= 1125899906842624,
    ensures
        1 <= na * nb <= 1267650600228229401496703205376,
{
    assert(1 <= na * nb <= 1267650600228229401496703205376) by (nonlinear_arith)
        requires
            1 <= na <= 1125899906842624,
            1 <= nb <= 1125899906842624,
    ;
}

/// The square of a clamped cosine.
proof fn lemma_small_sq_signed(cc: int)
    requires
        -65536 <= cc <= 65536,
    ensures
        0 <= cc * cc <= 4294967296,
{
    assert(0 <= cc * cc <= 4294967296) by (nonlinear_arith)
        requires
            -65536 <= cc <= 65536,
    ;
}

} // verus!
