//! Fixed-point 3D vectors: distances, the sphere-projection step used by the
//! reach passes, and the orthonormal-basis construction for segment frames.

use vstd::prelude::*;

verus! {

use crate::fx::{
    clamp_i, div_trunc, sqrt_floor, lemma_sqrt_floor, lemma_sqrt_bounds,
    lemma_div_trunc_scale_bound, clamp_coord, div_trunc_i128, isqrt_u128, COORD_LIMIT, FX_ONE,
    LEN_LIMIT,
};

/// A point or vector in 16.16 fixed-point world coordinates.
#[derive(Clone, Copy, Debug, PartialEq, Eq, Structural)]
pub struct Vec3Fx {
    pub x: i64,
    pub y: i64,
    pub z: i64,
}

/// A rigid frame for one segment: its midpoint and the three columns of its
/// orientation matrix, each a fixed-point unit vector. The fixed quarter-turn
/// correction about the segment's local axis is already folded into the
/// columns.
#[derive(Clone, Copy, Debug, PartialEq, Eq, Structural)]
pub struct SegmentTransform {
    pub translation: Vec3Fx,
    pub axis_x: Vec3Fx,
    pub axis_y: Vec3Fx,
    pub axis_z: Vec3Fx,
}

impl Vec3Fx {
    /// Every stored coordinate stays inside the representable range.
    pub open spec fn bounded(self) -> bool {
        &&& -COORD_LIMIT <= self.x <= COORD_LIMIT
        &&& -COORD_LIMIT <= self.y <= COORD_LIMIT
        &&& -COORD_LIMIT <= self.z <= COORD_LIMIT
    }
}

/// The origin.
pub open spec fn zero_spec() -> Vec3Fx {
    Vec3Fx { x: 0, y: 0, z: 0 }
}

/// The unit vector along the world x axis.
pub open spec fn unit_x_spec() -> Vec3Fx {
    Vec3Fx { x: FX_ONE, y: 0, z: 0 }
}

/// The unit vector along the world z axis.
pub open spec fn unit_z_spec() -> Vec3Fx {
    Vec3Fx { x: 0, y: 0, z: FX_ONE }
}

/// The fixed world-up vector that frame derivation crosses against.
pub open spec fn up_spec() -> Vec3Fx {
    Vec3Fx { x: 0, y: FX_ONE, z: 0 }
}

/// The origin, as executable code.
pub fn zero_vec() -> (r: Vec3Fx)
    ensures
        r == zero_spec(),
{
    Vec3Fx { x: 0, y: 0, z: 0 }
}

/// Squared distance between two points, as an unbounded integer.
pub open spec fn dist_sq_spec(a: Vec3Fx, b: Vec3Fx) -> int {
    let dx = a.x - b.x;
    let dy = a.y - b.y;
    let dz = a.z - b.z;
    dx * dx + dy * dy + dz * dz
}

/// Distance between two points: the floor of the square root of the squared
/// distance, still in fixed-point units.
pub open spec fn dist_spec(a: Vec3Fx, b: Vec3Fx) -> int {
    sqrt_floor(dist_sq_spec(a, b) as nat) as int
}

/// A coordinate triple clamped into range and stored as a vector.
pub open spec fn clamp_v_spec(x: int, y: int, z: int) -> Vec3Fx {
    Vec3Fx { x: clamp_i(x) as i64, y: clamp_i(y) as i64, z: clamp_i(z) as i64 }
}

/// Whether every component's magnitude stays within `m`.
pub open spec fn comps_within(v: Vec3Fx, m: int) -> bool {
    &&& -m <= v.x <= m
    &&& -m <= v.y <= m
    &&& -m <= v.z <= m
}

/// The square of a difference of bounded coordinates is non-negative and
/// small enough for all downstream 128-bit arithmetic.
pub proof fn lemma_diff_sq_range(a: int, b: int)
    requires
        -281474976710656 <= a <= 281474976710656,
        -281474976710656 <= b <= 281474976710656,
    ensures
        0 <= (a - b) * (a - b) <= 316912650057057350374175801344,
{
    assert(0 <= (a - b) * (a - b) <= 316912650057057350374175801344) by (nonlinear_arith)
        requires
            -562949953421312 <= a - b <= 562949953421312,
    ;
}

/// Squared distances of bounded points are non-negative and bounded, term by
/// term.
pub proof fn lemma_dist_sq_range(a: Vec3Fx, b: Vec3Fx)
    requires
        a.bounded(),
        b.bounded(),
    ensures
        0 <= (a.x - b.x) * (a.x - b.x) <= 316912650057057350374175801344,
        0 <= (a.y - b.y) * (a.y - b.y) <= 316912650057057350374175801344,
        0 <= (a.z - b.z) * (a.z - b.z) <= 316912650057057350374175801344,
        0 <= dist_sq_spec(a, b) <= 950737950171172051122527404032,
{
    lemma_diff_sq_range(a.x as int, b.x as int);
    lemma_diff_sq_range(a.y as int, b.y as int);
    lemma_diff_sq_range(a.z as int, b.z as int);
}

/// The distance between bounded points never exceeds `LEN_LIMIT`.
pub proof fn lemma_dist_range(a: Vec3Fx, b: Vec3Fx)
    requires
        a.bounded(),
        b.bounded(),
    ensures
        0 <= dist_spec(a, b) <= LEN_LIMIT,
{
    lemma_dist_sq_range(a, b);
    let ds = dist_sq_spec(a, b) as nat;
    lemma_sqrt_floor(ds);
    let r = sqrt_floor(ds);
    assert(r <= LEN_LIMIT) by (nonlinear_arith)
        requires
            r * r <= ds,
            ds <= 950737950171172051122527404032nat,
    ;
}

/// The squared distance is zero exactly when the points coincide.
pub proof fn lemma_dist_sq_zero(a: Vec3Fx, b: Vec3Fx)
    ensures
        (dist_sq_spec(a, b) == 0) <==> (a.x == b.x && a.y == b.y && a.z == b.z),
{
    let dx = a.x - b.x;
    let dy = a.y - b.y;
    let dz = a.z - b.z;
    assert((dx * dx + dy * dy + dz * dz == 0) <==> (dx == 0 && dy == 0 && dz == 0))
        by (nonlinear_arith);
}

/// `sqrt_floor` is zero exactly on zero.
pub proof fn lemma_sqrt_zero(n: nat)
    ensures
        (sqrt_floor(n) == 0) <==> (n == 0),
{
    lemma_sqrt_floor(n);
    if sqrt_floor(n) == 0 {
        assert(n == 0) by (nonlinear_arith)
            requires
                n < (sqrt_floor(n) + 1) * (sqrt_floor(n) + 1),
                sqrt_floor(n) == 0,
        ;
    }
    if n == 0 {
        assert(sqrt_floor(n) == 0);
    }
}

/// Distance between two bounded points.
pub fn dist_fx(a: Vec3Fx, b: Vec3Fx) -> (r: i64)
    requires
        a.bounded(),
        b.bounded(),
    ensures
        r as int == dist_spec(a, b),
        0 <= r <= LEN_LIMIT,
{
    proof {
        lemma_dist_sq_range(a, b);
        lemma_dist_range(a, b);
    }
    let dx = a.x as i128 - b.x as i128;
    let dy = a.y as i128 - b.y as i128;
    let dz = a.z as i128 - b.z as i128;
    let ds = dx * dx + dy * dy + dz * dz;
    assert(ds == dist_sq_spec(a, b));
    let r = isqrt_u128(ds as u128);
    r as i64
}

/// Where a reach pass puts a joint: `len` away from `anchor`, along the
/// direction from `anchor` toward `toward`, with truncating fixed-point
/// rounding and coordinate clamping. `None` when the two points coincide, so
/// that no direction exists.
pub open spec fn place_spec(anchor: Vec3Fx, toward: Vec3Fx, len: i64) -> Option<Vec3Fx> {
    let dx = toward.x - anchor.x;
    let dy = toward.y - anchor.y;
    let dz = toward.z - anchor.z;
    let ds = dx * dx + dy * dy + dz * dz;
    if ds == 0 {
        None
    } else {
        let d = sqrt_floor(ds as nat) as int;
        Some(
            clamp_v_spec(
                anchor.x + div_trunc(dx * len, d),
                anchor.y + div_trunc(dy * len, d),
                anchor.z + div_trunc(dz * len, d),
            ),
        )
    }
}

/// A product of a coordinate difference and a segment length stays far
/// inside 128 bits.
proof fn lemma_diff_len_product(a: int, l: int)
    requires
        -562949953421312 <= a <= 562949953421312,
        0 <= l <= 1125899906842624,
    ensures
        -633825300114114700748351602688 <= a * l <= 633825300114114700748351602688,
{
    assert(-633825300114114700748351602688 <= a * l <= 633825300114114700748351602688)
        by (nonlinear_arith)
        requires
            -562949953421312 <= a <= 562949953421312,
            0 <= l <= 1125899906842624,
    ;
}

/// Executable sphere projection for the reach passes.
pub fn place_at_distance(anchor: Vec3Fx, toward: Vec3Fx, len: i64) -> (r: Option<Vec3Fx>)
    requires
        anchor.bounded(),
        toward.bounded(),
        0 <= len <= LEN_LIMIT,
    ensures
        r == place_spec(anchor, toward, len),
        r matches Some(p) ==> p.bounded(),
{
    proof {
        lemma_dist_sq_range(toward, anchor);
    }
    let dx = toward.x as i128 - anchor.x as i128;
    let dy = toward.y as i128 - anchor.y as i128;
    let dz = toward.z as i128 - anchor.z as i128;
    let ds = dx * dx + dy * dy + dz * dz;
    assert(ds == dist_sq_spec(toward, anchor));
    if ds == 0 {
        return None;
    }
    let d64 = isqrt_u128(ds as u128);
    let d = d64 as i128;
    proof {
        lemma_sqrt_zero(ds as nat);
        lemma_sqrt_bounds(ds as nat, d64 as nat);
        assert(d64 as int <= 1125899906842624) by (nonlinear_arith)
            requires
                (d64 as nat) * (d64 as nat) <= ds,
                d64 as int >= 0,
                ds <= 950737950171172051122527404032,
        ;
        lemma_diff_len_product(dx as int, len as int);
        lemma_diff_len_product(dy as int, len as int);
        lemma_diff_len_product(dz as int, len as int);
    }
    let ox = div_trunc_i128(dx * (len as i128), d);
    let oy = div_trunc_i128(dy * (len as i128), d);
    let oz = div_trunc_i128(dz * (len as i128), d);
    proof {
        lemma_div_magnitude(dx * (len as i128) as int, d as int);
        lemma_div_magnitude(dy * (len as i128) as int, d as int);
        lemma_div_magnitude(dz * (len as i128) as int, d as int);
    }
    let nx = anchor.x as i128 + ox;
    let ny = anchor.y as i128 + oy;
    let nz = anchor.z as i128 + oz;
    Some(Vec3Fx { x: clamp_coord(nx), y: clamp_coord(ny), z: clamp_coord(nz) })
}

/// The magnitude of a truncating quotient never exceeds the numerator's.
pub proof fn lemma_div_magnitude(a: int, d: int)
    requires
        d >= 1,
    ensures
        a >= 0 ==> 0 <= div_trunc(a, d) <= a,
        a < 0 ==> a <= div_trunc(a, d) <= 0,
{
    if a >= 0 {
        vstd::arithmetic::div_mod::lemma_div_nonincreasing(a, d);
        vstd::arithmetic::div_mod::lemma_div_pos_is_pos(a, d);
    } else {
        vstd::arithmetic::div_mod::lemma_div_nonincreasing(-a, d);
        vstd::arithmetic::div_mod::lemma_div_pos_is_pos(-a, d);
    }
}

/// The cross product of two small vectors, over unbounded integers.
pub open spec fn cross_spec(u: Vec3Fx, v: Vec3Fx) -> (int, int, int) {
    (u.y * v.z - u.z * v.y, u.z * v.x - u.x * v.z, u.x * v.y - u.y * v.x)
}

/// Executable cross product of component-bounded vectors.
pub fn cross(u: Vec3Fx, v: Vec3Fx) -> (r: (i64, i64, i64))
    requires
        comps_within(u, 2 * FX_ONE as int),
        comps_within(v, 2 * FX_ONE as int),
    ensures
        (r.0 as int, r.1 as int, r.2 as int) == cross_spec(u, v),
        -LEN_LIMIT <= r.0 <= LEN_LIMIT,
        -LEN_LIMIT <= r.1 <= LEN_LIMIT,
        -LEN_LIMIT <= r.2 <= LEN_LIMIT,
{
    proof {
        lemma_cross_term(u.y as int, v.z as int);
        lemma_cross_term(u.z as int, v.y as int);
        lemma_cross_term(u.z as int, v.x as int);
        lemma_cross_term(u.x as int, v.z as int);
        lemma_cross_term(u.x as int, v.y as int);
        lemma_cross_term(u.y as int, v.x as int);
    }
    let cx = u.y * v.z - u.z * v.y;
    let cy = u.z * v.x - u.x * v.z;
    let cz = u.x * v.y - u.y * v.x;
    (cx, cy, cz)
}

/// A product of two components bounded by two units stays tiny.
proof fn lemma_cross_term(a: int, b: int)
    requires
        -131072 <= a <= 131072,
        -131072 <= b <= 131072,
    ensures
        -17179869184 <= a * b <= 17179869184,
{
    assert(-17179869184 <= a * b <= 17179869184) by (nonlinear_arith)
        requires
            -131072 <= a <= 131072,
            -131072 <= b <= 131072,
    ;
}

/// A vector scaled to unit length in fixed point, by truncating division, or
/// the given fallback when the input is the zero vector.
pub open spec fn normalize_or_spec(x: int, y: int, z: int, fallback: Vec3Fx) -> Vec3Fx {
    if x == 0 && y == 0 && z == 0 {
        fallback
    } else {
        let m = sqrt_floor((x * x + y * y + z * z) as nat) as int;
        Vec3Fx {
            x: div_trunc(x * FX_ONE, m) as i64,
            y: div_trunc(y * FX_ONE, m) as i64,
            z: div_trunc(z * FX_ONE, m) as i64,
        }
    }
}

/// The square of a length-bounded value fits far inside 128 bits.
proof fn lemma_sq_small(a: int)
    requires
        -1125899906842624 <= a <= 1125899906842624,
    ensures
        0 <= a * a <= 1267650600228229401496703205376,
{
    assert(0 <= a * a <= 1267650600228229401496703205376) by (nonlinear_arith)
        requires
            -1125899906842624 <= a <= 1125899906842624,
    ;
}

/// Each component of a vector is bounded in magnitude by the floor of the
/// vector's norm, when the squared norm is positive.
pub proof fn lemma_comp_le_norm(a: int, ms: int, m: nat)
    requires
        ms > 0,
        a * a <= ms,
        m == sqrt_floor(ms as nat),
    ensures
        1 <= m,
        -(m as int) <= a <= m as int,
{
    lemma_sqrt_bounds(ms as nat, m);
    assert(1 <= m && -(m as int) <= a <= m as int) by (nonlinear_arith)
        requires
            ms > 0,
            a * a <= ms,
            m * m <= ms,
            ms < (m + 1) * (m + 1),
    ;
}

/// Executable normalization with a fallback for the zero vector.
pub fn normalize_or(x: i64, y: i64, z: i64, fallback: Vec3Fx) -> (r: Vec3Fx)
    requires
        -LEN_LIMIT <= x <= LEN_LIMIT,
        -LEN_LIMIT <= y <= LEN_LIMIT,
        -LEN_LIMIT <= z <= LEN_LIMIT,
        comps_within(fallback, FX_ONE as int),
    ensures
        r == normalize_or_spec(x as int, y as int, z as int, fallback),
        comps_within(r, FX_ONE as int),
{
    if x == 0 && y == 0 && z == 0 {
        return fallback;
    }
    let xl = x as i128;
    let yl = y as i128;
    let zl = z as i128;
    proof {
        lemma_sq_small(xl as int);
        lemma_sq_small(yl as int);
        lemma_sq_small(zl as int);
    }
    let ms = xl * xl + yl * yl + zl * zl;
    assert(ms > 0) by (nonlinear_arith)
        requires
            !(xl == 0 && yl == 0 && zl == 0),
            ms == xl * xl + yl * yl + zl * zl,
    ;
    let m64 = isqrt_u128(ms as u128);
    let m = m64 as i128;
    proof {
        lemma_comp_le_norm(xl as int, ms as int, m64 as nat);
        lemma_comp_le_norm(yl as int, ms as int, m64 as nat);
        lemma_comp_le_norm(zl as int, ms as int, m64 as nat);
        lemma_sqrt_bounds(ms as nat, m64 as nat);
        assert(m64 as int <= 2251799813685248) by (nonlinear_arith)
            requires
                (m64 as nat) * (m64 as nat) <= ms,
                m64 as int >= 0,
                ms <= 3802951800684688604490109616128,
        ;
        lemma_div_trunc_scale_bound(xl as int, FX_ONE as int, m as int);
        lemma_div_trunc_scale_bound(yl as int, FX_ONE as int, m as int);
        lemma_div_trunc_scale_bound(zl as int, FX_ONE as int, m as int);
        lemma_mul_fx(xl as int, m as int);
        lemma_mul_fx(yl as int, m as int);
        lemma_mul_fx(zl as int, m as int);
    }
    let nx = div_trunc_i128(xl * (FX_ONE as i128), m);
    let ny = div_trunc_i128(yl * (FX_ONE as i128), m);
    let nz = div_trunc_i128(zl * (FX_ONE as i128), m);
    Vec3Fx { x: nx as i64, y: ny as i64, z: nz as i64 }
}

/// Scaling a component bounded by its norm by one fixed-point unit stays far
/// inside 128 bits.
proof fn lemma_mul_fx(a: int, m: int)
    requires
        -m <= a <= m,
        1 <= m <= 2251799813685248,
    ensures
        -147573952589676412928 <= a * 65536 <= 147573952589676412928,
{
    assert(-147573952589676412928 <= a * 65536 <= 147573952589676412928) by (nonlinear_arith)
        requires
            -2251799813685248 <= a <= 2251799813685248,
    ;
}

/// The unit direction from `a` toward `b`, or the world x axis when the two
/// points coincide (the defined fallback for a degenerate segment direction).
pub open spec fn dir_or_axis_spec(a: Vec3Fx, b: Vec3Fx) -> Vec3Fx {
    normalize_or_spec(b.x - a.x, b.y - a.y, b.z - a.z, unit_x_spec())
}

/// Executable direction with the degenerate-axis fallback.
pub fn dir_or_axis(a: Vec3Fx, b: Vec3Fx) -> (r: Vec3Fx)
    requires
        a.bounded(),
        b.bounded(),
    ensures
        r == dir_or_axis_spec(a, b),
        comps_within(r, FX_ONE as int),
{
    let dx = b.x - a.x;
    let dy = b.y - a.y;
    let dz = b.z - a.z;
    normalize_or(dx, dy, dz, Vec3Fx { x: FX_ONE, y: 0, z: 0 })
}

/// The midpoint of two points, truncating toward zero.
pub open spec fn midpoint_spec(a: Vec3Fx, b: Vec3Fx) -> Vec3Fx {
    Vec3Fx {
        x: div_trunc(a.x + b.x, 2) as i64,
        y: div_trunc(a.y + b.y, 2) as i64,
        z: div_trunc(a.z + b.z, 2) as i64,
    }
}

/// Component-wise negation of a small vector.
pub open spec fn neg_spec(v: Vec3Fx) -> Vec3Fx {
    Vec3Fx { x: (-(v.x as int)) as i64, y: (-(v.y as int)) as i64, z: (-(v.z as int)) as i64 }
}

/// The frame of the segment between consecutive joints `prev` and `cur`:
/// positioned at the segment midpoint, with a basis built by crossing the
/// segment direction against world up (with defined fallbacks for the
/// degenerate parallel and zero-direction cases), and the fixed quarter-turn
/// correction folded in by the column permutation.
pub open spec fn frame_spec(prev: Vec3Fx, cur: Vec3Fx) -> SegmentTransform {
    let dir = dir_or_axis_spec(cur, prev);
    let pr = cross_spec(dir, up_spec());
    let perp = normalize_or_spec(pr.0, pr.1, pr.2, unit_x_spec());
    let p2r = cross_spec(dir, perp);
    let perp2 = normalize_or_spec(p2r.0, p2r.1, p2r.2, unit_z_spec());
    SegmentTransform {
        translation: midpoint_spec(cur, prev),
        axis_x: perp,
        axis_y: neg_spec(dir),
        axis_z: perp2,
    }
}

/// Executable frame construction for one segment.
pub fn build_frame(prev: Vec3Fx, cur: Vec3Fx) -> (r: SegmentTransform)
    requires
        prev.bounded(),
        cur.bounded(),
    ensures
        r == frame_spec(prev, cur),
{
    let dir = dir_or_axis(cur, prev);
    let pr = cross(dir, Vec3Fx { x: 0, y: FX_ONE, z: 0 });
    let perp = normalize_or(pr.0, pr.1, pr.2, Vec3Fx { x: FX_ONE, y: 0, z: 0 });
    let p2r = cross(dir, perp);
    let perp2 = normalize_or(p2r.0, p2r.1, p2r.2, Vec3Fx { x: 0, y: 0, z: FX_ONE });
    let tx = div_trunc_i128(cur.x as i128 + prev.x as i128, 2);
    let ty = div_trunc_i128(cur.y as i128 + prev.y as i128, 2);
    let tz = div_trunc_i128(cur.z as i128 + prev.z as i128, 2);
    proof {
        lemma_div_magnitude(cur.x + prev.x, 2);
        lemma_div_magnitude(cur.y + prev.y, 2);
        lemma_div_magnitude(cur.z + prev.z, 2);
    }
    SegmentTransform {
        translation: Vec3Fx { x: tx as i64, y: ty as i64, z: tz as i64 },
        axis_x: perp,
        axis_y: Vec3Fx { x: -dir.x, y: -dir.y, z: -dir.z },
        axis_z: perp2,
    }
}

/// Half-way linear interpolation from `c` toward `p`, the damped correction
/// step, truncating toward zero and clamping.
pub open spec fn half_step_spec(c: Vec3Fx, p: Vec3Fx) -> Vec3Fx {
    clamp_v_spec(
        c.x + div_trunc(p.x - c.x, 2),
        c.y + div_trunc(p.y - c.y, 2),
        c.z + div_trunc(p.z - c.z, 2),
    )
}

/// Executable half step toward a preview position.
pub fn half_step(c: Vec3Fx, p: Vec3Fx) -> (r: Vec3Fx)
    requires
        c.bounded(),
        p.bounded(),
    ensures
        r == half_step_spec(c, p),
        r.bounded(),
{
    let hx = div_trunc_i128(p.x as i128 - c.x as i128, 2);
    let hy = div_trunc_i128(p.y as i128 - c.y as i128, 2);
    let hz = div_trunc_i128(p.z as i128 - c.z as i128, 2);
    proof {
        lemma_div_magnitude(p.x - c.x, 2);
        lemma_div_magnitude(p.y - c.y, 2);
        lemma_div_magnitude(p.z - c.z, 2);
    }
    Vec3Fx {
        x: clamp_coord(c.x as i128 + hx),
        y: clamp_coord(c.y as i128 + hy),
        z: clamp_coord(c.z as i128 + hz),
    }
}

/// A vector with every coordinate clamped into the representable range.
pub open spec fn clamp_vec_spec(v: Vec3Fx) -> Vec3Fx {
    clamp_v_spec(v.x as int, v.y as int, v.z as int)
}

/// Executable coordinate clamping.
pub fn clamp_vec(v: Vec3Fx) -> (r: Vec3Fx)
    ensures
        r == clamp_vec_spec(v),
        r.bounded(),
{
    Vec3Fx {
        x: clamp_coord(v.x as i128),
        y: clamp_coord(v.y as i128),
        z: clamp_coord(v.z as i128),
    }
}

} // verus!
