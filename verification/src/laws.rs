//! The library's cross-cutting guarantees, each stated once over the spec
//! functions that the operations' contracts use.

use vstd::prelude::*;

verus! {

use vstd::arithmetic::div_mod::{lemma_fundamental_div_mod, lemma_mod_bound};
use vstd::math::abs;

use crate::chain::{
    angles_spec, bwd_partial, bwd_pass_spec, fwd_partial, fwd_pass_spec, lemma_rounds_props,
    rounds_spec, vel_seq_spec, FabrikChain,
};
use crate::fx::{
    div_trunc, lemma_div_trunc_scale_bound, lemma_sqrt_bounds, sqrt_floor, COORD_LIMIT, LEN_LIMIT,
    PI_FX,
};
use crate::vec3::{
    comps_within, dist_spec, dist_sq_spec, lemma_comp_le_norm, lemma_dist_sq_range,
    lemma_sqrt_zero, place_spec, zero_spec, Vec3Fx,
};

/// How many preview layers a chain carries: one when a preview snapshot is
/// present, zero otherwise. A preview is a bare `ChainState`, which has no
/// preview field, so deeper nesting cannot even be expressed.
pub open spec fn preview_depth(c: FabrikChain) -> int {
    if c.preview is Some {
        1
    } else {
        0
    }
}

/// Commit nesting bound: no chain, however many commits have refreshed its
/// preview, ever holds more than one level of preview snapshot.
pub proof fn lemma_commit_nesting_bound(c: FabrikChain)
    ensures
        preview_depth(c) <= 1,
{
}

/// Ground anchoring: with the ground lock on, any positive number of
/// completed solve rounds leaves the root joint exactly at the origin.
pub proof fn lemma_ground_anchoring(
    js: Seq<Vec3Fx>,
    lens: Seq<i64>,
    ts: Seq<(usize, Vec3Fx)>,
    k: nat,
    s: Seq<Vec3Fx>,
)
    requires
        js.len() >= 2,
        lens.len() == js.len() - 1,
        forall|i: int| 0 <= i < ts.len() ==> (#[trigger] ts[i]).0 < js.len(),
        k >= 1,
        rounds_spec(js, lens, ts, true, k) == Option::Some(s),
    ensures
        s[0] == zero_spec(),
{
    lemma_rounds_props(js, lens, ts, true, k);
}

/// Boundary angle invariant: every recomputed angle set has one entry per
/// joint and fixes the first and last entries at pi exactly.
pub proof fn lemma_boundary_angles(js: Seq<Vec3Fx>)
    requires
        js.len() >= 2,
    ensures
        angles_spec(js).len() == js.len(),
        angles_spec(js)[0] == PI_FX,
        angles_spec(js)[js.len() - 1] == PI_FX,
{
}

/// First-tick velocity: with no previous angle set recorded, velocity
/// derivation yields the empty sequence rather than failing.
pub proof fn lemma_first_tick_velocity(angles: Seq<i64>, e: int)
    ensures
        vel_seq_spec(angles, Seq::<i64>::empty(), e) == Seq::<i64>::empty(),
{
    assert(vel_seq_spec(angles, Seq::<i64>::empty(), e) =~= Seq::<i64>::empty());
}

/// The two square bounds that truncating division toward zero gives: the
/// quotient times the divisor brackets the dividend, in squared form, which
/// is indifferent to sign.
proof fn lemma_step_sq(a: int, dd: int, o: int)
    requires
        dd >= 1,
        o == div_trunc(a, dd),
    ensures
        (dd * dd) * (o * o) <= a * a,
        a * a < (dd * dd) * ((abs(o) + 1) * (abs(o) + 1)),
        o * o == abs(o) * abs(o),
{
    if a >= 0 {
        lemma_fundamental_div_mod(a, dd);
        lemma_mod_bound(a, dd);
        vstd::arithmetic::div_mod::lemma_div_pos_is_pos(a, dd);
        assert(dd * o <= a && a < dd * (o + 1)) by (nonlinear_arith)
            requires
                a == dd * (a / dd) + a % dd,
                0 <= a % dd < dd,
                o == a / dd,
        ;
        assert((dd * dd) * (o * o) <= a * a && a * a < (dd * dd) * ((o + 1) * (o + 1)))
            by (nonlinear_arith)
            requires
                0 <= o,
                1 <= dd,
                dd * o <= a,
                a < dd * (o + 1),
        ;
        assert(abs(o) == o);
    } else {
        let m = (-a) / dd;
        lemma_fundamental_div_mod(-a, dd);
        lemma_mod_bound(-a, dd);
        vstd::arithmetic::div_mod::lemma_div_pos_is_pos(-a, dd);
        assert(o == -m);
        assert(dd * m <= -a && -a < dd * (m + 1)) by (nonlinear_arith)
            requires
                -a == dd * ((-a) / dd) + (-a) % dd,
                0 <= (-a) % dd < dd,
                m == (-a) / dd,
        ;
        assert((dd * dd) * (m * m) <= a * a && a * a < (dd * dd) * ((m + 1) * (m + 1)))
            by (nonlinear_arith)
            requires
                0 <= m,
                1 <= dd,
                dd * m <= -a,
                -a < dd * (m + 1),
        ;
        assert(abs(o) == m);
        assert(o * o == m * m) by (nonlinear_arith)
            requires
                o == -m,
        ;
    }
}

/// Length preservation: when a reach-pass step completes (the two joints do
/// not coincide) and the anchor leaves room inside the coordinate range for
/// the segment length, the repositioned joint's distance from the anchor
/// matches the recorded length to within three fixed-point units from below,
/// and to within the truncated ratio of the length to the joints' previous
/// distance from above. In particular, when the pair was at least the
/// segment's length apart, the distance lands within four fixed-point units
/// (about six hundred-thousandths of a world unit) of the recorded length.
pub proof fn lemma_reach_length_preservation(
    anchor: Vec3Fx,
    toward: Vec3Fx,
    len: i64,
    p: Vec3Fx,
)
    requires
        anchor.bounded(),
        toward.bounded(),
        0 <= len <= LEN_LIMIT,
        comps_within(anchor, COORD_LIMIT - len as int),
        place_spec(anchor, toward, len) == Option::Some(p),
    ensures
        len - 3 <= dist_spec(p, anchor),
        dist_spec(p, anchor) <= len + (len as int) / dist_spec(toward, anchor),
        dist_spec(toward, anchor) >= len ==> len - 3 <= dist_spec(p, anchor) <= len + 1,
        anchor.x - len <= p.x <= anchor.x + len,
        anchor.y - len <= p.y <= anchor.y + len,
        anchor.z - len <= p.z <= anchor.z + len,
{
    let dx = toward.x - anchor.x;
    let dy = toward.y - anchor.y;
    let dz = toward.z - anchor.z;
    let ds = dx * dx + dy * dy + dz * dz;
    lemma_dist_sq_range(toward, anchor);
    assert(ds != 0);
    let ddn = sqrt_floor(ds as nat);
    let dd = ddn as int;
    lemma_sqrt_bounds(ds as nat, ddn);
    lemma_sqrt_zero(ds as nat);
    assert(dd >= 1);
    assert(dist_spec(toward, anchor) == dd);
    lemma_comp_le_norm(dx, ds, ddn);
    lemma_comp_le_norm(dy, ds, ddn);
    lemma_comp_le_norm(dz, ds, ddn);
    let ox = div_trunc(dx * len, dd);
    let oy = div_trunc(dy * len, dd);
    let oz = div_trunc(dz * len, dd);
    lemma_div_trunc_scale_bound(dx, len as int, dd);
    lemma_div_trunc_scale_bound(dy, len as int, dd);
    lemma_div_trunc_scale_bound(dz, len as int, dd);
    assert(p.x == anchor.x + ox && p.y == anchor.y + oy && p.z == anchor.z + oz);
    let s = dist_sq_spec(p, anchor);
    assert(s == ox * ox + oy * oy + oz * oz);
    let nnn = sqrt_floor(s as nat);
    let nn = nnn as int;
    lemma_step_sq(dx * len, dd, ox);
    lemma_step_sq(dy * len, dd, oy);
    lemma_step_sq(dz * len, dd, oz);
    assert((dx * len) * (dx * len) == (dx * dx) * (len * len)) by (nonlinear_arith);
    assert((dy * len) * (dy * len) == (dy * dy) * (len * len)) by (nonlinear_arith);
    assert((dz * len) * (dz * len) == (dz * dz) * (len * len)) by (nonlinear_arith);
    assert(s >= 0);
    lemma_sqrt_bounds(s as nat, nnn);
    assert(nn >= 0);
    // The scaled new offsets are bracketed by the scaled old offsets.
    assert((dd * dd) * s <= ds * (len * len)) by (nonlinear_arith)
        requires
            (dd * dd) * (ox * ox) <= (dx * dx) * (len * len),
            (dd * dd) * (oy * oy) <= (dy * dy) * (len * len),
            (dd * dd) * (oz * oz) <= (dz * dz) * (len * len),
            s == ox * ox + oy * oy + oz * oz,
            ds == dx * dx + dy * dy + dz * dz,
    ;
    // Upper bound on the new distance.
    if len == 0 {
        assert(ox == 0 && oy == 0 && oz == 0);
        assert(s == 0) by (nonlinear_arith)
            requires
                s == ox * ox + oy * oy + oz * oz,
                ox == 0 && oy == 0 && oz == 0,
        ;
        assert(sqrt_floor(0nat) == 0);
        vstd::arithmetic::div_mod::lemma_div_pos_is_pos(len as int, dd);
    } else {
        assert((dd * nn) * (dd * nn) < ((dd + 1) * len) * ((dd + 1) * len)) by (nonlinear_arith)
            requires
                nn * nn <= s,
                0 <= nn,
                1 <= dd,
                1 <= len,
                (dd * dd) * s <= ds * (len * len),
                ds < (dd + 1) * (dd + 1),
        ;
        assert(dd * nn < (dd + 1) * len) by (nonlinear_arith)
            requires
                (dd * nn) * (dd * nn) < ((dd + 1) * len) * ((dd + 1) * len),
                0 <= dd * nn,
                0 <= (dd + 1) * len,
        ;
        let q = (len as int) / dd;
        lemma_fundamental_div_mod(len as int, dd);
        lemma_mod_bound(len as int, dd);
        assert(nn <= len + q) by (nonlinear_arith)
            requires
                dd * nn < (dd + 1) * len,
                len == dd * q + (len as int) % dd,
                0 <= (len as int) % dd < dd,
                1 <= dd,
                0 <= nn,
        ;
    }
    // Lower bound on the new distance.
    assert(ds * (len * len) < (dd * dd) * ((abs(ox) + 1) * (abs(ox) + 1) + (abs(oy) + 1) * (abs(
        oy,
    ) + 1) + (abs(oz) + 1) * (abs(oz) + 1))) by (nonlinear_arith)
        requires
            (dx * dx) * (len * len) < (dd * dd) * ((abs(ox) + 1) * (abs(ox) + 1)),
            (dy * dy) * (len * len) < (dd * dd) * ((abs(oy) + 1) * (abs(oy) + 1)),
            (dz * dz) * (len * len) < (dd * dd) * ((abs(oz) + 1) * (abs(oz) + 1)),
            ds == dx * dx + dy * dy + dz * dz,
    ;
    assert((len * len) < (abs(ox) + 1) * (abs(ox) + 1) + (abs(oy) + 1) * (abs(oy) + 1) + (abs(
        oz,
    ) + 1) * (abs(oz) + 1)) by (nonlinear_arith)
        requires
            ds * (len * len) < (dd * dd) * ((abs(ox) + 1) * (abs(ox) + 1) + (abs(oy) + 1) * (abs(
                oy,
            ) + 1) + (abs(oz) + 1) * (abs(oz) + 1)),
            dd * dd <= ds,
            1 <= dd,
            0 <= len,
    ;
    assert(abs(ox) <= nn && abs(oy) <= nn && abs(oz) <= nn) by (nonlinear_arith)
        requires
            ox * ox == abs(ox) * abs(ox),
            oy * oy == abs(oy) * abs(oy),
            oz * oz == abs(oz) * abs(oz),
            ox * ox <= s,
            oy * oy <= s,
            oz * oz <= s,
            s < (nn + 1) * (nn + 1),
            0 <= nn,
            s == ox * ox + oy * oy + oz * oz,
    ;
    let oxa = abs(ox) as int;
    let oya = abs(oy) as int;
    let oza = abs(oz) as int;
    assert(len * len < s + 2 * (oxa + oya + oza) + 3) by (nonlinear_arith)
        requires
            (len * len) < (oxa + 1) * (oxa + 1) + (oya + 1) * (oya + 1) + (oza + 1) * (oza + 1),
            s == ox * ox + oy * oy + oz * oz,
            ox * ox == oxa * oxa,
            oy * oy == oya * oya,
            oz * oz == oza * oza,
    ;
    assert(len * len < nn * nn + 8 * nn + 4) by (nonlinear_arith)
        requires
            len * len < s + 2 * (oxa + oya + oza) + 3,
            oxa <= nn,
            oya <= nn,
            oza <= nn,
            s < (nn + 1) * (nn + 1),
    ;
    assert(len < nn + 4) by (nonlinear_arith)
        requires
            len * len < nn * nn + 8 * nn + 4,
            0 <= nn,
            0 <= len,
    ;
    // The conditional tight form.
    if dd >= len {
        vstd::arithmetic::div_mod::lemma_div_is_ordered(len as int, dd, dd);
        vstd::arithmetic::div_mod::lemma_div_by_self(dd);
        vstd::arithmetic::div_mod::lemma_div_pos_is_pos(len as int, dd);
    }
}

/// The sum of the segment lengths from index `j` to the end.
pub open spec fn len_sum_from(lens: Seq<i64>, j: int) -> int
    decreases lens.len() - j,
{
    if j < 0 || j >= lens.len() {
        0
    } else {
        lens[j] + len_sum_from(lens, j + 1)
    }
}

/// The sum of the segment lengths before index `j`.
pub open spec fn len_sum_upto(lens: Seq<i64>, j: int) -> int
    decreases j,
{
    if j <= 0 || j > lens.len() {
        0
    } else {
        len_sum_upto(lens, j - 1) + lens[j - 1]
    }
}

/// Tail sums of positive lengths are non-negative.
proof fn lemma_tail_nonneg(lens: Seq<i64>, j: int)
    requires
        forall|t: int| 0 <= t < lens.len() ==> 0 < #[trigger] lens[t],
    ensures
        0 <= len_sum_from(lens, j),
    decreases lens.len() - j,
{
    if 0 <= j < lens.len() {
        lemma_tail_nonneg(lens, j + 1);
    }
}

/// Tail sums of positive lengths shrink as the start index grows.
proof fn lemma_tail_mono(lens: Seq<i64>, i: int, j: int)
    requires
        0 <= i <= j,
        forall|t: int| 0 <= t < lens.len() ==> 0 < #[trigger] lens[t],
    ensures
        len_sum_from(lens, j) <= len_sum_from(lens, i),
    decreases j - i,
{
    if i < j {
        lemma_tail_mono(lens, i + 1, j);
        if i < lens.len() {
        } else {
            lemma_tail_nonneg(lens, j);
        }
    }
}

/// Head sums of positive lengths are non-negative.
proof fn lemma_head_nonneg(lens: Seq<i64>, j: int)
    requires
        forall|t: int| 0 <= t < lens.len() ==> 0 < #[trigger] lens[t],
    ensures
        0 <= len_sum_upto(lens, j),
    decreases j,
{
    if 0 < j <= lens.len() {
        lemma_head_nonneg(lens, j - 1);
    }
}

/// Head sums of positive lengths grow with the end index.
proof fn lemma_head_mono(lens: Seq<i64>, i: int, j: int)
    requires
        i <= j,
        j <= lens.len(),
        forall|t: int| 0 <= t < lens.len() ==> 0 < #[trigger] lens[t],
    ensures
        len_sum_upto(lens, i) <= len_sum_upto(lens, j),
    decreases j - i,
{
    if i < j {
        lemma_head_mono(lens, i, j - 1);
        if j > 0 {
        } else {
            lemma_head_nonneg(lens, i);
        }
    }
}

/// After the first `k` steps of a forward pass, given positive lengths and
/// enough coordinate room that no clamp can engage: the joints not yet
/// processed are untouched, every joint stays within the anchor bound plus
/// the remaining length budget, and every processed segment ends at least
/// its recorded length less three fixed-point units.
proof fn lemma_fwd_partial_spacing(
    js: Seq<Vec3Fx>,
    lens: Seq<i64>,
    k: nat,
    b0: int,
    s: Seq<Vec3Fx>,
)
    requires
        js.len() >= 2,
        lens.len() == js.len() - 1,
        k <= js.len() - 1,
        0 <= b0,
        forall|i: int| 0 <= i < js.len() ==> comps_within(#[trigger] js[i], b0),
        forall|t: int| 0 <= t < lens.len() ==> 0 < #[trigger] lens[t] <= LEN_LIMIT,
        b0 + 2 * len_sum_from(lens, 0) <= COORD_LIMIT,
        fwd_partial(js, lens, k) == Option::Some(s),
    ensures
        s.len() == js.len(),
        forall|j: int| 0 <= j < js.len() - 1 - k ==> s[j] == js[j],
        s[js.len() - 1] == js[js.len() - 1],
        forall|j: int|
            0 <= j < js.len() - 1 ==> comps_within(#[trigger] s[j], b0 + len_sum_from(lens, j)),
        forall|i: int|
            js.len() - k <= i < js.len() ==> lens[i - 1] - 3 <= dist_spec(s[i - 1], #[trigger] s[i]),
    decreases k,
{
    let n = js.len() as int;
    if k == 0 {
        assert forall|j: int| 0 <= j < n - 1 implies comps_within(
            #[trigger] s[j],
            b0 + len_sum_from(lens, j),
        ) by {
            lemma_tail_nonneg(lens, j);
        }
    } else {
        let prev = fwd_partial(js, lens, (k - 1) as nat);
        assert(prev is Some);
        let sp = prev->Some_0;
        lemma_fwd_partial_spacing(js, lens, (k - 1) as nat, b0, sp);
        let i = n - k;
        let pl = place_spec(sp[i], sp[i - 1], lens[i - 1]);
        assert(pl is Some && s == sp.update(i - 1, pl->Some_0));
        let p = pl->Some_0;
        lemma_tail_nonneg(lens, i);
        lemma_tail_mono(lens, 0, i - 1);
        assert(len_sum_from(lens, i - 1) == lens[i - 1] + len_sum_from(lens, i));
        // The anchor is within its budget, which leaves room for the length.
        assert(comps_within(sp[i], b0 + len_sum_from(lens, i)));
        assert(b0 + len_sum_from(lens, i) <= COORD_LIMIT - lens[i - 1]);
        assert(comps_within(sp[i], COORD_LIMIT - lens[i - 1] as int));
        assert(sp[i].bounded());
        assert(sp[i - 1] == js[i - 1]);
        assert(comps_within(sp[i - 1], b0));
        assert(sp[i - 1].bounded());
        lemma_reach_length_preservation(sp[i], sp[i - 1], lens[i - 1], p);
        assert(comps_within(p, b0 + len_sum_from(lens, i - 1)));
        assert forall|j: int| 0 <= j < n - 1 implies comps_within(
            #[trigger] s[j],
            b0 + len_sum_from(lens, j),
        ) by {
            if j != i - 1 {
                assert(s[j] == sp[j]);
            }
        }
        assert forall|ii: int| n - k <= ii < n implies lens[ii - 1] - 3 <= dist_spec(
            s[ii - 1],
            #[trigger] s[ii],
        ) by {
            if ii == i {
                assert(s[i - 1] == p && s[i] == sp[i]);
            } else {
                assert(s[ii - 1] == sp[ii - 1] && s[ii] == sp[ii]);
            }
        }
    }
}

/// After the first `k` steps of a backward pass, the mirror statement: the
/// root and the joints not yet processed are untouched, every joint stays
/// within the anchor bound plus the spent length budget, and every processed
/// segment ends at least its recorded length less three fixed-point units.
proof fn lemma_bwd_partial_spacing(
    js: Seq<Vec3Fx>,
    lens: Seq<i64>,
    k: nat,
    b0: int,
    s: Seq<Vec3Fx>,
)
    requires
        js.len() >= 2,
        lens.len() == js.len() - 1,
        k <= js.len() - 1,
        0 <= b0,
        forall|i: int| 0 <= i < js.len() ==> comps_within(#[trigger] js[i], b0),
        forall|t: int| 0 <= t < lens.len() ==> 0 < #[trigger] lens[t] <= LEN_LIMIT,
        b0 + 2 * len_sum_upto(lens, lens.len() as int) <= COORD_LIMIT,
        bwd_partial(js, lens, k) == Option::Some(s),
    ensures
        s.len() == js.len(),
        forall|j: int| k < j < js.len() ==> s[j] == js[j],
        s[0] == js[0],
        forall|j: int| 0 <= j < js.len() ==> comps_within(#[trigger] s[j], b0 + len_sum_upto(lens, j)),
        forall|i: int| 0 <= i < k ==> lens[i] - 3 <= dist_spec(s[i + 1], #[trigger] s[i]),
    decreases k,
{
    let n = js.len() as int;
    if k == 0 {
        assert forall|j: int| 0 <= j < n implies comps_within(
            #[trigger] s[j],
            b0 + len_sum_upto(lens, j),
        ) by {
            lemma_head_nonneg(lens, j);
        }
    } else {
        let prev = bwd_partial(js, lens, (k - 1) as nat);
        assert(prev is Some);
        let sp = prev->Some_0;
        lemma_bwd_partial_spacing(js, lens, (k - 1) as nat, b0, sp);
        let i = k as int - 1;
        let pl = place_spec(sp[i], sp[i + 1], lens[i]);
        assert(pl is Some && s == sp.update(i + 1, pl->Some_0));
        let p = pl->Some_0;
        lemma_head_nonneg(lens, i);
        lemma_head_mono(lens, i + 1, lens.len() as int);
        assert(len_sum_upto(lens, i + 1) == len_sum_upto(lens, i) + lens[i]);
        // The anchor is within its budget, which leaves room for the length.
        assert(comps_within(sp[i], b0 + len_sum_upto(lens, i)));
        assert(b0 + len_sum_upto(lens, i) <= COORD_LIMIT - lens[i]);
        assert(comps_within(sp[i], COORD_LIMIT - lens[i] as int));
        assert(sp[i].bounded());
        assert(sp[i + 1] == js[i + 1]);
        assert(comps_within(sp[i + 1], b0));
        assert(sp[i + 1].bounded());
        lemma_reach_length_preservation(sp[i], sp[i + 1], lens[i], p);
        assert(comps_within(p, b0 + len_sum_upto(lens, i + 1)));
        assert forall|j: int| 0 <= j < n implies comps_within(
            #[trigger] s[j],
            b0 + len_sum_upto(lens, j),
        ) by {
            if j != i + 1 {
                assert(s[j] == sp[j]);
            }
        }
        assert forall|ii: int| 0 <= ii < k implies lens[ii] - 3 <= dist_spec(
            s[ii + 1],
            #[trigger] s[ii],
        ) by {
            if ii == i {
                assert(s[i + 1] == p && s[i] == sp[i]);
            } else {
                assert(s[ii + 1] == sp[ii + 1] && s[ii] == sp[ii]);
            }
        }
    }
}

/// Length preservation across a whole forward pass: when the pass completes,
/// every segment of the result spans at least its recorded length less three
/// fixed-point units, provided the lengths are positive and the joints leave
/// enough coordinate room for the pass (each step's exact two-sided error
/// bound is `lemma_reach_length_preservation`, of which the pass is a
/// sequence).
pub proof fn lemma_forward_pass_spacing(js: Seq<Vec3Fx>, lens: Seq<i64>, b0: int, s: Seq<Vec3Fx>)
    requires
        js.len() >= 2,
        lens.len() == js.len() - 1,
        0 <= b0,
        forall|i: int| 0 <= i < js.len() ==> comps_within(#[trigger] js[i], b0),
        forall|t: int| 0 <= t < lens.len() ==> 0 < #[trigger] lens[t] <= LEN_LIMIT,
        b0 + 2 * len_sum_from(lens, 0) <= COORD_LIMIT,
        fwd_pass_spec(js, lens) == Option::Some(s),
    ensures
        s.len() == js.len(),
        forall|i: int|
            1 <= i < js.len() ==> lens[i - 1] - 3 <= dist_spec(s[i - 1], #[trigger] s[i]),
{
    lemma_fwd_partial_spacing(js, lens, (js.len() - 1) as nat, b0, s);
}

/// Length preservation across a whole backward pass, the mirror of
/// `lemma_forward_pass_spacing`.
pub proof fn lemma_backward_pass_spacing(js: Seq<Vec3Fx>, lens: Seq<i64>, b0: int, s: Seq<Vec3Fx>)
    requires
        js.len() >= 2,
        lens.len() == js.len() - 1,
        0 <= b0,
        forall|i: int| 0 <= i < js.len() ==> comps_within(#[trigger] js[i], b0),
        forall|t: int| 0 <= t < lens.len() ==> 0 < #[trigger] lens[t] <= LEN_LIMIT,
        b0 + 2 * len_sum_upto(lens, lens.len() as int) <= COORD_LIMIT,
        bwd_pass_spec(js, lens) == Option::Some(s),
    ensures
        s.len() == js.len(),
        forall|i: int|
            1 <= i < js.len() ==> lens[i - 1] - 3 <= dist_spec(#[trigger] s[i], s[i - 1]),
{
    lemma_bwd_partial_spacing(js, lens, (js.len() - 1) as nat, b0, s);
}

} // verus!
