//! The kinematic chain: its state, construction, snapshots, frame and
//! velocity recomputation, the two reach passes, and the solve dispatcher.

use vstd::prelude::*;

verus! {

use crate::angle::{interior_angle, interior_angle_spec};
use crate::fx::{div_trunc, div_trunc_i128, scaled_rate, FX_ONE, LEN_LIMIT, PI_FX, VEL_SCALE};
use crate::vec3::{
    clamp_vec, clamp_vec_spec, dist_fx, dist_spec, dist_sq_spec, frame_spec, build_frame,
    lemma_dist_sq_range, lemma_dist_sq_zero, lemma_sqrt_zero, lemma_div_magnitude, normalize_or,
    normalize_or_spec, place_spec, place_at_distance, half_step, half_step_spec, zero_spec,
    zero_vec, SegmentTransform, Vec3Fx,
};

/// How far the current pose has drifted from the ideal; selects the
/// correction strategy that `solve` applies.
#[derive(Clone, Copy, Debug, Default, PartialEq, Eq, Structural)]
pub enum PoseDiscrepancy {
    #[default]
    WithinTolerance,
    MildDivergence,
    SevereDivergence,
    EnvironmentalCompensation,
}

/// Which regime the last solve ran in.
#[derive(Clone, Copy, Debug, Default, PartialEq, Eq, Structural)]
pub enum KinematicsMode {
    #[default]
    InverseKinematics,
    ForwardKinematics,
}

/// Every recoverable failure the chain operations can report.
#[derive(Clone, Copy, Debug, PartialEq, Eq, Structural)]
pub enum ChainError {
    /// Fewer than two joints were supplied at construction.
    InvalidChain,
    /// Two consecutive joints coincide, so no segment direction exists.
    DegenerateSegment,
    /// Reset was requested but no initial snapshot exists.
    NoSnapshot,
    /// The requested correction strategy is not implemented.
    UnsupportedClassification,
    /// A preview-relative correction was requested with no preview present.
    MissingPreview,
}

/// An orientation carried through for the motion heuristics, opaque to the
/// solver, as fixed-point quaternion components.
#[derive(Clone, Copy, Debug, Default, PartialEq, Eq, Structural)]
pub struct RotationFx {
    pub x: i64,
    pub y: i64,
    pub z: i64,
    pub w: i64,
}

/// Auxiliary heuristic data: anchor points and a parent-priority ranking,
/// carried through the chain but never interpreted by the solver.
#[derive(Clone, Debug, Default)]
pub struct MotionHueristics {
    pub anchor_points: Vec<(usize, Vec3Fx, RotationFx)>,
    pub parent_ranking: Vec<(usize, i32, i32)>,
}

/// The two heuristic tables hold the same entries.
pub open spec fn heur_eq(a: MotionHueristics, b: MotionHueristics) -> bool {
    &&& a.anchor_points@ == b.anchor_points@
    &&& a.parent_ranking@ == b.parent_ranking@
}

impl MotionHueristics {
    /// Bundle the two heuristic tables.
    pub fn new(
        anchor_points: Vec<(usize, Vec3Fx, RotationFx)>,
        parent_ranking: Vec<(usize, i32, i32)>,
    ) -> (r: MotionHueristics)
        ensures
            r.anchor_points@ == anchor_points@,
            r.parent_ranking@ == parent_ranking@,
    {
        MotionHueristics { anchor_points, parent_ranking }
    }
}

/// One complete chain configuration. A `ChainState` deliberately has no
/// preview field of its own, so a preview can never nest another preview.
#[derive(Clone, Debug)]
pub struct ChainState {
    /// Joint positions, root first, end effector last.
    pub joints: Vec<Vec3Fx>,
    /// Fixed segment lengths; entry `i` joins joints `i` and `i + 1`.
    pub lengths: Vec<i64>,
    /// Bend angles, one per joint; boundary entries are pi.
    pub angles: Vec<i64>,
    /// The angle set from the previous recomputation.
    pub prev_angles: Vec<i64>,
    /// One signed rate per previously tracked joint.
    pub angular_velocities: Vec<i64>,
    /// One rigid frame per segment.
    pub segment_transforms: Vec<SegmentTransform>,
    /// Sparse joint-index-to-position targets, caller managed.
    pub targets: Vec<(usize, Vec3Fx)>,
    /// Opaque heuristic data carried through.
    pub motion_heuristics: MotionHueristics,
    /// Pin the root joint to the origin after each forward pass.
    pub lock_ground: bool,
    /// Timestamp of the previous recomputation, in microseconds.
    pub prev_time_micros: u64,
}

impl ChainState {
    /// All stored joints lie in the representable coordinate range.
    pub open spec fn joints_bounded(self) -> bool {
        forall|i: int| 0 <= i < self.joints@.len() ==> (#[trigger] self.joints@[i]).bounded()
    }

    /// Segment lengths are positive and bounded.
    pub open spec fn lengths_ok(self) -> bool {
        forall|i: int| 0 <= i < self.lengths@.len() ==> 0 < #[trigger] self.lengths@[i] <= LEN_LIMIT
    }

    /// Angle vectors are either empty or sized to the joints, and every
    /// angle lies in [0, pi].
    pub open spec fn angles_ok(self) -> bool {
        &&& self.angles@.len() == 0 || self.angles@.len() == self.joints@.len()
        &&& self.prev_angles@.len() == 0 || self.prev_angles@.len() == self.joints@.len()
        &&& self.angles@.len() == 0 ==> self.prev_angles@.len() == 0
        &&& forall|i: int| 0 <= i < self.angles@.len() ==> 0 <= #[trigger] self.angles@[i] <= PI_FX
        &&& forall|i: int|
            0 <= i < self.prev_angles@.len() ==> 0 <= #[trigger] self.prev_angles@[i] <= PI_FX
    }

    /// Every stored target addresses an existing joint and lies in range.
    pub open spec fn targets_ok(self) -> bool {
        forall|i: int|
            0 <= i < self.targets@.len() ==> (#[trigger] self.targets@[i]).0
                < self.joints@.len() && self.targets@[i].1.bounded()
    }

    /// The state invariant: at least two joints, one length per segment, and
    /// every stored quantity within its range.
    pub open spec fn wf(self) -> bool {
        &&& self.joints@.len() >= 2
        &&& self.lengths@.len() == self.joints@.len() - 1
        &&& self.joints_bounded()
        &&& self.lengths_ok()
        &&& self.angles_ok()
        &&& self.targets_ok()
    }

    /// Two states hold identical data.
    pub open spec fn same_state(self, other: ChainState) -> bool {
        &&& self.joints@ == other.joints@
        &&& self.lengths@ == other.lengths@
        &&& self.angles@ == other.angles@
        &&& self.prev_angles@ == other.prev_angles@
        &&& self.angular_velocities@ == other.angular_velocities@
        &&& self.segment_transforms@ == other.segment_transforms@
        &&& self.targets@ == other.targets@
        &&& heur_eq(self.motion_heuristics, other.motion_heuristics)
        &&& self.lock_ground == other.lock_ground
        &&& self.prev_time_micros == other.prev_time_micros
    }
}

/// Well-formedness depends only on the data, so it carries across equal
/// states.
pub proof fn lemma_same_state_wf(a: ChainState, b: ChainState)
    requires
        a.same_state(b),
        a.wf(),
    ensures
        b.wf(),
{
}

/// An exact element-wise copy of a vector of copyable values.
fn copy_vec<T: Copy>(v: &Vec<T>) -> (r: Vec<T>)
    ensures
        r@ == v@,
{
    let mut r: Vec<T> = Vec::new();
    let mut i: usize = 0;
    while i < v.len()
        invariant
            i <= v.len(),
            r@ == v@.subrange(0, i as int),
        decreases v.len() - i,
    {
        r.push(v[i]);
        proof {
            assert(v@.subrange(0, i as int).push(v@[i as int]) =~= v@.subrange(0, i as int + 1));
        }
        i = i + 1;
    }
    proof {
        assert(v@.subrange(0, v@.len() as int) =~= v@);
    }
    r
}

/// A deep copy of a chain state, equal to it field by field.
fn snapshot_state(s: &ChainState) -> (r: ChainState)
    ensures
        r.same_state(*s),
{
    ChainState {
        joints: copy_vec(&s.joints),
        lengths: copy_vec(&s.lengths),
        angles: copy_vec(&s.angles),
        prev_angles: copy_vec(&s.prev_angles),
        angular_velocities: copy_vec(&s.angular_velocities),
        segment_transforms: copy_vec(&s.segment_transforms),
        targets: copy_vec(&s.targets),
        motion_heuristics: MotionHueristics {
            anchor_points: copy_vec(&s.motion_heuristics.anchor_points),
            parent_ranking: copy_vec(&s.motion_heuristics.parent_ranking),
        },
        lock_ground: s.lock_ground,
        prev_time_micros: s.prev_time_micros,
    }
}

/// The input joints, each clamped into the representable range.
pub open spec fn clamped_joints_spec(js: Seq<Vec3Fx>) -> Seq<Vec3Fx> {
    js.map(|i: int, v: Vec3Fx| clamp_vec_spec(v))
}

/// The segment lengths a chain records at construction: the distance of each
/// consecutive joint pair.
pub open spec fn lengths_spec(js: Seq<Vec3Fx>) -> Seq<i64>
    recommends
        js.len() >= 1,
{
    Seq::new((js.len() - 1) as nat, |i: int| dist_spec(js[i + 1], js[i]) as i64)
}

/// Joints `i` and `i + 1` coincide.
pub open spec fn deg_at(js: Seq<Vec3Fx>, i: int) -> bool {
    0 <= i < js.len() - 1 && js[i + 1] == js[i]
}

/// Some consecutive pair of joints coincides.
pub open spec fn has_degenerate(js: Seq<Vec3Fx>) -> bool {
    exists|i: int| #[trigger] deg_at(js, i)
}

/// One frame per segment, derived from the joint positions.
pub open spec fn frames_seq_spec(js: Seq<Vec3Fx>) -> Seq<SegmentTransform>
    recommends
        js.len() >= 1,
{
    Seq::new((js.len() - 1) as nat, |i: int| frame_spec(js[i], js[i + 1]))
}

/// The elapsed time used for velocity derivation: the difference of the two
/// timestamps, clamped below by one microsecond.
pub open spec fn elapsed_spec(prev: u64, now: u64) -> int {
    if now > prev {
        now - prev
    } else {
        1
    }
}

/// One angular velocity: the angle difference scaled to per-second units
/// over the elapsed microseconds.
pub open spec fn vel_one_spec(a: i64, p: i64, e: int) -> i64 {
    div_trunc((a - p) * (VEL_SCALE as int), e) as i64
}

/// One velocity per previously tracked joint.
pub open spec fn vel_seq_spec(angles: Seq<i64>, prev: Seq<i64>, e: int) -> Seq<i64>
    recommends
        prev.len() <= angles.len(),
{
    Seq::new(prev.len(), |i: int| vel_one_spec(angles[i], prev[i], e))
}

/// One frame per segment, as executable code.
#[verifier::loop_isolation(false)]
fn compute_frames(js: &Vec<Vec3Fx>) -> (r: Vec<SegmentTransform>)
    requires
        js@.len() >= 1,
        forall|i: int| 0 <= i < js@.len() ==> (#[trigger] js@[i]).bounded(),
    ensures
        r@ == frames_seq_spec(js@),
{
    let mut r: Vec<SegmentTransform> = Vec::new();
    let mut i: usize = 1;
    while i < js.len()
        invariant
            1 <= i <= js@.len(),
            r@ == frames_seq_spec(js@).subrange(0, i - 1),
        decreases js@.len() - i,
    {
        r.push(build_frame(js[i - 1], js[i]));
        proof {
            assert(frames_seq_spec(js@).subrange(0, i - 1).push(frames_seq_spec(js@)[i - 1])
                =~= frames_seq_spec(js@).subrange(0, i as int));
        }
        i = i + 1;
    }
    proof {
        assert(frames_seq_spec(js@).subrange(0, js@.len() - 1) =~= frames_seq_spec(js@));
    }
    r
}

/// A freshly constructed configuration: the given joints and their lengths,
/// everything else empty, ground lock on, and the clock set to `now`.
pub open spec fn pristine_state(
    s: ChainState,
    js: Seq<Vec3Fx>,
    heur: MotionHueristics,
    now: u64,
) -> bool {
    &&& s.joints@ == js
    &&& s.lengths@ == lengths_spec(js)
    &&& s.angles@.len() == 0
    &&& s.prev_angles@.len() == 0
    &&& s.angular_velocities@.len() == 0
    &&& s.segment_transforms@.len() == 0
    &&& s.targets@.len() == 0
    &&& heur_eq(s.motion_heuristics, heur)
    &&& s.lock_ground == true
    &&& s.prev_time_micros == now
}

/// The chain: its committed state, an optional one-level preview snapshot,
/// and the immutable initial snapshot that reset restores. The preview is a
/// bare `ChainState`, which has no preview field, so the nesting depth can
/// never exceed one.
pub struct FabrikChain {
    /// The committed, live configuration.
    pub current: ChainState,
    /// The optional what-if snapshot, refreshed by `finalize`.
    pub preview: Option<ChainState>,
    /// The immutable snapshot captured at construction, restored by reset.
    pub initial_state: Option<ChainState>,
}

impl FabrikChain {
    /// The chain invariant: the live state is well formed, and any snapshot
    /// is well formed and structurally matches it.
    pub open spec fn wf(self) -> bool {
        &&& self.current.wf()
        &&& (self.preview matches Some(p) ==> p.wf() && p.joints@.len()
            == self.current.joints@.len())
        &&& (self.initial_state matches Some(s) ==> s.wf())
    }

    /// Construct a chain from an ordered list of joint positions (clamped
    /// into the representable range) and opaque heuristics. Records one
    /// length per consecutive pair, captures the initial and preview
    /// snapshots, derives the initial segment frames, and starts the clock
    /// at `now_micros`. Rejects fewer than two joints, and coinciding
    /// consecutive joints (which would leave a segment with no direction).
    pub fn new(
        joints: Vec<Vec3Fx>,
        motion_heuristics: MotionHueristics,
        now_micros: u64,
    ) -> (r: Result<FabrikChain, ChainError>)
        ensures
            r == Result::<FabrikChain, ChainError>::Err(ChainError::InvalidChain) <==> joints@.len() < 2,
            joints@.len() >= 2 ==> (r == Result::<FabrikChain, ChainError>::Err(
                ChainError::DegenerateSegment,
            ) <==> has_degenerate(clamped_joints_spec(joints@))),
            r matches Ok(c) ==> {
                &&& c.wf()
                &&& c.current.joints@ == clamped_joints_spec(joints@)
                &&& c.current.lengths@ == lengths_spec(clamped_joints_spec(joints@))
                &&& c.current.angles@.len() == 0
                &&& c.current.prev_angles@.len() == 0
                &&& c.current.angular_velocities@.len() == 0
                &&& c.current.targets@.len() == 0
                &&& heur_eq(c.current.motion_heuristics, motion_heuristics)
                &&& c.current.lock_ground == true
                &&& c.current.prev_time_micros == now_micros
                &&& c.current.segment_transforms@ == frames_seq_spec(clamped_joints_spec(joints@))
                &&& (c.preview matches Some(p) && pristine_state(
                    p,
                    clamped_joints_spec(joints@),
                    motion_heuristics,
                    now_micros,
                ))
                &&& (c.initial_state matches Some(s0) && pristine_state(
                    s0,
                    clamped_joints_spec(joints@),
                    motion_heuristics,
                    now_micros,
                ))
            },
            r is Ok <==> (joints@.len() >= 2 && !has_degenerate(clamped_joints_spec(joints@))),
    {
        if joints.len() < 2 {
            return Result::Err(ChainError::InvalidChain);
        }
        let ghost cjs = clamped_joints_spec(joints@);
        let mut cj: Vec<Vec3Fx> = Vec::new();
        let mut i: usize = 0;
        while i < joints.len()
            invariant
                i <= joints@.len(),
                cj@ == cjs.subrange(0, i as int),
                joints@.len() >= 2,
                cjs == clamped_joints_spec(joints@),
            decreases joints@.len() - i,
        {
            cj.push(clamp_vec(joints[i]));
            proof {
                assert(cjs.subrange(0, i as int).push(cjs[i as int]) =~= cjs.subrange(
                    0,
                    i as int + 1,
                ));
            }
            i = i + 1;
        }
        proof {
            assert(cjs.subrange(0, cjs.len() as int) =~= cjs);
        }
        let mut lengths: Vec<i64> = Vec::new();
        let mut k: usize = 1;
        while k < cj.len()
            invariant
                1 <= k <= cj@.len(),
                cj@ == cjs,
                cjs == clamped_joints_spec(joints@),
                joints@.len() >= 2,
                cj@.len() == joints@.len(),
                forall|i: int| 0 <= i < cj@.len() ==> (#[trigger] cj@[i]).bounded(),
                lengths@ == lengths_spec(cjs).subrange(0, k - 1),
                forall|j: int| 0 <= j < k - 1 ==> !(#[trigger] deg_at(cjs, j)),
                forall|j: int| 0 <= j < lengths@.len() ==> 0 < #[trigger] lengths@[j] <= LEN_LIMIT,
            decreases cj@.len() - k,
        {
            let d = dist_fx(cj[k], cj[k - 1]);
            if d == 0 {
                proof {
                    lemma_dist_sq_range(cjs[k as int], cjs[k as int - 1]);
                    lemma_sqrt_zero(dist_sq_spec(cjs[k as int], cjs[k as int - 1]) as nat);
                    lemma_dist_sq_zero(cjs[k as int], cjs[k as int - 1]);
                    assert(deg_at(cjs, k - 1));
                }
                return Result::Err(ChainError::DegenerateSegment);
            }
            lengths.push(d);
            proof {
                lemma_dist_sq_range(cjs[k as int], cjs[k as int - 1]);
                lemma_sqrt_zero(dist_sq_spec(cjs[k as int], cjs[k as int - 1]) as nat);
                lemma_dist_sq_zero(cjs[k as int], cjs[k as int - 1]);
                assert(!deg_at(cjs, k - 1));
                assert(lengths_spec(cjs).subrange(0, k - 1).push(lengths_spec(cjs)[k - 1])
                    =~= lengths_spec(cjs).subrange(0, k as int));
            }
            k = k + 1;
        }
        proof {
            assert(lengths_spec(cjs).subrange(0, cjs.len() - 1) =~= lengths_spec(cjs));
            assert(!has_degenerate(cjs));
        }
        let state0 = ChainState {
            joints: cj,
            lengths,
            angles: Vec::new(),
            prev_angles: Vec::new(),
            angular_velocities: Vec::new(),
            segment_transforms: Vec::new(),
            targets: Vec::new(),
            motion_heuristics,
            lock_ground: true,
            prev_time_micros: now_micros,
        };
        let pre = snapshot_state(&state0);
        let init = snapshot_state(&state0);
        let frames = compute_frames(&state0.joints);
        let mut chain = FabrikChain {
            current: state0,
            preview: Some(pre),
            initial_state: Some(init),
        };
        chain.current.segment_transforms = frames;
        Result::Ok(chain)
    }

    /// The end effector: the last joint's position.
    pub fn get_ee(&self) -> (r: Vec3Fx)
        requires
            self.current.joints@.len() >= 1,
        ensures
            r == self.current.joints@.last(),
    {
        self.current.joints[self.current.joints.len() - 1]
    }

    /// Replace the preview snapshot with a fresh copy of the current state.
    /// Idempotent: repeating it only refreshes the snapshot, and the
    /// preview, being a bare `ChainState`, can never nest another preview.
    pub fn finalize(&mut self)
        requires
            old(self).wf(),
        ensures
            final(self).wf(),
            final(self).current == old(self).current,
            final(self).preview matches Some(p) && p.same_state(old(self).current),
            final(self).initial_state == old(self).initial_state,
    {
        let snap = snapshot_state(&self.current);
        proof {
            lemma_same_state_wf(snap, self.current);
        }
        self.preview = Some(snap);
        proof {
            lemma_same_state_wf(self.current, self.preview->Some_0);
        }
    }

    /// Replace the stored targets; each position is clamped into range.
    pub fn set_targets(&mut self, targets: Vec<(usize, Vec3Fx)>)
        requires
            old(self).wf(),
            forall|i: int|
                0 <= i < targets@.len() ==> (#[trigger] targets@[i]).0
                    < old(self).current.joints@.len(),
        ensures
            final(self).wf(),
            final(self).current.targets@ == targets_clamped_spec(targets@),
            final(self).current.joints@ == old(self).current.joints@,
            final(self).current.lengths@ == old(self).current.lengths@,
            final(self).current.angles@ == old(self).current.angles@,
            final(self).current.prev_angles@ == old(self).current.prev_angles@,
            final(self).current.angular_velocities@ == old(self).current.angular_velocities@,
            final(self).current.segment_transforms@ == old(self).current.segment_transforms@,
            heur_eq(final(self).current.motion_heuristics, old(self).current.motion_heuristics),
            final(self).current.lock_ground == old(self).current.lock_ground,
            final(self).current.prev_time_micros == old(self).current.prev_time_micros,
            final(self).preview == old(self).preview,
            final(self).initial_state == old(self).initial_state,
    {
        let ghost goal = targets_clamped_spec(targets@);
        let mut ts: Vec<(usize, Vec3Fx)> = Vec::new();
        let mut i: usize = 0;
        while i < targets.len()
            invariant
                i <= targets@.len(),
                ts@ == goal.subrange(0, i as int),
                goal == targets_clamped_spec(targets@),
                forall|j: int|
                    0 <= j < targets@.len() ==> (#[trigger] targets@[j]).0
                        < old(self).current.joints@.len(),
            decreases targets@.len() - i,
        {
            let (idx, pos) = targets[i];
            ts.push((idx, clamp_vec(pos)));
            proof {
                assert(goal.subrange(0, i as int).push(goal[i as int]) =~= goal.subrange(
                    0,
                    i as int + 1,
                ));
            }
            i = i + 1;
        }
        proof {
            assert(goal.subrange(0, goal.len() as int) =~= goal);
        }
        self.current.targets = ts;
    }

    /// Recompute the per-segment frames from the current joints, and derive
    /// one angular velocity per previously tracked joint from the elapsed
    /// time since the last recomputation (clamped below by one microsecond).
    /// On the very first recomputation there is no angle history, so the
    /// velocity sequence is empty.
    pub fn recalculate_segments(&mut self, now_micros: u64)
        requires
            old(self).wf(),
        ensures
            final(self).wf(),
            final(self).current.angular_velocities@ == vel_seq_spec(
                old(self).current.angles@,
                old(self).current.prev_angles@,
                elapsed_spec(old(self).current.prev_time_micros, now_micros),
            ),
            final(self).current.angular_velocities@.len()
                == old(self).current.prev_angles@.len(),
            final(self).current.segment_transforms@ == frames_seq_spec(
                old(self).current.joints@,
            ),
            final(self).current.prev_time_micros == now_micros,
            final(self).current.joints@ == old(self).current.joints@,
            final(self).current.lengths@ == old(self).current.lengths@,
            final(self).current.angles@ == old(self).current.angles@,
            final(self).current.prev_angles@ == old(self).current.prev_angles@,
            final(self).current.targets@ == old(self).current.targets@,
            heur_eq(final(self).current.motion_heuristics, old(self).current.motion_heuristics),
            final(self).current.lock_ground == old(self).current.lock_ground,
            final(self).preview == old(self).preview,
            final(self).initial_state == old(self).initial_state,
    {
        let prev_t = self.current.prev_time_micros;
        let elapsed: u64 = if now_micros > prev_t {
            now_micros - prev_t
        } else {
            1
        };
        let ghost e = elapsed_spec(prev_t, now_micros);
        let ghost goal = vel_seq_spec(self.current.angles@, self.current.prev_angles@, e);
        let mut vels: Vec<i64> = Vec::new();
        let mut i: usize = 0;
        while i < self.current.prev_angles.len()
            invariant
                i <= self.current.prev_angles@.len(),
                vels@ == goal.subrange(0, i as int),
                goal == vel_seq_spec(self.current.angles@, self.current.prev_angles@, e),
                e == elapsed_spec(prev_t, now_micros),
                elapsed as int == e,
                elapsed >= 1,
                old(self).wf(),
                *self == *old(self),
            decreases self.current.prev_angles@.len() - i,
        {
            let d = self.current.angles[i] - self.current.prev_angles[i];
            let v = scaled_rate(d, elapsed);
            proof {
                lemma_div_magnitude((d * VEL_SCALE) as int, e);
            }
            vels.push(v);
            proof {
                assert(goal.subrange(0, i as int).push(goal[i as int]) =~= goal.subrange(
                    0,
                    i as int + 1,
                ));
            }
            i = i + 1;
        }
        proof {
            assert(goal.subrange(0, goal.len() as int) =~= goal);
        }
        let frames = compute_frames(&self.current.joints);
        self.current.angular_velocities = vels;
        self.current.segment_transforms = frames;
        self.current.prev_time_micros = now_micros;
    }
}

/// The given targets with each position clamped into range.
pub open spec fn targets_clamped_spec(ts: Seq<(usize, Vec3Fx)>) -> Seq<(usize, Vec3Fx)> {
    ts.map(|i: int, t: (usize, Vec3Fx)| (t.0, clamp_vec_spec(t.1)))
}

/// One forward-pass step at joint pair `i`: reposition joint `i - 1` to lie
/// `lengths[i - 1]` from joint `i`, along the direction from joint `i` back
/// toward the old joint `i - 1`.
pub open spec fn fwd_step(s: Seq<Vec3Fx>, lens: Seq<i64>, i: int) -> Option<Seq<Vec3Fx>>
    recommends
        1 <= i < s.len(),
        lens.len() == s.len() - 1,
{
    match place_spec(s[i], s[i - 1], lens[i - 1]) {
        Option::None => Option::None,
        Option::Some(p) => Option::Some(s.update(i - 1, p)),
    }
}

/// The forward pass after its first `k` steps, sweeping from the end
/// effector toward the root. `None` as soon as a step hits a degenerate
/// (zero-direction) pair.
pub open spec fn fwd_partial(js: Seq<Vec3Fx>, lens: Seq<i64>, k: nat) -> Option<Seq<Vec3Fx>>
    recommends
        js.len() >= 2,
        lens.len() == js.len() - 1,
        k <= js.len() - 1,
    decreases k,
{
    if k == 0 {
        Option::Some(js)
    } else {
        match fwd_partial(js, lens, (k - 1) as nat) {
            Option::None => Option::None,
            Option::Some(s) => fwd_step(s, lens, js.len() - k),
        }
    }
}

/// The complete forward reach pass.
pub open spec fn fwd_pass_spec(js: Seq<Vec3Fx>, lens: Seq<i64>) -> Option<Seq<Vec3Fx>>
    recommends
        js.len() >= 2,
        lens.len() == js.len() - 1,
{
    fwd_partial(js, lens, (js.len() - 1) as nat)
}

/// One backward-pass step at joint pair `i`: reposition joint `i + 1` to lie
/// `lengths[i]` from joint `i`, along the direction from joint `i` toward
/// the old joint `i + 1`.
pub open spec fn bwd_step(s: Seq<Vec3Fx>, lens: Seq<i64>, i: int) -> Option<Seq<Vec3Fx>>
    recommends
        0 <= i < s.len() - 1,
        lens.len() == s.len() - 1,
{
    match place_spec(s[i], s[i + 1], lens[i]) {
        Option::None => Option::None,
        Option::Some(p) => Option::Some(s.update(i + 1, p)),
    }
}

/// The backward pass after its first `k` steps, sweeping from the root
/// toward the end effector.
pub open spec fn bwd_partial(js: Seq<Vec3Fx>, lens: Seq<i64>, k: nat) -> Option<Seq<Vec3Fx>>
    recommends
        js.len() >= 2,
        lens.len() == js.len() - 1,
        k <= js.len() - 1,
    decreases k,
{
    if k == 0 {
        Option::Some(js)
    } else {
        match bwd_partial(js, lens, (k - 1) as nat) {
            Option::None => Option::None,
            Option::Some(s) => bwd_step(s, lens, k - 1),
        }
    }
}

/// The complete backward reach pass.
pub open spec fn bwd_pass_spec(js: Seq<Vec3Fx>, lens: Seq<i64>) -> Option<Seq<Vec3Fx>>
    recommends
        js.len() >= 2,
        lens.len() == js.len() - 1,
{
    bwd_partial(js, lens, (js.len() - 1) as nat)
}

/// Once a pass has failed, it stays failed for any larger step count.
pub proof fn lemma_fwd_none_persists(js: Seq<Vec3Fx>, lens: Seq<i64>, k1: nat, k2: nat)
    requires
        k1 <= k2,
        fwd_partial(js, lens, k1) is None,
    ensures
        fwd_partial(js, lens, k2) is None,
    decreases k2,
{
    if k2 > k1 {
        lemma_fwd_none_persists(js, lens, k1, (k2 - 1) as nat);
    }
}

/// Once a pass has failed, it stays failed for any larger step count.
pub proof fn lemma_bwd_none_persists(js: Seq<Vec3Fx>, lens: Seq<i64>, k1: nat, k2: nat)
    requires
        k1 <= k2,
        bwd_partial(js, lens, k1) is None,
    ensures
        bwd_partial(js, lens, k2) is None,
    decreases k2,
{
    if k2 > k1 {
        lemma_bwd_none_persists(js, lens, k1, (k2 - 1) as nat);
    }
}

/// A forward pass never changes the number of joints.
pub proof fn lemma_fwd_len(js: Seq<Vec3Fx>, lens: Seq<i64>, k: nat)
    requires
        js.len() >= 2,
        lens.len() == js.len() - 1,
        k <= js.len() - 1,
    ensures
        fwd_partial(js, lens, k) matches Some(s) ==> s.len() == js.len(),
    decreases k,
{
    if k > 0 {
        lemma_fwd_len(js, lens, (k - 1) as nat);
    }
}

/// A backward pass never changes the number of joints, and never moves the
/// root joint.
pub proof fn lemma_bwd_keeps_root(js: Seq<Vec3Fx>, lens: Seq<i64>, k: nat)
    requires
        js.len() >= 2,
        lens.len() == js.len() - 1,
        k <= js.len() - 1,
    ensures
        bwd_partial(js, lens, k) matches Some(s) ==> s.len() == js.len() && (js.len() > 0 ==> s[0]
            == js[0]),
    decreases k,
{
    if k > 0 {
        lemma_bwd_keeps_root(js, lens, (k - 1) as nat);
    }
}

/// Every stored target, applied in order: each addressed joint is
/// overwritten with its target position.
pub open spec fn apply_targets_spec(js: Seq<Vec3Fx>, ts: Seq<(usize, Vec3Fx)>) -> Seq<Vec3Fx>
    decreases ts.len(),
{
    if ts.len() == 0 {
        js
    } else {
        let prev = apply_targets_spec(js, ts.drop_last());
        let t = ts.last();
        prev.update(t.0 as int, t.1)
    }
}

/// Applying targets never changes the number of joints.
pub proof fn lemma_apply_targets_len(js: Seq<Vec3Fx>, ts: Seq<(usize, Vec3Fx)>)
    requires
        forall|i: int| 0 <= i < ts.len() ==> (#[trigger] ts[i]).0 < js.len(),
    ensures
        apply_targets_spec(js, ts).len() == js.len(),
    decreases ts.len(),
{
    if ts.len() > 0 {
        lemma_apply_targets_len(js, ts.drop_last());
    }
}

/// One full solve round: apply every stored target, run the forward pass,
/// pin the root to the origin when the ground lock is on, then run the
/// backward pass.
pub open spec fn round_spec(
    js: Seq<Vec3Fx>,
    lens: Seq<i64>,
    ts: Seq<(usize, Vec3Fx)>,
    lock: bool,
) -> Option<Seq<Vec3Fx>> {
    let t = apply_targets_spec(js, ts);
    match fwd_pass_spec(t, lens) {
        Option::None => Option::None,
        Option::Some(f) => {
            let g = if lock {
                f.update(0, zero_spec())
            } else {
                f
            };
            bwd_pass_spec(g, lens)
        },
    }
}

/// The joint positions after `k` solve rounds, or `None` if any round hit a
/// degenerate pair.
pub open spec fn rounds_spec(
    js: Seq<Vec3Fx>,
    lens: Seq<i64>,
    ts: Seq<(usize, Vec3Fx)>,
    lock: bool,
    k: nat,
) -> Option<Seq<Vec3Fx>>
    decreases k,
{
    if k == 0 {
        Option::Some(js)
    } else {
        match rounds_spec(js, lens, ts, lock, (k - 1) as nat) {
            Option::None => Option::None,
            Option::Some(s) => round_spec(s, lens, ts, lock),
        }
    }
}

/// Once a round has failed, further rounds stay failed.
pub proof fn lemma_rounds_none_persists(
    js: Seq<Vec3Fx>,
    lens: Seq<i64>,
    ts: Seq<(usize, Vec3Fx)>,
    lock: bool,
    k1: nat,
    k2: nat,
)
    requires
        k1 <= k2,
        rounds_spec(js, lens, ts, lock, k1) is None,
    ensures
        rounds_spec(js, lens, ts, lock, k2) is None,
    decreases k2,
{
    if k2 > k1 {
        lemma_rounds_none_persists(js, lens, ts, lock, k1, (k2 - 1) as nat);
    }
}

/// A completed round keeps the joint count, and with the ground lock on it
/// leaves the root exactly at the origin.
pub proof fn lemma_round_props(
    js: Seq<Vec3Fx>,
    lens: Seq<i64>,
    ts: Seq<(usize, Vec3Fx)>,
    lock: bool,
)
    requires
        js.len() >= 2,
        lens.len() == js.len() - 1,
        forall|i: int| 0 <= i < ts.len() ==> (#[trigger] ts[i]).0 < js.len(),
    ensures
        round_spec(js, lens, ts, lock) matches Some(s) ==> s.len() == js.len() && (lock ==> s[0]
            == zero_spec()),
{
    lemma_apply_targets_len(js, ts);
    let t = apply_targets_spec(js, ts);
    match fwd_pass_spec(t, lens) {
        Option::None => {},
        Option::Some(f) => {
            lemma_fwd_len(t, lens, (t.len() - 1) as nat);
            let g = if lock {
                f.update(0, zero_spec())
            } else {
                f
            };
            lemma_bwd_keeps_root(g, lens, (g.len() - 1) as nat);
        },
    }
}

/// Any positive number of completed rounds keeps the joint count, and with
/// the ground lock on it leaves the root exactly at the origin.
pub proof fn lemma_rounds_props(
    js: Seq<Vec3Fx>,
    lens: Seq<i64>,
    ts: Seq<(usize, Vec3Fx)>,
    lock: bool,
    k: nat,
)
    requires
        js.len() >= 2,
        lens.len() == js.len() - 1,
        forall|i: int| 0 <= i < ts.len() ==> (#[trigger] ts[i]).0 < js.len(),
    ensures
        rounds_spec(js, lens, ts, lock, k) matches Some(s) ==> s.len() == js.len() && (lock && k
            >= 1 ==> s[0] == zero_spec()),
    decreases k,
{
    if k > 0 {
        lemma_rounds_props(js, lens, ts, lock, (k - 1) as nat);
        match rounds_spec(js, lens, ts, lock, (k - 1) as nat) {
            Option::None => {},
            Option::Some(s) => {
                lemma_round_props(s, lens, ts, lock);
            },
        }
    }
}

/// One bend angle per joint: the boundary joints are fixed straight at pi,
/// every interior joint carries the angle between the two segments meeting
/// there.
pub open spec fn angles_spec(js: Seq<Vec3Fx>) -> Seq<i64>
    recommends
        js.len() >= 2,
{
    Seq::new(
        js.len(),
        |i: int|
            if i == 0 || i == js.len() - 1 {
                PI_FX
            } else {
                interior_angle_spec(js[i - 1], js[i], js[i + 1])
            },
    )
}

/// The damped half-step of every joint toward its preview position.
pub open spec fn mild_spec(js: Seq<Vec3Fx>, pjs: Seq<Vec3Fx>) -> Seq<Vec3Fx>
    recommends
        pjs.len() == js.len(),
{
    Seq::new(js.len(), |i: int| half_step_spec(js[i], pjs[i]))
}

/// The joint's bend angle where one has been computed, zero before any
/// recomputation.
pub open spec fn angle_at(s: ChainState, i: int) -> i64 {
    if s.angles@.len() == s.joints@.len() {
        s.angles@[i]
    } else {
        0
    }
}

/// The damped-correction diagnostic of one joint: the unit direction of the
/// residual from the current position toward the preview position, scaled
/// down by the bend angle. Zero when the residual vanishes or no positive
/// angle is available.
pub open spec fn corrective_spec(c: Vec3Fx, p: Vec3Fx, angle: i64) -> Vec3Fx {
    if angle <= 0 {
        zero_spec()
    } else {
        let rh = normalize_or_spec(p.x - c.x, p.y - c.y, p.z - c.z, zero_spec());
        Vec3Fx {
            x: div_trunc(rh.x * FX_ONE, angle as int) as i64,
            y: div_trunc(rh.y * FX_ONE, angle as int) as i64,
            z: div_trunc(rh.z * FX_ONE, angle as int) as i64,
        }
    }
}

/// One corrective quantity per joint, against the preview positions.
pub open spec fn correctives_spec(cur: ChainState, pjs: Seq<Vec3Fx>) -> Seq<Vec3Fx>
    recommends
        pjs.len() == cur.joints@.len(),
{
    Seq::new(cur.joints@.len(), |i: int| corrective_spec(cur.joints@[i], pjs[i], angle_at(cur, i)))
}

/// The parts of a state that a reach pass leaves untouched.
pub open spec fn same_but_joints(pre: ChainState, post: ChainState) -> bool {
    &&& post.lengths@ == pre.lengths@
    &&& post.angles@ == pre.angles@
    &&& post.prev_angles@ == pre.prev_angles@
    &&& post.angular_velocities@ == pre.angular_velocities@
    &&& post.segment_transforms@ == pre.segment_transforms@
    &&& post.targets@ == pre.targets@
    &&& heur_eq(post.motion_heuristics, pre.motion_heuristics)
    &&& post.lock_ground == pre.lock_ground
    &&& post.prev_time_micros == pre.prev_time_micros
}

/// The parts of a state that a whole solve leaves untouched.
pub open spec fn statics_kept(pre: ChainState, post: ChainState) -> bool {
    &&& post.lengths@ == pre.lengths@
    &&& post.targets@ == pre.targets@
    &&& heur_eq(post.motion_heuristics, pre.motion_heuristics)
    &&& post.lock_ground == pre.lock_ground
}

impl FabrikChain {
    /// The forward reach pass: sweep from the end effector toward the root,
    /// repositioning each earlier joint to lie exactly its segment's length
    /// from the later joint, along their current direction. Fails with
    /// `DegenerateSegment`, leaving the chain untouched, if a step finds two
    /// coinciding joints.
    #[verifier::loop_isolation(false)]
    pub fn fwd_reach(&mut self) -> (r: Result<(), ChainError>)
        requires
            old(self).wf(),
        ensures
            final(self).wf(),
            match fwd_pass_spec(old(self).current.joints@, old(self).current.lengths@) {
                Option::Some(s) => r is Ok && final(self).current.joints@ == s,
                Option::None => r == Result::<(), ChainError>::Err(ChainError::DegenerateSegment)
                    && final(self).current.joints@ == old(self).current.joints@,
            },
            same_but_joints(old(self).current, final(self).current),
            final(self).current.joints@.len() == old(self).current.joints@.len(),
            final(self).preview == old(self).preview,
            final(self).initial_state == old(self).initial_state,
    {
        let ghost js0 = self.current.joints@;
        let ghost lens0 = self.current.lengths@;
        let n = self.current.joints.len();
        let mut js = copy_vec(&self.current.joints);
        let mut k: usize = 0;
        while k < n - 1
            invariant
                k <= n - 1,
                Option::Some(js@) == fwd_partial(js0, lens0, k as nat),
                js@.len() == n,
                forall|i: int| 0 <= i < js@.len() ==> (#[trigger] js@[i]).bounded(),
                *self == *old(self),
            decreases n - 1 - k,
        {
            let i = n - 1 - k;
            let np = place_at_distance(js[i], js[i - 1], self.current.lengths[i - 1]);
            match np {
                Option::Some(p) => {
                    js[i - 1] = p;
                    proof {
                        assert(Option::Some(js@) == fwd_partial(js0, lens0, (k + 1) as nat));
                    }
                },
                Option::None => {
                    proof {
                        assert(fwd_partial(js0, lens0, (k + 1) as nat) is None);
                        lemma_fwd_none_persists(js0, lens0, (k + 1) as nat, (n - 1) as nat);
                    }
                    return Result::Err(ChainError::DegenerateSegment);
                },
            }
            k = k + 1;
        }
        self.current.joints = js;
        Result::Ok(())
    }

    /// The backward reach pass: sweep from the root toward the end effector,
    /// repositioning each later joint to lie exactly its segment's length
    /// from the earlier joint, re-establishing the length constraints from a
    /// now-fixed root. Fails with `DegenerateSegment`, leaving the chain
    /// untouched, if a step finds two coinciding joints.
    #[verifier::loop_isolation(false)]
    pub fn bwd_reach(&mut self) -> (r: Result<(), ChainError>)
        requires
            old(self).wf(),
        ensures
            final(self).wf(),
            match bwd_pass_spec(old(self).current.joints@, old(self).current.lengths@) {
                Option::Some(s) => r is Ok && final(self).current.joints@ == s,
                Option::None => r == Result::<(), ChainError>::Err(ChainError::DegenerateSegment)
                    && final(self).current.joints@ == old(self).current.joints@,
            },
            same_but_joints(old(self).current, final(self).current),
            final(self).current.joints@.len() == old(self).current.joints@.len(),
            final(self).preview == old(self).preview,
            final(self).initial_state == old(self).initial_state,
    {
        let ghost js0 = self.current.joints@;
        let ghost lens0 = self.current.lengths@;
        let n = self.current.joints.len();
        let mut js = copy_vec(&self.current.joints);
        let mut k: usize = 0;
        while k < n - 1
            invariant
                k <= n - 1,
                Option::Some(js@) == bwd_partial(js0, lens0, k as nat),
                js@.len() == n,
                forall|i: int| 0 <= i < js@.len() ==> (#[trigger] js@[i]).bounded(),
                *self == *old(self),
            decreases n - 1 - k,
        {
            let np = place_at_distance(js[k], js[k + 1], self.current.lengths[k]);
            match np {
                Option::Some(p) => {
                    js[k + 1] = p;
                    proof {
                        assert(Option::Some(js@) == bwd_partial(js0, lens0, (k + 1) as nat));
                    }
                },
                Option::None => {
                    proof {
                        assert(bwd_partial(js0, lens0, (k + 1) as nat) is None);
                        lemma_bwd_none_persists(js0, lens0, (k + 1) as nat, (n - 1) as nat);
                    }
                    return Result::Err(ChainError::DegenerateSegment);
                },
            }
            k = k + 1;
        }
        self.current.joints = js;
        Result::Ok(())
    }

    /// Recompute every bend angle from the current joints, keeping the
    /// outgoing angle set as the baseline for velocity estimation: the
    /// boundary joints are fixed straight at pi, and every interior joint
    /// gets the angle between the vectors to its two neighbours.
    #[verifier::loop_isolation(false)]
    pub fn recalculate_angles(&mut self)
        requires
            old(self).wf(),
        ensures
            final(self).wf(),
            final(self).current.prev_angles@ == old(self).current.angles@,
            final(self).current.angles@ == angles_spec(old(self).current.joints@),
            final(self).current.angles@[0] == PI_FX,
            final(self).current.angles@[final(self).current.angles@.len() - 1] == PI_FX,
            final(self).current.joints@ == old(self).current.joints@,
            final(self).current.lengths@ == old(self).current.lengths@,
            final(self).current.angular_velocities@ == old(self).current.angular_velocities@,
            final(self).current.segment_transforms@ == old(self).current.segment_transforms@,
            final(self).current.targets@ == old(self).current.targets@,
            heur_eq(final(self).current.motion_heuristics, old(self).current.motion_heuristics),
            final(self).current.lock_ground == old(self).current.lock_ground,
            final(self).current.prev_time_micros == old(self).current.prev_time_micros,
            final(self).preview == old(self).preview,
            final(self).initial_state == old(self).initial_state,
    {
        let ghost goal = angles_spec(self.current.joints@);
        let n = self.current.joints.len();
        let mut na: Vec<i64> = Vec::new();
        na.push(PI_FX);
        proof {
            assert(na@ =~= goal.subrange(0, 1));
        }
        let mut i: usize = 1;
        while i < n - 1
            invariant
                1 <= i <= n - 1,
                na@ == goal.subrange(0, i as int),
                *self == *old(self),
            decreases n - 1 - i,
        {
            let a = interior_angle(
                self.current.joints[i - 1],
                self.current.joints[i],
                self.current.joints[i + 1],
            );
            na.push(a);
            proof {
                assert(goal.subrange(0, i as int).push(goal[i as int]) =~= goal.subrange(
                    0,
                    i as int + 1,
                ));
            }
            i = i + 1;
        }
        na.push(PI_FX);
        proof {
            assert(goal.subrange(0, n - 1 as int).push(goal[n - 1]) =~= goal.subrange(
                0,
                n as int,
            ));
            assert(goal.subrange(0, n as int) =~= goal);
        }
        let olda = copy_vec(&self.current.angles);
        self.current.prev_angles = olda;
        self.current.angles = na;
    }

    /// The solve dispatcher. `WithinTolerance` runs the full iterative
    /// solve: for each round it applies every stored target, runs the
    /// forward pass, pins the root to the origin when the ground lock is on,
    /// and runs the backward pass; it then recomputes angles from the final
    /// positions and derives velocities against the previous angle set.
    /// `MildDivergence` instead steps every joint halfway toward its
    /// committed preview position. `SevereDivergence` and
    /// `EnvironmentalCompensation` are unimplemented extension points and
    /// report `UnsupportedClassification` without touching the chain. All
    /// implemented branches conclude by recomputing the segment frames.
    #[verifier::loop_isolation(false)]
    pub fn solve(
        &mut self,
        iterations: usize,
        pose_discrepancy: PoseDiscrepancy,
        kinematics_mode: &mut KinematicsMode,
        now_micros: u64,
    ) -> (r: Result<(), ChainError>)
        requires
            old(self).wf(),
        ensures
            final(self).wf(),
            (pose_discrepancy == PoseDiscrepancy::SevereDivergence || pose_discrepancy
                == PoseDiscrepancy::EnvironmentalCompensation) ==> (r == Result::<
                (),
                ChainError,
            >::Err(ChainError::UnsupportedClassification) && *final(self) == *old(self)
                && *final(kinematics_mode) == *old(kinematics_mode)),
            pose_discrepancy == PoseDiscrepancy::WithinTolerance ==> (*final(kinematics_mode)
                == KinematicsMode::InverseKinematics && (match rounds_spec(
                old(self).current.joints@,
                old(self).current.lengths@,
                old(self).current.targets@,
                old(self).current.lock_ground,
                iterations as nat,
            ) {
                Option::Some(s) => {
                    &&& r is Ok
                    &&& final(self).current.joints@ == s
                    &&& final(self).current.prev_angles@ == old(self).current.angles@
                    &&& final(self).current.angles@ == angles_spec(s)
                    &&& final(self).current.angular_velocities@ == vel_seq_spec(
                        angles_spec(s),
                        old(self).current.angles@,
                        elapsed_spec(old(self).current.prev_time_micros, now_micros),
                    )
                    &&& final(self).current.segment_transforms@ == frames_seq_spec(s)
                    &&& final(self).current.prev_time_micros == now_micros
                    &&& statics_kept(old(self).current, final(self).current)
                    &&& final(self).preview == old(self).preview
                    &&& final(self).initial_state == old(self).initial_state
                    &&& (old(self).current.lock_ground && iterations >= 1 ==> s[0] == zero_spec())
                },
                Option::None => {
                    &&& r == Result::<(), ChainError>::Err(ChainError::DegenerateSegment)
                    &&& final(self).current.same_state(old(self).current)
                    &&& final(self).preview == old(self).preview
                    &&& final(self).initial_state == old(self).initial_state
                },
            })),
            pose_discrepancy == PoseDiscrepancy::MildDivergence ==> (*final(kinematics_mode)
                == KinematicsMode::ForwardKinematics && (match old(self).preview {
                Option::None => r == Result::<(), ChainError>::Err(ChainError::MissingPreview)
                    && final(self).current.same_state(old(self).current) && final(self).preview
                    == old(self).preview && final(self).initial_state == old(self).initial_state,
                Option::Some(p) => {
                    &&& r is Ok
                    &&& final(self).current.joints@ == mild_spec(
                        old(self).current.joints@,
                        p.joints@,
                    )
                    &&& final(self).current.angles@ == old(self).current.angles@
                    &&& final(self).current.prev_angles@ == old(self).current.prev_angles@
                    &&& final(self).current.angular_velocities@ == vel_seq_spec(
                        old(self).current.angles@,
                        old(self).current.prev_angles@,
                        elapsed_spec(old(self).current.prev_time_micros, now_micros),
                    )
                    &&& final(self).current.segment_transforms@ == frames_seq_spec(
                        mild_spec(old(self).current.joints@, p.joints@),
                    )
                    &&& final(self).current.prev_time_micros == now_micros
                    &&& statics_kept(old(self).current, final(self).current)
                    &&& final(self).preview == old(self).preview
                    &&& final(self).initial_state == old(self).initial_state
                },
            })),
    {
        match pose_discrepancy {
            PoseDiscrepancy::WithinTolerance => {
                *kinematics_mode = KinematicsMode::InverseKinematics;
                let ghost js0 = self.current.joints@;
                let ghost lens0 = self.current.lengths@;
                let ghost ts0 = self.current.targets@;
                let ghost lock0 = self.current.lock_ground;
                let n = self.current.joints.len();
                let saved = copy_vec(&self.current.joints);
                let mut it: usize = 0;
                while it < iterations
                    invariant
                        it <= iterations,
                        Option::Some(self.current.joints@) == rounds_spec(
                            js0,
                            lens0,
                            ts0,
                            lock0,
                            it as nat,
                        ),
                        self.current.joints@.len() == n,
                        self.current.wf(),
                        same_but_joints(old(self).current, self.current),
                        self.preview == old(self).preview,
                        self.initial_state == old(self).initial_state,
                        saved@ == js0,
                    decreases iterations - it,
                {
                    let ghost round_start = self.current.joints@;
                    let mut t: usize = 0;
                    while t < self.current.targets.len()
                        invariant
                            t <= self.current.targets@.len(),
                            self.current.joints@ == apply_targets_spec(
                                round_start,
                                ts0.subrange(0, t as int),
                            ),
                            self.current.joints@.len() == n,
                            self.current.wf(),
                            same_but_joints(old(self).current, self.current),
                            self.preview == old(self).preview,
                            self.initial_state == old(self).initial_state,
                        decreases self.current.targets@.len() - t,
                    {
                        let (idx, pos) = self.current.targets[t];
                        self.current.joints[idx] = pos;
                        proof {
                            let sub1 = ts0.subrange(0, t as int + 1);
                            assert(sub1.drop_last() =~= ts0.subrange(0, t as int));
                            assert(sub1.last() == ts0[t as int]);
                        }
                        t = t + 1;
                    }
                    proof {
                        assert(ts0.subrange(0, ts0.len() as int) =~= ts0);
                        lemma_apply_targets_len(round_start, ts0);
                    }
                    match self.fwd_reach() {
                        Result::Ok(_) => {},
                        Result::Err(_) => {
                            proof {
                                assert(round_spec(round_start, lens0, ts0, lock0) is None);
                                assert(rounds_spec(js0, lens0, ts0, lock0, (it + 1) as nat)
                                    is None);
                                lemma_rounds_none_persists(
                                    js0,
                                    lens0,
                                    ts0,
                                    lock0,
                                    (it + 1) as nat,
                                    iterations as nat,
                                );
                            }
                            self.current.joints = copy_vec(&saved);
                            return Result::Err(ChainError::DegenerateSegment);
                        },
                    }
                    let ghost after_fwd = self.current.joints@;
                    if self.current.lock_ground {
                        self.current.joints[0] = zero_vec();
                    }
                    let ghost locked = self.current.joints@;
                    proof {
                        assert(locked == if lock0 {
                            after_fwd.update(0, zero_spec())
                        } else {
                            after_fwd
                        });
                    }
                    match self.bwd_reach() {
                        Result::Ok(_) => {},
                        Result::Err(_) => {
                            proof {
                                assert(round_spec(round_start, lens0, ts0, lock0) is None);
                                assert(rounds_spec(js0, lens0, ts0, lock0, (it + 1) as nat)
                                    is None);
                                lemma_rounds_none_persists(
                                    js0,
                                    lens0,
                                    ts0,
                                    lock0,
                                    (it + 1) as nat,
                                    iterations as nat,
                                );
                            }
                            self.current.joints = copy_vec(&saved);
                            return Result::Err(ChainError::DegenerateSegment);
                        },
                    }
                    proof {
                        assert(Option::Some(self.current.joints@) == round_spec(
                            round_start,
                            lens0,
                            ts0,
                            lock0,
                        ));
                        assert(Option::Some(self.current.joints@) == rounds_spec(
                            js0,
                            lens0,
                            ts0,
                            lock0,
                            (it + 1) as nat,
                        ));
                    }
                    it = it + 1;
                }
                proof {
                    lemma_rounds_props(js0, lens0, ts0, lock0, iterations as nat);
                }
                self.recalculate_angles();
                self.recalculate_segments(now_micros);
                Result::Ok(())
            },
            PoseDiscrepancy::MildDivergence => {
                *kinematics_mode = KinematicsMode::ForwardKinematics;
                let ghost js0 = self.current.joints@;
                let n = self.current.joints.len();
                let pj = match &self.preview {
                    Option::Some(p) => copy_vec(&p.joints),
                    Option::None => {
                        return Result::Err(ChainError::MissingPreview);
                    },
                };
                let ghost pjs = pj@;
                let mut i: usize = 0;
                while i < n
                    invariant
                        i <= n,
                        self.current.joints@.len() == n,
                        pj@ == pjs,
                        pjs.len() == n,
                        forall|j: int| 0 <= j < n ==> (#[trigger] pjs[j]).bounded(),
                        forall|j: int|
                            0 <= j < i ==> #[trigger] self.current.joints@[j] == half_step_spec(
                                js0[j],
                                pjs[j],
                            ),
                        forall|j: int|
                            i <= j < n ==> #[trigger] self.current.joints@[j] == js0[j],
                        self.current.wf(),
                        same_but_joints(old(self).current, self.current),
                        self.preview == old(self).preview,
                        self.initial_state == old(self).initial_state,
                    decreases n - i,
                {
                    let cv = self.current.joints[i];
                    let h = half_step(cv, pj[i]);
                    self.current.joints[i] = h;
                    i = i + 1;
                }
                proof {
                    assert(self.current.joints@ =~= mild_spec(js0, pjs));
                }
                self.recalculate_segments(now_micros);
                Result::Ok(())
            },
            PoseDiscrepancy::SevereDivergence => {
                Result::Err(ChainError::UnsupportedClassification)
            },
            PoseDiscrepancy::EnvironmentalCompensation => {
                Result::Err(ChainError::UnsupportedClassification)
            },
        }
    }

    /// Restore every mutable field from the snapshot captured at
    /// construction, re-establish the preview snapshot from the restored
    /// state, and recompute frames and velocities. Fails with `NoSnapshot`
    /// if no initial snapshot exists.
    pub fn reset(&mut self, now_micros: u64) -> (r: Result<(), ChainError>)
        requires
            old(self).wf(),
        ensures
            final(self).wf(),
            old(self).initial_state is None ==> (r == Result::<(), ChainError>::Err(
                ChainError::NoSnapshot,
            ) && *final(self) == *old(self)),
            old(self).initial_state matches Some(s0) ==> {
                &&& r is Ok
                &&& final(self).current.joints@ == s0.joints@
                &&& final(self).current.lengths@ == s0.lengths@
                &&& final(self).current.angles@ == s0.angles@
                &&& final(self).current.prev_angles@ == s0.prev_angles@
                &&& final(self).current.targets@ == s0.targets@
                &&& heur_eq(final(self).current.motion_heuristics, s0.motion_heuristics)
                &&& final(self).current.lock_ground == s0.lock_ground
                &&& final(self).current.angular_velocities@ == vel_seq_spec(
                    s0.angles@,
                    s0.prev_angles@,
                    elapsed_spec(s0.prev_time_micros, now_micros),
                )
                &&& final(self).current.segment_transforms@ == frames_seq_spec(s0.joints@)
                &&& final(self).current.prev_time_micros == now_micros
                &&& (final(self).preview matches Some(p) && p.same_state(s0))
                &&& (final(self).initial_state matches Some(s) && s.same_state(s0))
            },
    {
        let restored = match &self.initial_state {
            Option::Some(init) => snapshot_state(init),
            Option::None => {
                return Result::Err(ChainError::NoSnapshot);
            },
        };
        proof {
            lemma_same_state_wf(old(self).initial_state->Some_0, restored);
        }
        let pre = snapshot_state(&restored);
        proof {
            lemma_same_state_wf(restored, pre);
        }
        self.current = restored;
        self.preview = Some(pre);
        self.recalculate_segments(now_micros);
        Result::Ok(())
    }

    /// The per-joint corrective quantities of the damped correction: the
    /// unit direction of each joint's residual toward its preview position,
    /// scaled down by the joint's current bend angle. They are reported for
    /// inspection and never applied to the chain. Fails with
    /// `MissingPreview` when no preview snapshot is present; before any
    /// angle recomputation every quantity is zero.
    #[verifier::loop_isolation(false)]
    pub fn corrective_quantities(&self) -> (r: Result<Vec<Vec3Fx>, ChainError>)
        requires
            self.wf(),
        ensures
            self.preview is None ==> r == Result::<Vec<Vec3Fx>, ChainError>::Err(
                ChainError::MissingPreview,
            ),
            self.preview matches Some(p) ==> (r matches Ok(v) && v@ == correctives_spec(
                self.current,
                p.joints@,
            )),
    {
        let pj = match &self.preview {
            Option::Some(p) => &p.joints,
            Option::None => {
                return Result::Err(ChainError::MissingPreview);
            },
        };
        let ghost goal = correctives_spec(self.current, pj@);
        let n = self.current.joints.len();
        let have_angles = self.current.angles.len() == n;
        let mut v: Vec<Vec3Fx> = Vec::new();
        let mut i: usize = 0;
        while i < n
            invariant
                i <= n,
                v@ == goal.subrange(0, i as int),
            decreases n - i,
        {
            let c = self.current.joints[i];
            let p = pj[i];
            let angle: i64 = if have_angles {
                self.current.angles[i]
            } else {
                0
            };
            let q: Vec3Fx = if angle <= 0 {
                zero_vec()
            } else {
                let rh = normalize_or(p.x - c.x, p.y - c.y, p.z - c.z, zero_vec());
                proof {
                    lemma_div_magnitude(rh.x * FX_ONE, angle as int);
                    lemma_div_magnitude(rh.y * FX_ONE, angle as int);
                    lemma_div_magnitude(rh.z * FX_ONE, angle as int);
                }
                Vec3Fx {
                    x: div_trunc_i128(rh.x as i128 * FX_ONE as i128, angle as i128) as i64,
                    y: div_trunc_i128(rh.y as i128 * FX_ONE as i128, angle as i128) as i64,
                    z: div_trunc_i128(rh.z as i128 * FX_ONE as i128, angle as i128) as i64,
                }
            };
            v.push(q);
            proof {
                assert(goal.subrange(0, i as int).push(goal[i as int]) =~= goal.subrange(
                    0,
                    i as int + 1,
                ));
            }
            i = i + 1;
        }
        proof {
            assert(goal.subrange(0, goal.len() as int) =~= goal);
        }
        Result::Ok(v)
    }

    /// The joint positions.
    pub fn joints(&self) -> (r: &Vec<Vec3Fx>)
        ensures
            r@ == self.current.joints@,
    {
        &self.current.joints
    }

    /// The per-segment frames.
    pub fn segment_transforms(&self) -> (r: &Vec<SegmentTransform>)
        ensures
            r@ == self.current.segment_transforms@,
    {
        &self.current.segment_transforms
    }

    /// The per-joint bend angles.
    pub fn angles(&self) -> (r: &Vec<i64>)
        ensures
            r@ == self.current.angles@,
    {
        &self.current.angles
    }

    /// The per-joint angular velocities.
    pub fn angular_velocities(&self) -> (r: &Vec<i64>)
        ensures
            r@ == self.current.angular_velocities@,
    {
        &self.current.angular_velocities
    }
}

} // verus!
