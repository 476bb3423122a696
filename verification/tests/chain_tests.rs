use fabrik::chain::{ChainError, FabrikChain, KinematicsMode, MotionHueristics, PoseDiscrepancy};
use fabrik::fx::{COORD_LIMIT, FX_ONE, PI_FX};
use fabrik::vec3::Vec3Fx;

fn v(x: i64, y: i64, z: i64) -> Vec3Fx {
    Vec3Fx { x, y, z }
}

fn straight_five() -> FabrikChain {
    let joints = vec![
        v(0, 0, 0),
        v(FX_ONE, 0, 0),
        v(2 * FX_ONE, 0, 0),
        v(3 * FX_ONE, 0, 0),
        v(4 * FX_ONE, 0, 0),
    ];
    FabrikChain::new(joints, MotionHueristics::default(), 1_000_000).unwrap()
}

#[test]
fn construct_single_joint_rejected() {
    let r = FabrikChain::new(vec![v(0, 0, 0)], MotionHueristics::default(), 0);
    assert!(matches!(r, Err(ChainError::InvalidChain)));
}

#[test]
fn construct_empty_rejected() {
    let r = FabrikChain::new(vec![], MotionHueristics::default(), 0);
    assert!(matches!(r, Err(ChainError::InvalidChain)));
}

#[test]
fn construct_coincident_joints_rejected() {
    let joints = vec![v(0, 0, 0), v(FX_ONE, 0, 0), v(FX_ONE, 0, 0)];
    let r = FabrikChain::new(joints, MotionHueristics::default(), 0);
    assert!(matches!(r, Err(ChainError::DegenerateSegment)));
}

#[test]
fn construction_records_unit_lengths() {
    let chain = straight_five();
    assert_eq!(chain.current.lengths, vec![FX_ONE, FX_ONE, FX_ONE, FX_ONE]);
    assert!(chain.current.angles.is_empty());
    assert!(chain.current.prev_angles.is_empty());
    assert!(chain.current.angular_velocities.is_empty());
    assert!(chain.current.targets.is_empty());
    assert!(chain.current.lock_ground);
    assert_eq!(chain.current.segment_transforms.len(), 4);
    let preview = chain.preview.as_ref().expect("preview captured at construction");
    assert_eq!(preview.joints, chain.current.joints);
    assert!(chain.initial_state.is_some());
}

#[test]
fn straight_chain_convergence() {
    let mut chain = straight_five();
    let target = v(3 * FX_ONE, FX_ONE, 0);
    chain.set_targets(vec![(4, target)]);
    let mut mode = KinematicsMode::InverseKinematics;
    let r = chain.solve(10, PoseDiscrepancy::WithinTolerance, &mut mode, 2_000_000);
    assert!(r.is_ok());
    // Ground lock pins the root to the origin exactly.
    assert_eq!(chain.current.joints[0], v(0, 0, 0));
    // The end effector reaches the (reachable) target within tolerance.
    let ee = chain.get_ee();
    let eps = FX_ONE / 100;
    assert!((ee.x - target.x).abs() <= eps, "ee.x = {}", ee.x);
    assert!((ee.y - target.y).abs() <= eps, "ee.y = {}", ee.y);
    assert!((ee.z - target.z).abs() <= eps, "ee.z = {}", ee.z);
    // The recorded lengths are untouched.
    assert_eq!(chain.current.lengths, vec![FX_ONE, FX_ONE, FX_ONE, FX_ONE]);
    // And the joint spacing still matches them within tolerance.
    for i in 0..4 {
        let d = fabrik::vec3::dist_fx(chain.current.joints[i + 1], chain.current.joints[i]);
        assert!((d - FX_ONE).abs() <= 8, "segment {} has length {}", i, d);
    }
}

#[test]
fn solve_severe_unsupported() {
    let mut chain = straight_five();
    let before = chain.current.joints.clone();
    let mut mode = KinematicsMode::InverseKinematics;
    let r = chain.solve(5, PoseDiscrepancy::SevereDivergence, &mut mode, 2_000_000);
    assert!(matches!(r, Err(ChainError::UnsupportedClassification)));
    assert_eq!(chain.current.joints, before);
    assert!(matches!(mode, KinematicsMode::InverseKinematics));
}

#[test]
fn solve_environmental_unsupported() {
    let mut chain = straight_five();
    let before = chain.current.joints.clone();
    let mut mode = KinematicsMode::ForwardKinematics;
    let r = chain.solve(5, PoseDiscrepancy::EnvironmentalCompensation, &mut mode, 2_000_000);
    assert!(matches!(r, Err(ChainError::UnsupportedClassification)));
    assert_eq!(chain.current.joints, before);
    assert!(matches!(mode, KinematicsMode::ForwardKinematics));
}

#[test]
fn degenerate_target_leaves_chain_unchanged() {
    let mut chain = FabrikChain::new(
        vec![v(0, 0, 0), v(FX_ONE, 0, 0)],
        MotionHueristics::default(),
        0,
    )
    .unwrap();
    // Pinning the root onto the other joint collapses the only segment.
    chain.set_targets(vec![(0, v(FX_ONE, 0, 0))]);
    let before = chain.current.joints.clone();
    let mut mode = KinematicsMode::InverseKinematics;
    let r = chain.solve(3, PoseDiscrepancy::WithinTolerance, &mut mode, 1);
    assert!(matches!(r, Err(ChainError::DegenerateSegment)));
    assert_eq!(chain.current.joints, before);
}

#[test]
fn reset_restores_construction() {
    let mut chain = straight_five();
    let joints0 = chain.current.joints.clone();
    let lengths0 = chain.current.lengths.clone();
    let lock0 = chain.current.lock_ground;
    chain.set_targets(vec![(4, v(0, 2 * FX_ONE, 0))]);
    let mut mode = KinematicsMode::InverseKinematics;
    chain
        .solve(10, PoseDiscrepancy::WithinTolerance, &mut mode, 2_000_000)
        .unwrap();
    assert_ne!(chain.current.joints, joints0);
    let r = chain.reset(3_000_000);
    assert!(r.is_ok());
    assert_eq!(chain.current.joints, joints0);
    assert_eq!(chain.current.lengths, lengths0);
    assert_eq!(chain.current.lock_ground, lock0);
    assert!(chain.current.targets.is_empty());
    assert!(chain.current.angles.is_empty());
}

#[test]
fn no_snapshot_reset_rejected() {
    let mut chain = straight_five();
    chain.initial_state = None;
    let r = chain.reset(9);
    assert!(matches!(r, Err(ChainError::NoSnapshot)));
}

#[test]
fn finalize_refreshes_preview() {
    let mut chain = straight_five();
    chain.set_targets(vec![(4, v(3 * FX_ONE, FX_ONE, 0))]);
    let mut mode = KinematicsMode::InverseKinematics;
    chain
        .solve(10, PoseDiscrepancy::WithinTolerance, &mut mode, 2_000_000)
        .unwrap();
    assert_ne!(
        chain.preview.as_ref().unwrap().joints,
        chain.current.joints
    );
    chain.finalize();
    assert_eq!(chain.preview.as_ref().unwrap().joints, chain.current.joints);
    // Repeating the commit only refreshes the snapshot.
    chain.finalize();
    assert_eq!(chain.preview.as_ref().unwrap().joints, chain.current.joints);
}

#[test]
fn mild_divergence_steps_halfway_to_preview() {
    let mut chain = straight_five();
    chain.finalize();
    let preview_joints = chain.preview.as_ref().unwrap().joints.clone();
    chain.set_targets(vec![(4, v(3 * FX_ONE, FX_ONE, 0))]);
    let mut mode = KinematicsMode::InverseKinematics;
    chain
        .solve(10, PoseDiscrepancy::WithinTolerance, &mut mode, 2_000_000)
        .unwrap();
    let before = chain.current.joints.clone();
    let r = chain.solve(10, PoseDiscrepancy::MildDivergence, &mut mode, 3_000_000);
    assert!(r.is_ok());
    assert!(matches!(mode, KinematicsMode::ForwardKinematics));
    for i in 0..before.len() {
        let expect = |c: i64, p: i64| {
            let d = p - c;
            let h = if d >= 0 { d / 2 } else { -((-d) / 2) };
            c + h
        };
        assert_eq!(chain.current.joints[i].x, expect(before[i].x, preview_joints[i].x));
        assert_eq!(chain.current.joints[i].y, expect(before[i].y, preview_joints[i].y));
        assert_eq!(chain.current.joints[i].z, expect(before[i].z, preview_joints[i].z));
    }
}

#[test]
fn mild_divergence_without_preview_rejected() {
    let mut chain = straight_five();
    chain.preview = None;
    let before = chain.current.joints.clone();
    let mut mode = KinematicsMode::InverseKinematics;
    let r = chain.solve(10, PoseDiscrepancy::MildDivergence, &mut mode, 2_000_000);
    assert!(matches!(r, Err(ChainError::MissingPreview)));
    assert_eq!(chain.current.joints, before);
    assert!(matches!(mode, KinematicsMode::ForwardKinematics));
}

#[test]
fn first_tick_velocity_is_empty() {
    let mut chain = straight_five();
    assert!(chain.angular_velocities().is_empty());
    let mut mode = KinematicsMode::InverseKinematics;
    // The first solve still has no angle history to difference against.
    chain
        .solve(10, PoseDiscrepancy::WithinTolerance, &mut mode, 2_000_000)
        .unwrap();
    assert!(chain.angular_velocities().is_empty());
    // From the second solve on there is one velocity per joint.
    chain
        .solve(10, PoseDiscrepancy::WithinTolerance, &mut mode, 3_000_000)
        .unwrap();
    assert_eq!(chain.angular_velocities().len(), 5);
}

#[test]
fn angular_velocity_values() {
    let mut chain = straight_five();
    let mut mode = KinematicsMode::InverseKinematics;
    chain
        .solve(10, PoseDiscrepancy::WithinTolerance, &mut mode, 2_000_000)
        .unwrap();
    // A straight chain with no targets stays straight: every angle is pi.
    assert_eq!(chain.angles(), &vec![PI_FX; 5]);
    chain.set_targets(vec![(4, v(3 * FX_ONE, FX_ONE, 0))]);
    chain
        .solve(10, PoseDiscrepancy::WithinTolerance, &mut mode, 3_000_000)
        .unwrap();
    // One second elapsed, so each velocity is exactly the angle difference.
    let expected: Vec<i64> = chain
        .angles()
        .iter()
        .map(|a| a - PI_FX)
        .collect();
    assert_eq!(chain.angular_velocities(), &expected);
    assert!(expected.iter().any(|d| *d != 0));
}

#[test]
fn targets_are_clamped_into_range() {
    let mut chain = straight_five();
    chain.set_targets(vec![(4, v(i64::MAX, -i64::MAX, 0))]);
    assert_eq!(chain.current.targets[0].1, v(COORD_LIMIT, -COORD_LIMIT, 0));
}

#[test]
fn get_ee_returns_last_joint() {
    let chain = straight_five();
    assert_eq!(chain.get_ee(), v(4 * FX_ONE, 0, 0));
    assert_eq!(chain.joints().len(), 5);
}

#[test]
fn later_duplicate_target_wins() {
    let mut chain = straight_five();
    let before = chain.current.joints.clone();
    // Two targets address the same joint; the later one is applied last and
    // pins the end effector back onto its resting position, so the solved
    // chain does not move at all.
    chain.set_targets(vec![(4, v(5 * FX_ONE, 0, 0)), (4, v(4 * FX_ONE, 0, 0))]);
    let mut mode = KinematicsMode::InverseKinematics;
    chain
        .solve(10, PoseDiscrepancy::WithinTolerance, &mut mode, 2_000_000)
        .unwrap();
    assert_eq!(chain.current.joints, before);
}

#[test]
fn unlocked_root_follows_the_pull() {
    let mut chain = straight_five();
    chain.current.lock_ground = false;
    // An unreachable target along the axis drags the whole chain one unit.
    chain.set_targets(vec![(4, v(5 * FX_ONE, 0, 0))]);
    let mut mode = KinematicsMode::InverseKinematics;
    chain
        .solve(1, PoseDiscrepancy::WithinTolerance, &mut mode, 2_000_000)
        .unwrap();
    assert_eq!(chain.current.joints[0], v(FX_ONE, 0, 0));
    assert_eq!(chain.get_ee(), v(5 * FX_ONE, 0, 0));
}

#[test]
fn zero_iterations_only_recomputes_derived_state() {
    let mut chain = straight_five();
    chain.set_targets(vec![(4, v(3 * FX_ONE, FX_ONE, 0))]);
    let before = chain.current.joints.clone();
    let mut mode = KinematicsMode::InverseKinematics;
    chain
        .solve(0, PoseDiscrepancy::WithinTolerance, &mut mode, 2_000_000)
        .unwrap();
    assert_eq!(chain.current.joints, before);
    assert_eq!(chain.angles(), &vec![PI_FX; 5]);
    assert_eq!(chain.segment_transforms().len(), 4);
}

#[test]
fn corrective_quantities_follow_residuals() {
    let mut chain = FabrikChain::new(
        vec![v(0, 0, 0), v(FX_ONE, 0, 0)],
        MotionHueristics::default(),
        0,
    )
    .unwrap();
    // Before any angle recomputation every quantity is zero.
    let q0 = chain.corrective_quantities().unwrap();
    assert_eq!(q0, vec![v(0, 0, 0), v(0, 0, 0)]);
    chain.recalculate_angles();
    // Move the end effector away from its preview position.
    chain.current.joints[1] = v(0, FX_ONE, 0);
    let q = chain.corrective_quantities().unwrap();
    // The root has no residual, so its quantity stays zero.
    assert_eq!(q[0], v(0, 0, 0));
    // The end effector's residual (1, -1, 0) normalized and divided by pi.
    assert_eq!(q[1], v(14750, -14750, 0));
    // Without a preview the quantities are unavailable.
    chain.preview = None;
    assert!(matches!(chain.corrective_quantities(), Err(ChainError::MissingPreview)));
}

#[test]
fn heuristics_are_carried_through() {
    let heur = MotionHueristics::new(
        vec![(1, v(FX_ONE, 0, 0), fabrik::chain::RotationFx { x: 0, y: 0, z: 0, w: FX_ONE })],
        vec![(0, 3, -1)],
    );
    let chain = FabrikChain::new(
        vec![v(0, 0, 0), v(FX_ONE, 0, 0)],
        heur,
        0,
    )
    .unwrap();
    assert_eq!(chain.current.motion_heuristics.anchor_points.len(), 1);
    assert_eq!(chain.current.motion_heuristics.parent_ranking, vec![(0, 3, -1)]);
}
