use fabrik::chain::{FabrikChain, MotionHueristics};
use fabrik::fx::{isqrt_u128, FX_ONE, HALF_PI_FX, PI_FX};
use fabrik::vec3::{dist_fx, Vec3Fx};

fn v(x: i64, y: i64, z: i64) -> Vec3Fx {
    Vec3Fx { x, y, z }
}

fn chain_of(points: Vec<Vec3Fx>) -> FabrikChain {
    FabrikChain::new(points, MotionHueristics::default(), 0).unwrap()
}

#[test]
fn boundary_angles_are_pi() {
    let mut chain = chain_of(vec![
        v(0, 0, 0),
        v(FX_ONE, 0, 0),
        v(FX_ONE, FX_ONE, 0),
        v(FX_ONE, FX_ONE, FX_ONE),
    ]);
    chain.recalculate_angles();
    let angles = chain.angles();
    assert_eq!(angles.len(), 4);
    assert_eq!(angles[0], PI_FX);
    assert_eq!(angles[3], PI_FX);
}

#[test]
fn straight_interior_angle_is_pi() {
    let mut chain = chain_of(vec![v(0, 0, 0), v(FX_ONE, 0, 0), v(2 * FX_ONE, 0, 0)]);
    chain.recalculate_angles();
    assert_eq!(chain.angles(), &vec![PI_FX, PI_FX, PI_FX]);
}

#[test]
fn right_angle_interior() {
    let mut chain = chain_of(vec![v(0, 0, 0), v(FX_ONE, 0, 0), v(FX_ONE, FX_ONE, 0)]);
    chain.recalculate_angles();
    assert_eq!(chain.angles()[1], HALF_PI_FX);
}

#[test]
fn obtuse_interior_angle_approximation() {
    // 135 degrees; the rational arctangent is within half a percent.
    let mut chain = chain_of(vec![v(0, 0, 0), v(FX_ONE, 0, 0), v(2 * FX_ONE, FX_ONE, 0)]);
    chain.recalculate_angles();
    let a = chain.angles()[1];
    let exact = (3.0f64 * std::f64::consts::PI / 4.0 * 65536.0) as i64;
    assert!((a - exact).abs() < 600, "angle {} vs {}", a, exact);
}

#[test]
fn angle_swap_keeps_previous_set() {
    let mut chain = chain_of(vec![v(0, 0, 0), v(FX_ONE, 0, 0), v(2 * FX_ONE, 0, 0)]);
    chain.recalculate_angles();
    let first = chain.angles().clone();
    chain.recalculate_angles();
    assert_eq!(chain.current.prev_angles, first);
}

#[test]
fn fwd_reach_preserves_lengths() {
    let mut chain = chain_of(vec![v(0, 0, 0), v(FX_ONE, 0, 0), v(2 * FX_ONE, 0, 0)]);
    // Drag the end effector off axis, then restore the length constraints.
    chain.current.joints[2] = v(2 * FX_ONE, FX_ONE, 0);
    chain.fwd_reach().unwrap();
    for i in 0..2 {
        let d = dist_fx(chain.current.joints[i + 1], chain.current.joints[i]);
        assert!((d - FX_ONE).abs() <= 4, "segment {} has length {}", i, d);
    }
    // The forward pass leaves the end effector where it was put.
    assert_eq!(chain.current.joints[2], v(2 * FX_ONE, FX_ONE, 0));
}

#[test]
fn bwd_reach_preserves_lengths_and_root() {
    let mut chain = chain_of(vec![v(0, 0, 0), v(FX_ONE, 0, 0), v(2 * FX_ONE, 0, 0)]);
    chain.current.joints[0] = v(0, FX_ONE, 0);
    chain.bwd_reach().unwrap();
    assert_eq!(chain.current.joints[0], v(0, FX_ONE, 0));
    for i in 0..2 {
        let d = dist_fx(chain.current.joints[i + 1], chain.current.joints[i]);
        assert!((d - FX_ONE).abs() <= 4, "segment {} has length {}", i, d);
    }
}

#[test]
fn segment_frame_axes_and_midpoint() {
    let chain = chain_of(vec![v(0, 0, 0), v(FX_ONE, 0, 0)]);
    let frame = chain.segment_transforms()[0];
    assert_eq!(frame.translation, v(FX_ONE / 2, 0, 0));
    assert_eq!(frame.axis_x, v(0, 0, -FX_ONE));
    assert_eq!(frame.axis_y, v(FX_ONE, 0, 0));
    assert_eq!(frame.axis_z, v(0, -FX_ONE, 0));
}

#[test]
fn vertical_segment_uses_fallback_basis() {
    // The segment direction is parallel to world up, so the first cross
    // product degenerates and the defined fallback axis takes over.
    let chain = chain_of(vec![v(0, 0, 0), v(0, FX_ONE, 0)]);
    let frame = chain.segment_transforms()[0];
    assert_eq!(frame.axis_x, v(FX_ONE, 0, 0));
    assert_eq!(frame.axis_y, v(0, FX_ONE, 0));
}

#[test]
fn integer_square_root_is_exact() {
    assert_eq!(isqrt_u128(0), 0);
    assert_eq!(isqrt_u128(1), 1);
    assert_eq!(isqrt_u128(3), 1);
    assert_eq!(isqrt_u128(4), 2);
    assert_eq!(isqrt_u128(4294967296), 65536);
    assert_eq!(isqrt_u128(4294967295), 65535);
    assert_eq!(isqrt_u128(u128::MAX), u64::MAX);
}

#[test]
fn distance_of_three_four_five_triangle() {
    let d = dist_fx(v(0, 0, 0), v(3 * FX_ONE, 4 * FX_ONE, 0));
    assert_eq!(d, 5 * FX_ONE);
}
