//! A verified FABRIK-style inverse-kinematics solver for articulated chains
//! of rigid links.
//!
//! All geometry is carried in 16.16 fixed-point integer arithmetic so that
//! every operation of the solver has an exact, machine-checked contract:
//! joint repositioning, bend-angle derivation, angular-velocity estimation,
//! segment frame construction, and the committed/preview snapshot mechanism.

pub mod angle;
pub mod chain;
pub mod fx;
pub mod laws;
pub mod vec3;
