//! Fixed-point controllers for a chase-camera ball demo: ball locomotion,
//! camera follow and depth-of-field auto-focus, each a pure per-frame step.

pub mod fixed;
pub mod vec3;
pub mod autofocus;
pub mod camera;
pub mod locomotion;
