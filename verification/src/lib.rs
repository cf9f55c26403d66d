//! A software rasterizer: a CPU-side pixel buffer with drawing primitives
//! (lines, filled triangles), a perspective projector, a fixed-point
//! rotator and flat shader, and a 2D ray/polygon intersection test.
//!
//! All geometry is carried in plain integers. Screen-space coordinates are
//! `isize` pixels; world-space values use a fixed-point representation with
//! `fixed::SCALE` sub-units per unit, so every computation is exact integer
//! arithmetic with truncating division, stated precisely in the contracts.

pub mod colors;
pub mod fixed;
pub mod framebuffer;
pub mod line;
pub mod project;
pub mod raycast;
pub mod rotate;
pub mod shade;
pub mod solid;
pub mod triangle;
