//! A per-frame character controller for a small 3D platformer: a rolling
//! ball that jumps, lands on axis-aligned boxes, reaches a goal and is
//! followed by an orbiting camera.
//!
//! Every quantity is a fixed-point number held in an `i32`, in thousandths
//! of a world unit (or of a radian, for angles). A result that would leave
//! the range of an `i32` stops at the nearest end of it, and quotients
//! round toward zero; the contracts say where either happens.
//!
//! The library does no trigonometry. Where a rotation is needed, the host
//! hands in the sine and cosine of an angle that the library holds.

pub mod camera;
pub mod collision;
pub mod geometry;
pub mod level;
pub mod level_file;
pub mod player;
pub mod scalar;
pub mod world;
