//! The integer core of a small ray tracer.
//!
//! A scene of spheres lit by point lights is rendered into a buffer of
//! pixels. The geometry is worked out in floating point by the caller; what
//! is decided and counted stands here: the walk over the pixels, the choice
//! of the closest hit, the shadows, the blending of colors, and the frame.

pub mod camera;
pub mod color;
pub mod double;
pub mod framerate;
pub mod input;
pub mod light_ray;
pub mod object;
pub mod primitives;
pub mod scene;
