//! Runtime core of a real-time 3D renderer.
//!
//! The crate keeps an animated, hierarchical scene description, resolves
//! per-node world transforms, samples keyframe animations against a running
//! clock, and drives a bounded, frame-synchronized presentation loop.
//!
//! All geometry is carried in 16.16 fixed-point coordinates so that every
//! transform computation has an exact mathematical meaning; times are integer
//! ticks. Conversions from floating-point asset data happen outside this
//! crate.

pub mod animation;
pub mod asset;
pub mod fixed;
pub mod frame_sync;
pub mod mat4;
pub mod render_loop;
pub mod scene;
pub mod texture;
pub mod transform;
