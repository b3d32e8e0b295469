//! A software ray tracer for procedurally generated creatures: spheres and
//! tapered capsules are projected into a camera's screen space, composed
//! into a prunable tracer tree, accelerated by a uniform facet grid, and
//! resolved pixel by pixel into a raster buffer.  All geometry is carried
//! in 16.16 fixed-point arithmetic, so every computation is pinned down
//! exactly by the spec functions beside it.  The seeded pseudo-random
//! generator that drives creature assembly reproduces CPython 2's
//! `random` module bit for bit.

pub mod axis;
pub mod ball;
pub mod bone;
pub mod bone_tracer;
pub mod bounds;
pub mod color;
pub mod fixed;
pub mod projection;
pub mod pyrand;
pub mod raster;
pub mod rendering_parameters;
pub mod tracer;
pub mod vector;
pub mod world_view;
