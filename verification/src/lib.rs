//! A scanline rasterizer for planar paths built from line and quadratic
//! Bezier segments.
//!
//! All geometry is carried in fixed-point coordinates (see [`fx`]): an
//! `i64` stores a coordinate or curve parameter in units of `1 / SCALE`.
//! Every routine states its exact arithmetic in its contract, so the
//! winding bookkeeping of the renderer is proved rather than sampled.

pub mod fx;
pub mod point;
pub mod line;
pub mod quadratic;
pub mod curve;
pub mod path;
pub mod render;
pub mod canvas;
