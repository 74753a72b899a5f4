//! A recursive ray tracer over axis-aligned boxes, in exact integer arithmetic.
//!
//! Scalars in [0, 1] (weights, interpolation factors, intensities) are fixed-point
//! values where `FIXED_ONE` stands for 1.0. Positions and directions are integer
//! vectors; one world unit is `FIXED_ONE` steps.
pub mod color;
pub mod texture;
pub mod material;
pub mod cube;
pub mod light;
pub mod vector;
pub mod trace;
pub mod shade;
pub mod render;
