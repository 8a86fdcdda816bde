//! An ASCII-art torus ("donut") rasterizer on fixed-point arithmetic.
//!
//! The torus surface is sampled by two sweep angles, rotated through two
//! independent rotation angles, projected onto a character grid, depth-tested
//! per cell, and shaded by a thirteen-glyph brightness ramp. All geometry is
//! carried in signed fixed-point values, so the renderer runs on hosts without
//! a floating-point unit or a math library, and every step of the pipeline is
//! an exact integer computation that can be stated and proved.

pub mod config;
pub mod fixed;
pub mod laws;
pub mod render;
pub mod torus;

pub use config::Config;
pub use torus::Donut;
