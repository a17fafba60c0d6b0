//! Smooth mesh gradients: bicubic Hermite (Ferguson) patches fitted between a
//! grid of colored control points, evaluated exactly in fixed-point arithmetic
//! and tessellated into a triangle mesh.

pub mod error;
pub mod grid;
pub mod hermite;
pub mod patch;
pub mod tessellate;
pub mod preview;
