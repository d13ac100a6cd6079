//! A software 3D rasterizer: mesh loading, rigid/scale transforms, backface
//! culling, perspective projection, painter's-algorithm depth ordering, and a
//! scanline triangle rasterizer writing into an RGBA8 pixel buffer.
//!
//! All geometry is carried in signed Q16.16 fixed-point integers, so every
//! stage of the pipeline has an exact arithmetic meaning that the contracts
//! state and the proofs cover.

pub mod consts;
pub mod display;
pub mod fixed;
pub mod helpers;
pub mod light;
pub mod matrix;
pub mod mesh;
pub mod obj;
pub mod render;
pub mod triangle;
pub mod vector;
