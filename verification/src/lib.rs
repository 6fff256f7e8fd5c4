//! Tiled GPU textures for raster images larger than the hardware limit.
//!
//! A raster image wider or taller than the GPU's maximum single-texture
//! dimension is uploaded as a row-major grid of tiles. This crate computes
//! the partition geometry, extracts each tile's pixels, and drives the GPU
//! allocation and in-place refresh of the tile set.

pub mod geometry;
pub mod message;
pub mod raster;
pub mod texture;
