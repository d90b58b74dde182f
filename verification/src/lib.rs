//! Sample-and-reconstruct core: index-space geometry, dense rasters over it,
//! tileable sub-pixel sample sequences, and the reconstruction of an image
//! from weighted samples, with machine-checked contracts.

pub mod raster;
pub mod rectangle;
pub mod renderer;
pub mod sampler;
pub mod tiling;
