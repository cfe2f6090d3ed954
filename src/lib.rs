//! Collision geometry from the opacity of raster images: occupancy masks, traced
//! outlines, frame changes, heightfields and shape descriptors.

pub mod geometry;
pub mod mask;
pub mod trace;
pub mod frame;
pub mod heightfield;
pub mod shapes;
pub mod pipeline;
