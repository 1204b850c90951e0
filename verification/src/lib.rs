//! The integer core of a small path tracer: the pixel neighbourhoods that
//! the bilateral filter averages over, the lattice hashing of Perlin noise,
//! and the bookkeeping of the bounding-volume hierarchy (split axis, halving
//! of the object list, corners of a box).

pub mod bvh;
pub mod materials;
pub mod noise;
pub mod postprocessing;
mod random;
pub mod texture;
pub mod write_img;
