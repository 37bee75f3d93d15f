//! Integer core of a Monte-Carlo path tracer: object references, bounding
//! volume hierarchy topology, Perlin permutation tables, image texel lookup
//! and pixel buffer assembly.

pub mod bvh;
pub mod image;
pub mod object;
pub mod perlin;
pub mod rng;
pub mod texture;
