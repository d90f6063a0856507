//! Terrain engine of a side-scrolling block world: chunked procedural terrain,
//! a sliding window of loaded chunks, light propagation and water flow.
//!
//! Every quantity that varies continuously (terrain height and slope, water)
//! is a fixed-point integer, so that the whole engine is exact and verified.

pub mod actions;
pub mod blocks;
pub mod chunks;
pub mod conservation;
pub mod coords;
pub mod items;
pub mod light;
pub mod map;
pub mod noise;
pub mod random;
pub mod relaxation;
pub mod render;
pub mod textures;
pub mod water;
pub mod window;
