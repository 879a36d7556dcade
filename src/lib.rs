//! Procedural world generation on a fixed-point grid: biome classification,
//! tile construction, deterministic grid assembly, coastline tagging and
//! river tracing.

pub mod fixed;
pub mod params;
pub mod biome;
pub mod grid;
pub mod tile;
pub mod world;
pub mod river;
pub mod random;
pub mod position;
pub mod image;
