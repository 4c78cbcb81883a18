//! Mesh ingestion, node-pool serialization and viewer input logic for
//! sparse-voxel-DAG tooling, with every function verified.
//!
//! Real coordinates are carried as IEEE-754 single-precision bit patterns
//! (`u32`), so that the library can order and copy them without performing
//! floating-point arithmetic.

pub mod aabb;
pub mod codec;
pub mod coord;
pub mod distinct;
pub mod material;
pub mod mesh;
pub mod scene;
pub mod viewer;
