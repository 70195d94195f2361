//! Streaming voxel terrain: block columns and chunks, the sliding window of
//! loaded chunks, and the marching-cubes topology that turns a sampled field
//! into an indexed triangle mesh.
//!
//! Everything here works on integers and flags. Continuous quantities (kernel
//! radii, interpolated vertex positions, normals, blend weights) belong to the
//! caller, which hands this library block coordinates and per-sample flags and
//! receives index structures back.

pub mod chunk;
pub mod chunk_position;
pub mod common;
pub mod config;
pub mod discrete;
pub mod marching_cubes;
pub mod material_tower;
pub mod mesh;
pub mod minecraft;
pub mod options;
pub mod recentering;
pub mod render_state;
pub mod sequences;
pub mod surface;
pub mod tables;
