//! Core algorithms of a voxel-world content server.
//!
//! The hosting simulation engine supplies chunk storage, entity scheduling,
//! networking and physics; this crate contributes the algorithmic subsystems
//! that run on top of it: the procedural terrain-generation pipeline (layered
//! noise shaping, biome classification, L-system tree placement, chunk
//! stages) and the spatial-query and voxel pathfinding subsystem (a
//! nearest-neighbor index over entity positions, a voxel-aware A* search, and
//! the steering that walks agents along the result).
//!
//! All scalar fields that the engine computes with floating point (noise
//! samples, curve control points, entity positions, angles) are carried here
//! as fixed-point integers with [`fixed::FP_ONE`] fractional units per whole
//! unit; the engine's seeded coherent-noise evaluation itself stays outside
//! and its raw samples are handed in as plain values.

pub mod astar;
pub mod chunk;
pub mod components;
pub mod curve;
pub mod errors;
pub mod fixed;
pub mod kdtree;
pub mod lsystem;
pub mod observe;
pub mod pathfind;
pub mod registry;
pub mod stages;
pub mod terrain;
pub mod tree;
pub mod walk;
