//! A chunked voxel world: streaming of fixed-size chunks around a moving
//! viewpoint, deterministic procedural terrain, and a cross-chunk-aware
//! face-culling mesh builder producing a packed vertex byte stream.

pub mod settings;
pub mod coords;
pub mod voxels;
pub mod shader_program;
pub mod meshes;
pub mod world_objects;
pub mod terrain;
pub mod world;
