pub mod base_mesh;
pub mod chunk_mesh;
pub mod chunk_mesh_builder;
