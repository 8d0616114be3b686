use vstd::prelude::*;
use vstd::arithmetic::div_mod::lemma_fundamental_div_mod;
use crate::coords::ChunkCoord;
use crate::meshes::base_mesh::BaseMesh;
use crate::meshes::chunk_mesh_builder::{build_chunk_mesh, mesh_spec};
use crate::voxels::VoxelBuffer;
use crate::world_objects::chunk::{chunks_view, chunks_wf, coords_unique, voxels_view_of, Chunk};

verus! {

/// The renderable surface of one chunk, in the packed five-bytes-per-vertex
/// layout: local x, local y, local z, material id, face id.
pub struct ChunkMesh {
    pub base: BaseMesh,
}

impl ChunkMesh {
    pub open spec fn wf(&self) -> bool {
        self.base.wf()
    }

    /// Build the mesh of the chunk with buffer `chunk_voxels` at grid
    /// position `chunk_pos`, culling faces against its own voxels and
    /// against the resident chunks in `chunks`.
    pub fn new(chunk_voxels: &VoxelBuffer, chunk_pos: ChunkCoord, chunks: &Vec<Chunk>) -> (m:
        ChunkMesh)
        requires
            chunk_voxels.wf(),
            coords_unique(chunks@),
            chunks_wf(chunks@),
        ensures
            m.wf(),
            m.base.vertex_data@ == mesh_spec(
                chunk_voxels@,
                chunk_pos@,
                voxels_view_of(chunks_view(chunks@)),
            ),
    {
        let vertex_data = build_chunk_mesh(chunk_voxels, chunk_pos, chunks);
        let vertex_count = vertex_data.len() / 5;
        proof {
            lemma_fundamental_div_mod(vertex_data@.len() as int, 5);
        }
        ChunkMesh { base: BaseMesh { vertex_data, vertex_count } }
    }

    /// Hand the rendering collaborator its draw input: the packed vertex
    /// bytes and the number of vertices to draw.
    pub fn render(&self) -> (r: (&Vec<u8>, usize))
        ensures
            r.0@ == self.base.vertex_data@,
            r.1 == self.base.vertex_count,
    {
        (&self.base.vertex_data, self.base.vertex_count)
    }
}

} // verus!
