use vstd::prelude::*;

verus! {

/// A finished mesh on the CPU side: the packed vertex bytes and the number
/// of vertices they encode. The rendering collaborator uploads the bytes and
/// draws `vertex_count` vertices; this crate only builds them.
pub struct BaseMesh {
    pub vertex_data: Vec<u8>,
    pub vertex_count: usize,
}

impl BaseMesh {
    /// The vertex count matches the byte stream: five bytes per vertex.
    pub open spec fn wf(&self) -> bool {
        self.vertex_count * 5 == self.vertex_data@.len()
    }
}

} // verus!
