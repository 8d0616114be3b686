use vstd::prelude::*;

verus! {

/// Handle of the rendering backend's chunk shader program. The backend
/// compiles and links the program and hands its id in; this crate only
/// carries the id alongside the world it draws.
pub struct ShaderProgram {
    chunk: u32,
}

impl ShaderProgram {
    /// The stored program id.
    pub closed spec fn id(&self) -> u32 {
        self.chunk
    }

    /// Wrap a linked chunk program's id.
    pub fn new(chunk: u32) -> (p: ShaderProgram)
        ensures
            p.id() == chunk,
    {
        ShaderProgram { chunk }
    }

    /// The id to bind when drawing chunk meshes.
    pub fn chunk_program(&self) -> (r: u32)
        ensures
            r == self.id(),
    {
        self.chunk
    }
}

} // verus!
