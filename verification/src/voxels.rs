use vstd::prelude::*;
use vstd::arithmetic::div_mod::{
    lemma_div_denominator, lemma_div_is_ordered, lemma_fundamental_div_mod,
    lemma_fundamental_div_mod_converse, lemma_mod_division_less_than_divisor,
};
use crate::settings::{CHUNK_AREA, CHUNK_SIZE, CHUNK_VOL};

verus! {

/// Linear index of the local voxel `(x, y, z)` inside a chunk's buffer.
pub open spec fn vox_index_spec(x: int, y: int, z: int) -> int {
    x + (CHUNK_SIZE as int) * z + (CHUNK_AREA as int) * y
}

/// Local x coordinate encoded in a linear index.
pub open spec fn vox_x_of(i: int) -> int {
    i % (CHUNK_SIZE as int)
}

/// Local z coordinate encoded in a linear index.
pub open spec fn vox_z_of(i: int) -> int {
    (i / (CHUNK_SIZE as int)) % (CHUNK_SIZE as int)
}

/// Local y coordinate encoded in a linear index.
pub open spec fn vox_y_of(i: int) -> int {
    i / (CHUNK_AREA as int)
}

/// Encoding local coordinates gives an in-range index, and decoding it
/// returns the same coordinates.
pub proof fn lemma_vox_index_decode(x: int, y: int, z: int)
    requires
        0 <= x < CHUNK_SIZE,
        0 <= y < CHUNK_SIZE,
        0 <= z < CHUNK_SIZE,
    ensures
        0 <= vox_index_spec(x, y, z) < CHUNK_VOL,
        vox_x_of(vox_index_spec(x, y, z)) == x,
        vox_y_of(vox_index_spec(x, y, z)) == y,
        vox_z_of(vox_index_spec(x, y, z)) == z,
{
    let i = vox_index_spec(x, y, z);
    assert(i == 32 * (z + 32 * y) + x);
    lemma_fundamental_div_mod_converse(i, 32, z + 32 * y, x);
    lemma_fundamental_div_mod_converse(z + 32 * y, 32, y, z);
    assert(i == 1024 * y + (x + 32 * z));
    lemma_fundamental_div_mod_converse(i, 1024, y, x + 32 * z);
}

/// Every in-range linear index is the encoding of its decoded coordinates,
/// and the decoded coordinates are in range.
pub proof fn lemma_vox_index_total(i: int)
    requires
        0 <= i < CHUNK_VOL,
    ensures
        0 <= vox_x_of(i) < CHUNK_SIZE,
        0 <= vox_y_of(i) < CHUNK_SIZE,
        0 <= vox_z_of(i) < CHUNK_SIZE,
        vox_index_spec(vox_x_of(i), vox_y_of(i), vox_z_of(i)) == i,
{
    lemma_fundamental_div_mod(i, 32);
    lemma_mod_division_less_than_divisor(i, 32);
    lemma_fundamental_div_mod(i / 32, 32);
    lemma_mod_division_less_than_divisor(i / 32, 32);
    lemma_div_denominator(i, 32, 32);
    lemma_div_is_ordered(0, i, 1024);
    lemma_div_is_ordered(i, CHUNK_VOL - 1, 1024);
}

/// One chunk's volume of material identifiers, one byte per voxel, in the
/// fixed layout `x + CHUNK_SIZE * z + CHUNK_AREA * y`; 0 is air, any nonzero
/// value is a solid material.
pub struct VoxelBuffer {
    pub data: Vec<u8>,
}

impl View for VoxelBuffer {
    type V = Seq<u8>;

    open spec fn view(&self) -> Seq<u8> {
        self.data@
    }
}

impl VoxelBuffer {
    /// The buffer holds exactly one byte per voxel of the chunk volume.
    pub open spec fn wf(&self) -> bool {
        self@.len() == CHUNK_VOL
    }

    /// A buffer of pure air.
    pub fn new() -> (b: VoxelBuffer)
        ensures
            b.wf(),
            forall|i: int| 0 <= i < CHUNK_VOL ==> b@[i] == 0u8,
    {
        VoxelBuffer { data: vec![0u8; CHUNK_VOL as usize] }
    }

    /// The material at a local coordinate; callers must stay in bounds.
    pub fn get(&self, x: u32, y: u32, z: u32) -> (m: u8)
        requires
            self.wf(),
            x < CHUNK_SIZE,
            y < CHUNK_SIZE,
            z < CHUNK_SIZE,
        ensures
            m == self@[vox_index_spec(x as int, y as int, z as int)],
    {
        proof {
            lemma_vox_index_decode(x as int, y as int, z as int);
        }
        let i: usize = (x + CHUNK_SIZE * z + CHUNK_AREA * y) as usize;
        self.data[i]
    }

    /// Overwrite the material at a local coordinate; callers must stay in
    /// bounds.
    pub fn set(&mut self, x: u32, y: u32, z: u32, m: u8)
        requires
            old(self).wf(),
            x < CHUNK_SIZE,
            y < CHUNK_SIZE,
            z < CHUNK_SIZE,
        ensures
            final(self).wf(),
            final(self)@ == old(self)@.update(vox_index_spec(x as int, y as int, z as int), m),
    {
        proof {
            lemma_vox_index_decode(x as int, y as int, z as int);
        }
        let i: usize = (x + CHUNK_SIZE * z + CHUNK_AREA * y) as usize;
        self.data[i] = m;
    }
}

} // verus!
