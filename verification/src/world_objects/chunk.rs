use vstd::prelude::*;
use crate::coords::ChunkCoord;
use crate::meshes::chunk_mesh::ChunkMesh;
use crate::meshes::chunk_mesh_builder::mesh_spec;
use crate::settings::{CHUNK_SIZE, CHUNK_VOL};
use crate::terrain::HeightGrid;
use crate::voxels::{
    lemma_vox_index_decode, lemma_vox_index_total, vox_x_of, vox_y_of, vox_z_of, VoxelBuffer,
};

verus! {

/// One step of the integer seed mixer: xor, then multiply by an odd
/// constant modulo 2^64.
pub open spec fn mix_step_spec(h: u64, k: u64) -> u64 {
    ((((h ^ k) as int) * 0x9E3779B97F4A7C15) % 0x1_0000_0000_0000_0000) as u64
}

fn mix_step(h: u64, k: u64) -> (r: u64)
    ensures
        r == mix_step_spec(h, k),
{
    let wide: u128 = (h ^ k) as u128 * 0x9E3779B97F4A7C15u128;
    (wide % 0x1_0000_0000_0000_0000u128) as u64
}

/// The per-chunk mixing of the world seed with the chunk coordinate.
pub open spec fn chunk_mix_spec(seed: u32, p: (int, int, int)) -> u64 {
    mix_step_spec(
        mix_step_spec(mix_step_spec(seed as u64, p.0 as u64), p.1 as u64),
        p.2 as u64,
    )
}

/// The material id of every solid voxel of chunk `p`: one id per chunk,
/// drawn from 1..=100, a fixed function of the seed and the coordinate so
/// that generation is deterministic.
pub open spec fn material_spec(seed: u32, p: (int, int, int)) -> u8 {
    (1 + chunk_mix_spec(seed, p) % 100) as u8
}

/// The solid material id for chunk `p`.
pub fn chunk_material(seed: u32, p: ChunkCoord) -> (m: u8)
    ensures
        m == material_spec(seed, p@),
        1 <= m <= 100,
{
    let h = mix_step(mix_step(mix_step(seed as u64, p.x as u64), p.y as u64), p.z as u64);
    (1 + h % 100) as u8
}

/// Height of the solid part of the column `(x, z)` of chunk `p`, clamped to
/// the chunk volume: the sampled terrain height of the world column minus
/// the chunk's base height, held to `[0, CHUNK_SIZE]`.
pub open spec fn column_height_spec(
    h: Map<(int, int), int>,
    p: (int, int, int),
    x: int,
    z: int,
) -> int {
    let rel = h[(p.0 * (CHUNK_SIZE as int) + x, p.2 * (CHUNK_SIZE as int) + z)] - p.1 * (
    CHUNK_SIZE as int);
    if rel < 0 {
        0
    } else if rel > CHUNK_SIZE {
        CHUNK_SIZE as int
    } else {
        rel
    }
}

/// The material of local voxel `(x, y, z)` of chunk `p`: solid below the
/// column height, air above it.
pub open spec fn gen_voxel_spec(
    seed: u32,
    h: Map<(int, int), int>,
    p: (int, int, int),
    x: int,
    y: int,
    z: int,
) -> u8 {
    if y < column_height_spec(h, p, x, z) {
        material_spec(seed, p)
    } else {
        0u8
    }
}

/// The whole voxel buffer that generation yields for chunk `p`: a pure
/// function of the seed, the sampled column heights, and the coordinate.
#[verifier::opaque]
pub open spec fn generate_spec(seed: u32, h: Map<(int, int), int>, p: (int, int, int)) -> Seq<
    u8,
> {
    Seq::new(
        CHUNK_VOL as nat,
        |i: int| gen_voxel_spec(seed, h, p, vox_x_of(i), vox_y_of(i), vox_z_of(i)),
    )
}

/// The grid covers every column of chunk `p`.
pub open spec fn grid_covers_chunk(g: HeightGrid, p: (int, int, int)) -> bool {
    forall|lx: int, lz: int|
        0 <= lx < CHUNK_SIZE && 0 <= lz < CHUNK_SIZE ==> #[trigger] g.covers(
            p.0 * (CHUNK_SIZE as int) + lx,
            p.2 * (CHUNK_SIZE as int) + lz,
        )
}

/// Generation is deterministic: any two buffers generation yields for the
/// same seed, the same sampled heights and the same chunk coordinate are
/// equal, across repeated calls and across runs.
pub proof fn lemma_generate_deterministic(
    seed: u32,
    h: Map<(int, int), int>,
    p: (int, int, int),
    a: Seq<u8>,
    b: Seq<u8>,
)
    requires
        a == generate_spec(seed, h, p),
        b == generate_spec(seed, h, p),
    ensures
        a == b,
{
}

/// One cubical slab of the voxel world: its grid position, its voxels, and
/// the surface mesh derived from them (absent until built).
pub struct Chunk {
    pub position: ChunkCoord,
    pub voxels: VoxelBuffer,
    pub mesh: Option<ChunkMesh>,
}

/// The mathematical content of a chunk: its voxel bytes and, when the mesh
/// is built, the mesh's vertex bytes.
pub ghost struct ChunkView {
    pub voxels: Seq<u8>,
    pub mesh: Option<Seq<u8>>,
}

impl View for Chunk {
    type V = ChunkView;

    open spec fn view(&self) -> ChunkView {
        ChunkView {
            voxels: self.voxels@,
            mesh: match self.mesh {
                Some(m) => Some(m.base.vertex_data@),
                None => None,
            },
        }
    }
}

/// No two chunks of the sequence share a grid position.
pub open spec fn coords_unique(s: Seq<Chunk>) -> bool {
    forall|i: int, j: int| 0 <= i < j < s.len() ==> s[i].position@ != s[j].position@
}

/// Every chunk of the sequence is well formed.
pub open spec fn chunks_wf(s: Seq<Chunk>) -> bool {
    forall|i: int| 0 <= i < s.len() ==> s[i].wf()
}

/// The chunk sequence as a mapping from grid position to chunk content.
pub open spec fn chunks_view(s: Seq<Chunk>) -> Map<(int, int, int), ChunkView>
    decreases s.len(),
{
    if s.len() == 0 {
        Map::empty()
    } else {
        chunks_view(s.drop_last()).insert(s.last().position@, s.last()@)
    }
}

/// Only the voxels of each resident chunk: what the mesh builder's neighbor
/// queries can observe.
pub open spec fn voxels_view_of(m: Map<(int, int, int), ChunkView>) -> Map<
    (int, int, int),
    Seq<u8>,
> {
    m.map_values(|cv: ChunkView| cv.voxels)
}

/// A position is in the mapping exactly when some chunk of the sequence
/// carries it.
pub proof fn lemma_chunks_view_contains(s: Seq<Chunk>, c: (int, int, int))
    ensures
        chunks_view(s).contains_key(c) <==> exists|i: int|
            0 <= i < s.len() && s[i].position@ == c,
    decreases s.len(),
{
    if s.len() > 0 {
        lemma_chunks_view_contains(s.drop_last(), c);
        if s.last().position@ == c {
            assert(s[s.len() - 1].position@ == c);
        } else if chunks_view(s).contains_key(c) {
            let i = choose|i: int| 0 <= i < s.drop_last().len() && s.drop_last()[i].position@ == c;
            assert(s[i].position@ == c);
        } else if exists|i: int| 0 <= i < s.len() && s[i].position@ == c {
            let i = choose|i: int| 0 <= i < s.len() && s[i].position@ == c;
            assert(s.drop_last()[i].position@ == c);
        }
    }
}

/// Under uniqueness, the mapping holds each chunk of the sequence at its own
/// position.
pub proof fn lemma_chunks_view_at(s: Seq<Chunk>, i: int)
    requires
        coords_unique(s),
        0 <= i < s.len(),
    ensures
        chunks_view(s).contains_key(s[i].position@),
        chunks_view(s)[s[i].position@] == s[i]@,
    decreases s.len(),
{
    if i < s.len() - 1 {
        assert(coords_unique(s.drop_last())) by {
            assert(forall|a: int, b: int|
                0 <= a < b < s.drop_last().len() ==> s.drop_last()[a] == s[a] && s.drop_last()[b]
                    == s[b]);
        }
        lemma_chunks_view_at(s.drop_last(), i);
        assert(s.drop_last()[i] == s[i]);
        assert(s[i].position@ != s.last().position@);
    }
}

impl Chunk {
    /// The buffer is full-size and the mesh, when built, is internally
    /// consistent.
    pub open spec fn wf(&self) -> bool {
        &&& self.voxels.wf()
        &&& match self.mesh {
            Some(m) => m.wf(),
            None => true,
        }
    }

    /// Fill a fresh buffer with terrain for chunk `position`: per column,
    /// take the sampled height of the world column, clamp it into the
    /// chunk, and fill the cells below it with the chunk's material.
    pub fn build_voxels(position: ChunkCoord, seed: u32, heights: &HeightGrid) -> (b: VoxelBuffer)
        requires
            heights.wf(),
            grid_covers_chunk(*heights, position@),
        ensures
            b.wf(),
            b@ == generate_spec(seed, heights@, position@),
    {
        let ghost p = position@;
        let ghost h = heights@;
        let mut buf = VoxelBuffer::new();
        let m = chunk_material(seed, position);
        let mut x: u32 = 0;
        while x < CHUNK_SIZE
            invariant
                p == position@,
                h == heights@,
                heights.wf(),
                grid_covers_chunk(*heights, p),
                x <= CHUNK_SIZE,
                buf.wf(),
                m == material_spec(seed, p),
                forall|i: int|
                    0 <= i < CHUNK_VOL ==> buf@[i] == (if vox_x_of(i) < x {
                        gen_voxel_spec(seed, h, p, vox_x_of(i), vox_y_of(i), vox_z_of(i))
                    } else {
                        0u8
                    }),
            decreases CHUNK_SIZE - x,
        {
            let mut z: u32 = 0;
            while z < CHUNK_SIZE
                invariant
                    p == position@,
                    h == heights@,
                    heights.wf(),
                    grid_covers_chunk(*heights, p),
                    x < CHUNK_SIZE,
                    z <= CHUNK_SIZE,
                    buf.wf(),
                    m == material_spec(seed, p),
                    forall|i: int|
                        0 <= i < CHUNK_VOL ==> buf@[i] == (if vox_x_of(i) < x || (vox_x_of(i) == x
                            && vox_z_of(i) < z) {
                            gen_voxel_spec(seed, h, p, vox_x_of(i), vox_y_of(i), vox_z_of(i))
                        } else {
                            0u8
                        }),
                decreases CHUNK_SIZE - z,
            {
                let wx: i64 = position.x as i64 * 32 + x as i64;
                let wz: i64 = position.z as i64 * 32 + z as i64;
                proof {
                    assert(heights.covers(
                        p.0 * (CHUNK_SIZE as int) + x as int,
                        p.2 * (CHUNK_SIZE as int) + z as int,
                    ));
                }
                let wh = heights.height_at(wx, wz);
                let rel: i64 = wh as i64 - position.y as i64 * 32;
                let lh: u32 = if rel < 0 {
                    0
                } else if rel > 32 {
                    32
                } else {
                    rel as u32
                };
                assert(lh as int == column_height_spec(h, p, x as int, z as int));
                let mut y: u32 = 0;
                while y < lh
                    invariant
                        p == position@,
                        h == heights@,
                        x < CHUNK_SIZE,
                        z < CHUNK_SIZE,
                        y <= lh,
                        lh <= CHUNK_SIZE,
                        buf.wf(),
                        m == material_spec(seed, p),
                        lh as int == column_height_spec(h, p, x as int, z as int),
                        forall|i: int|
                            0 <= i < CHUNK_VOL ==> buf@[i] == (if vox_x_of(i) < x || (vox_x_of(i)
                                == x && vox_z_of(i) < z) {
                                gen_voxel_spec(seed, h, p, vox_x_of(i), vox_y_of(i), vox_z_of(i))
                            } else if vox_x_of(i) == x && vox_z_of(i) == z && vox_y_of(i) < y {
                                m
                            } else {
                                0u8
                            }),
                    decreases lh - y,
                {
                    buf.set(x, y, z, m);
                    proof {
                        lemma_vox_index_decode(x as int, y as int, z as int);
                        assert forall|i: int| 0 <= i < CHUNK_VOL implies buf@[i] == (
                        if vox_x_of(i) < x || (vox_x_of(i) == x && vox_z_of(i) < z) {
                            gen_voxel_spec(seed, h, p, vox_x_of(i), vox_y_of(i), vox_z_of(i))
                        } else if vox_x_of(i) == x && vox_z_of(i) == z && vox_y_of(i) < y + 1 {
                            m
                        } else {
                            0u8
                        }) by {
                            lemma_vox_index_total(i);
                        }
                    }
                    y += 1;
                }
                proof {
                    assert forall|i: int| 0 <= i < CHUNK_VOL implies buf@[i] == (
                    if vox_x_of(i) < x || (vox_x_of(i) == x && vox_z_of(i) < z + 1) {
                        gen_voxel_spec(seed, h, p, vox_x_of(i), vox_y_of(i), vox_z_of(i))
                    } else {
                        0u8
                    }) by {
                        lemma_vox_index_total(i);
                    }
                }
                z += 1;
            }
            x += 1;
        }
        proof {
            reveal(generate_spec);
            assert(buf@ =~= generate_spec(seed, h, p)) by {
                reveal(generate_spec);
                assert forall|i: int| 0 <= i < CHUNK_VOL implies buf@[i] == generate_spec(seed, h, p)[i]
                by {
                    lemma_vox_index_total(i);
                }
            }
        }
        buf
    }

    /// Create a chunk at `position`: generate its voxels from the seed and
    /// the sampled heights, then build its mesh against the chunks already
    /// resident in `chunks`.
    pub fn new(position: ChunkCoord, seed: u32, heights: &HeightGrid, chunks: &Vec<Chunk>) -> (c:
        Chunk)
        requires
            heights.wf(),
            grid_covers_chunk(*heights, position@),
            coords_unique(chunks@),
            chunks_wf(chunks@),
        ensures
            c.wf(),
            c.position == position,
            c@.voxels == generate_spec(seed, heights@, position@),
            c@.mesh == Some(
                mesh_spec(
                    generate_spec(seed, heights@, position@),
                    position@,
                    voxels_view_of(chunks_view(chunks@)),
                ),
            ),
    {
        let voxels = Self::build_voxels(position, seed, heights);
        let mut chunk = Chunk { position, voxels, mesh: None };
        chunk.build_mesh(chunks);
        chunk
    }

    /// The model translation that places this chunk's mesh in world
    /// space: its grid position scaled by the chunk edge length, with no
    /// rotation or scale.
    pub fn translation(&self) -> (t: (i64, i64, i64))
        ensures
            t.0 as int == self.position@.0 * (CHUNK_SIZE as int),
            t.1 as int == self.position@.1 * (CHUNK_SIZE as int),
            t.2 as int == self.position@.2 * (CHUNK_SIZE as int),
    {
        (
            self.position.x as i64 * 32,
            self.position.y as i64 * 32,
            self.position.z as i64 * 32,
        )
    }

    /// Derive (or re-derive) this chunk's mesh from its voxels and the
    /// currently resident chunks; the chunk's own cells and position stay
    /// as they are.
    pub fn build_mesh(&mut self, chunks: &Vec<Chunk>)
        requires
            old(self).voxels.wf(),
            coords_unique(chunks@),
            chunks_wf(chunks@),
        ensures
            final(self).wf(),
            final(self).position == old(self).position,
            final(self).voxels == old(self).voxels,
            final(self)@.mesh == Some(
                mesh_spec(
                    old(self).voxels@,
                    old(self).position@,
                    voxels_view_of(chunks_view(chunks@)),
                ),
            ),
    {
        self.mesh = Some(ChunkMesh::new(&self.voxels, self.position, chunks));
    }
}

} // verus!
