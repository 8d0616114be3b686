use vstd::prelude::*;
use vstd::array::array_as_slice;
use vstd::arithmetic::div_mod::{lemma_div_is_ordered, lemma_mod_division_less_than_divisor};
use crate::coords::{chunk_axis, chunk_axis_of, chunk_coord_of_spec, local_axis, local_axis_of, ChunkCoord};
use crate::settings::{CHUNK_AREA, CHUNK_SIZE, CHUNK_VOL};
use crate::voxels::{vox_index_spec, VoxelBuffer};
use crate::world_objects::chunk::{
    chunks_view, chunks_wf, coords_unique, lemma_chunks_view_at, lemma_chunks_view_contains,
    voxels_view_of, Chunk,
};

verus! {

/// A packed vertex: local x, local y, local z, material id, face id.
pub open spec fn vertex_bytes(v: (u8, u8, u8, u8, u8)) -> Seq<u8> {
    seq![v.0, v.1, v.2, v.3, v.4]
}

/// The byte stream of a run of vertices, five bytes each, in order.
pub open spec fn tuples_bytes(s: Seq<(u8, u8, u8, u8, u8)>) -> Seq<u8>
    decreases s.len(),
{
    if s.len() == 0 {
        Seq::empty()
    } else {
        tuples_bytes(s.drop_last()) + vertex_bytes(s.last())
    }
}

pub proof fn lemma_tuples_bytes_len(s: Seq<(u8, u8, u8, u8, u8)>)
    ensures
        tuples_bytes(s).len() == 5 * s.len(),
    decreases s.len(),
{
    if s.len() > 0 {
        lemma_tuples_bytes_len(s.drop_last());
    }
}

/// Unit offset of a face direction along each axis. Face ids: 0 top, 1
/// bottom, 2 +X, 3 -X, 4 -Z, 5 +Z.
pub open spec fn face_dx(f: int) -> int {
    if f == 2 {
        1
    } else if f == 3 {
        -1
    } else {
        0
    }
}

pub open spec fn face_dy(f: int) -> int {
    if f == 0 {
        1
    } else if f == 1 {
        -1
    } else {
        0
    }
}

pub open spec fn face_dz(f: int) -> int {
    if f == 4 {
        -1
    } else if f == 5 {
        1
    } else {
        0
    }
}

/// The canonical two-triangle decomposition of one unit-quad face of the
/// voxel at local `(x, y, z)`: six vertices, wound counter-clockwise when
/// seen from outside the volume; the order differs per face direction and
/// is an exact interface contract with the rendering backend.
pub open spec fn face_tuples(x: int, y: int, z: int, id: u8, f: int) -> Seq<(u8, u8, u8, u8, u8)> {
    let x0 = x as u8;
    let x1 = (x + 1) as u8;
    let y0 = y as u8;
    let y1 = (y + 1) as u8;
    let z0 = z as u8;
    let z1 = (z + 1) as u8;
    if f == 0 {
        seq![
            (x0, y1, z0, id, 0u8),
            (x0, y1, z1, id, 0u8),
            (x1, y1, z1, id, 0u8),
            (x0, y1, z0, id, 0u8),
            (x1, y1, z1, id, 0u8),
            (x1, y1, z0, id, 0u8),
        ]
    } else if f == 1 {
        seq![
            (x0, y0, z0, id, 1u8),
            (x1, y0, z1, id, 1u8),
            (x0, y0, z1, id, 1u8),
            (x0, y0, z0, id, 1u8),
            (x1, y0, z0, id, 1u8),
            (x1, y0, z1, id, 1u8),
        ]
    } else if f == 2 {
        seq![
            (x1, y0, z0, id, 2u8),
            (x1, y1, z0, id, 2u8),
            (x1, y1, z1, id, 2u8),
            (x1, y0, z0, id, 2u8),
            (x1, y1, z1, id, 2u8),
            (x1, y0, z1, id, 2u8),
        ]
    } else if f == 3 {
        seq![
            (x0, y0, z0, id, 3u8),
            (x0, y1, z1, id, 3u8),
            (x0, y1, z0, id, 3u8),
            (x0, y0, z0, id, 3u8),
            (x0, y0, z1, id, 3u8),
            (x0, y1, z1, id, 3u8),
        ]
    } else if f == 4 {
        seq![
            (x0, y0, z0, id, 4u8),
            (x0, y1, z0, id, 4u8),
            (x1, y1, z0, id, 4u8),
            (x0, y0, z0, id, 4u8),
            (x1, y1, z0, id, 4u8),
            (x1, y0, z0, id, 4u8),
        ]
    } else {
        seq![
            (x0, y0, z1, id, 5u8),
            (x1, y1, z1, id, 5u8),
            (x0, y1, z1, id, 5u8),
            (x0, y0, z1, id, 5u8),
            (x1, y0, z1, id, 5u8),
            (x1, y1, z1, id, 5u8),
        ]
    }
}

/// The 30 bytes of one emitted face.
pub open spec fn face_bytes(x: int, y: int, z: int, id: u8, f: int) -> Seq<u8> {
    tuples_bytes(face_tuples(x, y, z, id, f))
}

/// Whether the voxel position offset from the chunk being meshed is empty.
/// Inside the chunk, its own buffer answers; outside, the owning chunk is
/// looked up by floor division, its buffer answers at the wrapped local
/// coordinate, and an absent chunk counts as air.
pub open spec fn is_void_spec(
    vox: Seq<u8>,
    x: int,
    y: int,
    z: int,
    wx: int,
    wy: int,
    wz: int,
    nb: Map<(int, int, int), Seq<u8>>,
) -> bool {
    if 0 <= x < CHUNK_SIZE && 0 <= y < CHUNK_SIZE && 0 <= z < CHUNK_SIZE {
        vox[vox_index_spec(x, y, z)] == 0
    } else {
        let owner = chunk_coord_of_spec((wx, wy, wz));
        if nb.contains_key(owner) {
            nb[owner][vox_index_spec(local_axis_of(wx), local_axis_of(wy), local_axis_of(wz))]
                == 0
        } else {
            true
        }
    }
}

/// The bytes that face `f` of the solid voxel at local `(x, y, z)` of chunk
/// `p` contributes: a full face when the face's neighbor position is void,
/// nothing when it is hidden.
pub open spec fn cell_face_bytes(
    vox: Seq<u8>,
    p: (int, int, int),
    nb: Map<(int, int, int), Seq<u8>>,
    x: int,
    y: int,
    z: int,
    id: u8,
    f: int,
) -> Seq<u8> {
    let n = CHUNK_SIZE as int;
    if is_void_spec(
        vox,
        x + face_dx(f),
        y + face_dy(f),
        z + face_dz(f),
        p.0 * n + x + face_dx(f),
        p.1 * n + y + face_dy(f),
        p.2 * n + z + face_dz(f),
        nb,
    ) {
        face_bytes(x, y, z, id, f)
    } else {
        Seq::empty()
    }
}

/// The bytes the voxel at local `(x, y, z)` contributes: nothing if it is
/// air, else its six faces' contributions in face-id order.
pub open spec fn cell_bytes(
    vox: Seq<u8>,
    p: (int, int, int),
    nb: Map<(int, int, int), Seq<u8>>,
    x: int,
    y: int,
    z: int,
) -> Seq<u8> {
    let id = vox[vox_index_spec(x, y, z)];
    if id == 0 {
        Seq::empty()
    } else {
        cell_face_bytes(vox, p, nb, x, y, z, id, 0) + cell_face_bytes(vox, p, nb, x, y, z, id, 1)
            + cell_face_bytes(vox, p, nb, x, y, z, id, 2) + cell_face_bytes(
            vox,
            p,
            nb,
            x,
            y,
            z,
            id,
            3,
        ) + cell_face_bytes(vox, p, nb, x, y, z, id, 4) + cell_face_bytes(vox, p, nb, x, y, z, id, 5)
    }
}

/// Local x coordinate of the `n`-th voxel in meshing order (x outermost,
/// then y, then z).
pub open spec fn mesh_x_of(n: int) -> int {
    n / (CHUNK_AREA as int)
}

/// Local y coordinate of the `n`-th voxel in meshing order.
pub open spec fn mesh_y_of(n: int) -> int {
    (n % (CHUNK_AREA as int)) / (CHUNK_SIZE as int)
}

/// Local z coordinate of the `n`-th voxel in meshing order.
pub open spec fn mesh_z_of(n: int) -> int {
    n % (CHUNK_SIZE as int)
}

/// The mesh bytes contributed by the first `n` voxels in meshing order.
pub open spec fn mesh_upto(
    vox: Seq<u8>,
    p: (int, int, int),
    nb: Map<(int, int, int), Seq<u8>>,
    n: int,
) -> Seq<u8>
    decreases n,
{
    if n <= 0 {
        Seq::empty()
    } else {
        mesh_upto(vox, p, nb, n - 1) + cell_bytes(
            vox,
            p,
            nb,
            mesh_x_of(n - 1),
            mesh_y_of(n - 1),
            mesh_z_of(n - 1),
        )
    }
}

/// The whole vertex byte stream of chunk `p`'s mesh, as a function of its
/// voxels and of the voxels of the resident neighbor chunks.
#[verifier::opaque]
pub open spec fn mesh_spec(
    vox: Seq<u8>,
    p: (int, int, int),
    nb: Map<(int, int, int), Seq<u8>>,
) -> Seq<u8> {
    mesh_upto(vox, p, nb, CHUNK_VOL as int)
}

/// Every voxel contributes a whole number of vertices: its byte count is a
/// multiple of five.
pub proof fn lemma_cell_bytes_mod5(
    vox: Seq<u8>,
    p: (int, int, int),
    nb: Map<(int, int, int), Seq<u8>>,
    x: int,
    y: int,
    z: int,
)
    ensures
        cell_bytes(vox, p, nb, x, y, z).len() % 5 == 0,
{
    let id = vox[vox_index_spec(x, y, z)];
    if id != 0 {
        lemma_tuples_bytes_len(face_tuples(x, y, z, id, 0));
        lemma_tuples_bytes_len(face_tuples(x, y, z, id, 1));
        lemma_tuples_bytes_len(face_tuples(x, y, z, id, 2));
        lemma_tuples_bytes_len(face_tuples(x, y, z, id, 3));
        lemma_tuples_bytes_len(face_tuples(x, y, z, id, 4));
        lemma_tuples_bytes_len(face_tuples(x, y, z, id, 5));
    }
}

/// The mesh prefix of any length holds a whole number of vertices.
pub proof fn lemma_mesh_upto_mod5(
    vox: Seq<u8>,
    p: (int, int, int),
    nb: Map<(int, int, int), Seq<u8>>,
    n: int,
)
    ensures
        mesh_upto(vox, p, nb, n).len() % 5 == 0,
    decreases n,
{
    if n > 0 {
        lemma_mesh_upto_mod5(vox, p, nb, n - 1);
        lemma_cell_bytes_mod5(vox, p, nb, mesh_x_of(n - 1), mesh_y_of(n - 1), mesh_z_of(n - 1));
    }
}

/// The meshing order visits local coordinates inside the chunk.
pub proof fn lemma_mesh_decode(n: int)
    requires
        0 <= n < CHUNK_VOL,
    ensures
        0 <= mesh_x_of(n) < CHUNK_SIZE,
        0 <= mesh_y_of(n) < CHUNK_SIZE,
        0 <= mesh_z_of(n) < CHUNK_SIZE,
{
    lemma_mod_division_less_than_divisor(n, CHUNK_SIZE as int);
    lemma_mod_division_less_than_divisor(n, CHUNK_AREA as int);
    lemma_div_is_ordered(0, n, CHUNK_AREA as int);
    lemma_div_is_ordered(n, CHUNK_VOL - 1, CHUNK_AREA as int);
    lemma_div_is_ordered(0, n % (CHUNK_AREA as int), CHUNK_SIZE as int);
    lemma_div_is_ordered(n % (CHUNK_AREA as int), CHUNK_AREA - 1, CHUNK_SIZE as int);
}

/// The chunk-grid position owning a world voxel coordinate.
pub open spec fn owner_of(w: (i64, i64, i64)) -> (int, int, int) {
    chunk_coord_of_spec((w.0 as int, w.1 as int, w.2 as int))
}

/// Resolve a world voxel coordinate to its owning resident chunk, if any.
fn get_chunk<'a>(world_voxel_pos: (i64, i64, i64), chunks: &'a Vec<Chunk>) -> (r: Option<
    &'a Chunk,
>)
    requires
        coords_unique(chunks@),
        chunks_wf(chunks@),
    ensures
        r is Some ==> chunks_view(chunks@).contains_key(owner_of(world_voxel_pos)),
        r is Some ==> r->Some_0@ == chunks_view(chunks@)[owner_of(world_voxel_pos)],
        r is Some ==> r->Some_0.position@ == owner_of(world_voxel_pos),
        r is Some ==> r->Some_0.wf(),
        r is None ==> !chunks_view(chunks@).contains_key(owner_of(world_voxel_pos)),
{
    let cx = chunk_axis(world_voxel_pos.0);
    let cy = chunk_axis(world_voxel_pos.1);
    let cz = chunk_axis(world_voxel_pos.2);
    let ghost owner = chunk_coord_of_spec(
        (world_voxel_pos.0 as int, world_voxel_pos.1 as int, world_voxel_pos.2 as int),
    );
    let mut i: usize = 0;
    while i < chunks.len()
        invariant
            coords_unique(chunks@),
            chunks_wf(chunks@),
            i <= chunks@.len(),
            owner == owner_of(world_voxel_pos),
            cx == owner.0 && cy == owner.1 && cz == owner.2,
            forall|j: int| 0 <= j < i ==> chunks@[j].position@ != owner,
        decreases chunks@.len() - i,
    {
        let ch = &chunks[i];
        if ch.position.x as i64 == cx && ch.position.y as i64 == cy && ch.position.z as i64 == cz {
            proof {
                lemma_chunks_view_at(chunks@, i as int);
                assert(chunks@[i as int].position@ == owner);
            }
            return Some(ch);
        }
        i += 1;
    }
    proof {
        lemma_chunks_view_contains(chunks@, owner);
    }
    None
}

/// Whether the voxel position `voxel_pos` (local to the chunk being meshed,
/// possibly outside it) is empty, delegating to the owning neighbor chunk
/// through `world_voxel_pos` when it crosses the chunk's boundary.
fn is_void(
    voxel_pos: (i32, i32, i32),
    chunk_voxels: &VoxelBuffer,
    world_voxel_pos: (i64, i64, i64),
    chunks: &Vec<Chunk>,
) -> (r: bool)
    requires
        chunk_voxels.wf(),
        coords_unique(chunks@),
        chunks_wf(chunks@),
    ensures
        r == is_void_spec(
            chunk_voxels@,
            voxel_pos.0 as int,
            voxel_pos.1 as int,
            voxel_pos.2 as int,
            world_voxel_pos.0 as int,
            world_voxel_pos.1 as int,
            world_voxel_pos.2 as int,
            voxels_view_of(chunks_view(chunks@)),
        ),
{
    let (x, y, z) = voxel_pos;
    if 0 <= x && x < CHUNK_SIZE as i32 && 0 <= y && y < CHUNK_SIZE as i32 && 0 <= z && z
        < CHUNK_SIZE as i32 {
        return chunk_voxels.get(x as u32, y as u32, z as u32) == 0;
    }
    match get_chunk(world_voxel_pos, chunks) {
        Some(ch) => {
            let lx = local_axis(world_voxel_pos.0);
            let ly = local_axis(world_voxel_pos.1);
            let lz = local_axis(world_voxel_pos.2);
            ch.voxels.get(lx, ly, lz) == 0
        },
        None => true,
    }
}

/// Append a run of packed vertices to the vertex byte stream, five bytes
/// each, in order.
pub fn add_data(vertex_data: &mut Vec<u8>, vertices: &[(u8, u8, u8, u8, u8)])
    ensures
        final(vertex_data)@ == old(vertex_data)@ + tuples_bytes(vertices@),
{
    let mut k: usize = 0;
    while k < vertices.len()
        invariant
            k <= vertices@.len(),
            vertex_data@ == old(vertex_data)@ + tuples_bytes(vertices@.take(k as int)),
        decreases vertices@.len() - k,
    {
        let v = vertices[k];
        vertex_data.push(v.0);
        vertex_data.push(v.1);
        vertex_data.push(v.2);
        vertex_data.push(v.3);
        vertex_data.push(v.4);
        proof {
            assert(vertices@.take(k + 1).drop_last() =~= vertices@.take(k as int));
            assert(vertices@.take(k + 1).last() == vertices@[k as int]);
            assert(vertex_data@ =~= old(vertex_data)@ + tuples_bytes(vertices@.take(k + 1)));
        }
        k += 1;
    }
    proof {
        assert(vertices@.take(vertices@.len() as int) =~= vertices@);
    }
}

/// Append the six vertices of one face of the voxel at local `(x, y, z)`,
/// in the canonical winding of that face direction.
fn emit_face(vertex_data: &mut Vec<u8>, x: u32, y: u32, z: u32, id: u8, face: u8)
    requires
        x < CHUNK_SIZE,
        y < CHUNK_SIZE,
        z < CHUNK_SIZE,
        face < 6,
    ensures
        final(vertex_data)@ == old(vertex_data)@ + face_bytes(
            x as int,
            y as int,
            z as int,
            id,
            face as int,
        ),
{
    let x0 = x as u8;
    let x1 = x as u8 + 1;
    let y0 = y as u8;
    let y1 = y as u8 + 1;
    let z0 = z as u8;
    let z1 = z as u8 + 1;
    let vertices: [(u8, u8, u8, u8, u8); 6] = if face == 0 {
        [
            (x0, y1, z0, id, 0),
            (x0, y1, z1, id, 0),
            (x1, y1, z1, id, 0),
            (x0, y1, z0, id, 0),
            (x1, y1, z1, id, 0),
            (x1, y1, z0, id, 0),
        ]
    } else if face == 1 {
        [
            (x0, y0, z0, id, 1),
            (x1, y0, z1, id, 1),
            (x0, y0, z1, id, 1),
            (x0, y0, z0, id, 1),
            (x1, y0, z0, id, 1),
            (x1, y0, z1, id, 1),
        ]
    } else if face == 2 {
        [
            (x1, y0, z0, id, 2),
            (x1, y1, z0, id, 2),
            (x1, y1, z1, id, 2),
            (x1, y0, z0, id, 2),
            (x1, y1, z1, id, 2),
            (x1, y0, z1, id, 2),
        ]
    } else if face == 3 {
        [
            (x0, y0, z0, id, 3),
            (x0, y1, z1, id, 3),
            (x0, y1, z0, id, 3),
            (x0, y0, z0, id, 3),
            (x0, y0, z1, id, 3),
            (x0, y1, z1, id, 3),
        ]
    } else if face == 4 {
        [
            (x0, y0, z0, id, 4),
            (x0, y1, z0, id, 4),
            (x1, y1, z0, id, 4),
            (x0, y0, z0, id, 4),
            (x1, y1, z0, id, 4),
            (x1, y0, z0, id, 4),
        ]
    } else {
        [
            (x0, y0, z1, id, 5),
            (x1, y1, z1, id, 5),
            (x0, y1, z1, id, 5),
            (x0, y0, z1, id, 5),
            (x1, y0, z1, id, 5),
            (x1, y1, z1, id, 5),
        ]
    };
    proof {
        assert(vertices@ =~= face_tuples(x as int, y as int, z as int, id, face as int));
    }
    add_data(vertex_data, array_as_slice(&vertices));
}

/// Build the vertex byte stream for one chunk: for every solid voxel and
/// every face direction, consult the voxel one step along that direction —
/// inside this chunk's own buffer, or across the boundary in the resident
/// neighbor chunks — and emit the face exactly when that position is void.
#[verifier::rlimit(100)]
pub fn build_chunk_mesh(
    chunk_voxels: &VoxelBuffer,
    chunk_pos: ChunkCoord,
    chunks: &Vec<Chunk>,
) -> (vertex_data: Vec<u8>)
    requires
        chunk_voxels.wf(),
        coords_unique(chunks@),
        chunks_wf(chunks@),
    ensures
        vertex_data@ == mesh_spec(
            chunk_voxels@,
            chunk_pos@,
            voxels_view_of(chunks_view(chunks@)),
        ),
        vertex_data@.len() % 5 == 0,
{
    let ghost vox = chunk_voxels@;
    let ghost p = chunk_pos@;
    let ghost nb = voxels_view_of(chunks_view(chunks@));
    let mut vertex_data: Vec<u8> = Vec::new();
    let mut n: u32 = 0;
    while n < CHUNK_VOL
        invariant
            vox == chunk_voxels@,
            p == chunk_pos@,
            nb == voxels_view_of(chunks_view(chunks@)),
            chunk_voxels.wf(),
            coords_unique(chunks@),
            chunks_wf(chunks@),
            n <= CHUNK_VOL,
            vertex_data@ == mesh_upto(vox, p, nb, n as int),
        decreases CHUNK_VOL - n,
    {
        let x: u32 = n / CHUNK_AREA;
        let y: u32 = (n % CHUNK_AREA) / CHUNK_SIZE;
        let z: u32 = n % CHUNK_SIZE;
        proof {
            lemma_mesh_decode(n as int);
            assert(x == mesh_x_of(n as int));
            assert(y == mesh_y_of(n as int));
            assert(z == mesh_z_of(n as int));
        }
        let ghost pre = vertex_data@;
        let voxel_id = chunk_voxels.get(x, y, z);
        if voxel_id != 0 {
            let wx: i64 = chunk_pos.x as i64 * 32 + x as i64;
            let wy: i64 = chunk_pos.y as i64 * 32 + y as i64;
            let wz: i64 = chunk_pos.z as i64 * 32 + z as i64;

            // top face
            let ghost b0 = vertex_data@;
            if is_void((x as i32, y as i32 + 1, z as i32), chunk_voxels, (wx, wy + 1, wz), chunks) {
                emit_face(&mut vertex_data, x, y, z, voxel_id, 0);
            }
            proof {
                assert(vertex_data@ =~= b0 + cell_face_bytes(
                    vox, p, nb, x as int, y as int, z as int, voxel_id, 0));
            }
            // bottom face
            let ghost b1 = vertex_data@;
            if is_void((x as i32, y as i32 - 1, z as i32), chunk_voxels, (wx, wy - 1, wz), chunks) {
                emit_face(&mut vertex_data, x, y, z, voxel_id, 1);
            }
            proof {
                assert(vertex_data@ =~= b1 + cell_face_bytes(
                    vox, p, nb, x as int, y as int, z as int, voxel_id, 1));
            }
            // right face
            let ghost b2 = vertex_data@;
            if is_void((x as i32 + 1, y as i32, z as i32), chunk_voxels, (wx + 1, wy, wz), chunks) {
                emit_face(&mut vertex_data, x, y, z, voxel_id, 2);
            }
            proof {
                assert(vertex_data@ =~= b2 + cell_face_bytes(
                    vox, p, nb, x as int, y as int, z as int, voxel_id, 2));
            }
            // left face
            let ghost b3 = vertex_data@;
            if is_void((x as i32 - 1, y as i32, z as i32), chunk_voxels, (wx - 1, wy, wz), chunks) {
                emit_face(&mut vertex_data, x, y, z, voxel_id, 3);
            }
            proof {
                assert(vertex_data@ =~= b3 + cell_face_bytes(
                    vox, p, nb, x as int, y as int, z as int, voxel_id, 3));
            }
            // back face
            let ghost b4 = vertex_data@;
            if is_void((x as i32, y as i32, z as i32 - 1), chunk_voxels, (wx, wy, wz - 1), chunks) {
                emit_face(&mut vertex_data, x, y, z, voxel_id, 4);
            }
            proof {
                assert(vertex_data@ =~= b4 + cell_face_bytes(
                    vox, p, nb, x as int, y as int, z as int, voxel_id, 4));
            }
            // front face
            let ghost b5 = vertex_data@;
            if is_void((x as i32, y as i32, z as i32 + 1), chunk_voxels, (wx, wy, wz + 1), chunks) {
                emit_face(&mut vertex_data, x, y, z, voxel_id, 5);
            }
            proof {
                assert(vertex_data@ =~= b5 + cell_face_bytes(
                    vox, p, nb, x as int, y as int, z as int, voxel_id, 5));
                assert(vertex_data@ =~= pre + cell_bytes(vox, p, nb, x as int, y as int, z as int));
            }
        } else {
            proof {
                assert(cell_bytes(vox, p, nb, x as int, y as int, z as int).len() == 0);
                assert(vertex_data@ =~= pre + cell_bytes(vox, p, nb, x as int, y as int, z as int));
            }
        }
        proof {
            assert(mesh_upto(vox, p, nb, n as int + 1) == mesh_upto(vox, p, nb, n as int)
                + cell_bytes(
                vox,
                p,
                nb,
                mesh_x_of(n as int),
                mesh_y_of(n as int),
                mesh_z_of(n as int),
            ));
        }
        n += 1;
    }
    proof {
        reveal(mesh_spec);
        lemma_mesh_upto_mod5(vox, p, nb, CHUNK_VOL as int);
    }
    vertex_data
}

} // verus!
