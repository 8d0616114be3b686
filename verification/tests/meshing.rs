use voxel_world::coords::ChunkCoord;
use voxel_world::meshes::chunk_mesh::ChunkMesh;
use voxel_world::meshes::chunk_mesh_builder::build_chunk_mesh;
use voxel_world::settings::CHUNK_VOL;
use voxel_world::voxels::VoxelBuffer;
use voxel_world::world_objects::chunk::Chunk;

fn solid_chunk(x: i32, y: i32, z: i32, material: u8) -> Chunk {
    Chunk {
        position: ChunkCoord::new(x, y, z),
        voxels: VoxelBuffer { data: vec![material; CHUNK_VOL as usize] },
        mesh: None,
    }
}

/// Face ids carried by the fifth byte of each vertex of a mesh.
fn face_ids(mesh: &[u8]) -> Vec<u8> {
    assert_eq!(mesh.len() % 5, 0);
    mesh.chunks(5).map(|v| v[4]).collect()
}

#[test]
fn isolated_voxel_emits_six_faces_of_six_vertices() {
    let mut vox = VoxelBuffer::new();
    vox.set(5, 5, 5, 7);
    let mesh = build_chunk_mesh(&vox, ChunkCoord::new(0, 0, 0), &Vec::new());
    // 6 faces x 2 triangles x 3 vertices = 36 vertices, 5 bytes each.
    assert_eq!(mesh.len(), 36 * 5);
    // Every face direction appears exactly six times.
    let ids = face_ids(&mesh);
    for f in 0u8..6 {
        assert_eq!(ids.iter().filter(|&&i| i == f).count(), 6);
    }
    // The top face comes first, with the canonical vertex order and
    // winding for face id 0.
    let expected_top: [u8; 30] = [
        5, 6, 5, 7, 0,
        5, 6, 6, 7, 0,
        6, 6, 6, 7, 0,
        5, 6, 5, 7, 0,
        6, 6, 6, 7, 0,
        6, 6, 5, 7, 0,
    ];
    assert_eq!(&mesh[..30], &expected_top);
}

#[test]
fn enclosed_voxel_emits_no_faces() {
    // A solid 3x3x3 block: the center voxel is hidden on all six sides, so
    // the mesh holds exactly the block's 54 outer faces.
    let mut vox = VoxelBuffer::new();
    for x in 4..7 {
        for y in 4..7 {
            for z in 4..7 {
                vox.set(x, y, z, 3);
            }
        }
    }
    let mesh = build_chunk_mesh(&vox, ChunkCoord::new(0, 0, 0), &Vec::new());
    assert_eq!(mesh.len(), 54 * 6 * 5);
}

#[test]
fn solid_chunk_block_culls_interior_sides() {
    // A fully solid 2x2x2 region of chunks surrounded by air: the corner
    // chunk at (0,0,0) touches the other chunks on its +x, +y and +z
    // sides, so only its three outer sides emit faces.
    let mut neighbors = Vec::new();
    for x in 0..2 {
        for y in 0..2 {
            for z in 0..2 {
                if (x, y, z) != (0, 0, 0) {
                    neighbors.push(solid_chunk(x, y, z, 1));
                }
            }
        }
    }
    let corner = solid_chunk(0, 0, 0, 1);
    let mesh = build_chunk_mesh(&corner.voxels, corner.position, &neighbors);
    // 3 exposed sides x 32x32 faces x 6 vertices x 5 bytes.
    assert_eq!(mesh.len(), 3 * 1024 * 6 * 5);
    let ids = face_ids(&mesh);
    // Bottom (1), -x (3) and -z (4) faces are exposed; top (0), +x (2) and
    // +z (5) are hidden by the neighbor chunks.
    assert!(ids.iter().all(|&f| f == 1 || f == 3 || f == 4));
}

#[test]
fn cross_chunk_culling_suppresses_facing_sides() {
    // A solid voxel at local x=31 of chunk (0,0,0) against a solid voxel
    // at local x=0 of chunk (1,0,0).
    let mut a = Chunk {
        position: ChunkCoord::new(0, 0, 0),
        voxels: VoxelBuffer::new(),
        mesh: None,
    };
    a.voxels.set(31, 0, 0, 9);
    let mut b = Chunk {
        position: ChunkCoord::new(1, 0, 0),
        voxels: VoxelBuffer::new(),
        mesh: None,
    };
    b.voxels.set(0, 0, 0, 9);

    // With both resident, neither emits the face toward the other.
    let mesh_a = build_chunk_mesh(&a.voxels, a.position, &vec![b]);
    assert_eq!(mesh_a.len(), 5 * 6 * 5);
    assert!(face_ids(&mesh_a).iter().all(|&f| f != 2));

    let b2 = Chunk {
        position: ChunkCoord::new(1, 0, 0),
        voxels: {
            let mut v = VoxelBuffer::new();
            v.set(0, 0, 0, 9);
            v
        },
        mesh: None,
    };
    let mesh_b = build_chunk_mesh(&b2.voxels, b2.position, &vec![a]);
    assert_eq!(mesh_b.len(), 5 * 6 * 5);
    assert!(face_ids(&mesh_b).iter().all(|&f| f != 3));
}

#[test]
fn absent_neighbor_counts_as_air() {
    // The same boundary voxel with no resident neighbor chunk: the +x face
    // must be emitted.
    let mut vox = VoxelBuffer::new();
    vox.set(31, 0, 0, 9);
    let mesh = build_chunk_mesh(&vox, ChunkCoord::new(0, 0, 0), &Vec::new());
    assert_eq!(mesh.len(), 6 * 6 * 5);
    assert_eq!(face_ids(&mesh).iter().filter(|&&f| f == 2).count(), 6);
}

#[test]
fn chunk_mesh_render_hands_out_bytes_and_count() {
    let mut vox = VoxelBuffer::new();
    vox.set(0, 0, 0, 2);
    let mesh = ChunkMesh::new(&vox, ChunkCoord::new(0, 0, 0), &Vec::new());
    let (bytes, count) = mesh.render();
    assert_eq!(bytes.len(), count * 5);
    assert_eq!(count, 36);
}

#[test]
fn chunk_translation_scales_its_position() {
    let c = solid_chunk(-3, 1, 2, 1);
    assert_eq!(c.translation(), (-96, 32, 64));
}

#[test]
fn empty_chunk_has_empty_mesh() {
    let vox = VoxelBuffer::new();
    let mesh = build_chunk_mesh(&vox, ChunkCoord::new(0, 0, 0), &Vec::new());
    assert_eq!(mesh.len(), 0);
}
