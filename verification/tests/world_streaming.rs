use noise::NoiseFn;
use voxel_world::coords::ChunkCoord;
use voxel_world::terrain::HeightGrid;
use voxel_world::world::{grid_covers_window_check, World};

fn flat_grid(origin_x: i64, origin_z: i64, size_x: usize, size_z: usize, h: i32) -> HeightGrid {
    HeightGrid::new(origin_x, origin_z, size_x, size_z, vec![h; size_x * size_z])
}

/// Sample the same kind of coherent noise the driving program uses into a
/// height grid covering the window around `center` with radius `rd`.
fn noise_grid(seed: u32, center: ChunkCoord, rd: i32) -> HeightGrid {
    let simplex = noise::Simplex::new(seed);
    let origin_x = (center.x as i64 - rd as i64) * 32;
    let origin_z = (center.z as i64 - rd as i64) * 32;
    let size = ((2 * rd as i64 + 1) * 32) as usize;
    let mut data = Vec::with_capacity(size * size);
    for ix in 0..size {
        for iz in 0..size {
            let wx = origin_x + ix as i64;
            let wz = origin_z + iz as i64;
            let v = simplex.get([wx as f64 * 0.01, wz as f64 * 0.01]);
            data.push((v * 32.0 + 32.0) as i32);
        }
    }
    HeightGrid::new(origin_x, origin_z, size, size, data)
}

fn resident_coords(w: &World) -> Vec<(i32, i32, i32)> {
    let mut v = Vec::new();
    for i in 0..w.chunk_count() {
        let c = w.chunk_at(i);
        v.push((c.position.x, c.position.y, c.position.z));
    }
    v.sort();
    v
}

fn resident_meshes(w: &World) -> Vec<((i32, i32, i32), Vec<u8>)> {
    let mut v = Vec::new();
    for i in 0..w.chunk_count() {
        let c = w.chunk_at(i);
        let mesh = c.mesh.as_ref().expect("every resident chunk carries a mesh");
        v.push(((c.position.x, c.position.y, c.position.z), mesh.base.vertex_data.clone()));
    }
    v.sort();
    v
}

/// The window around `center` with radius `rd`, intersected with the
/// vertical band, written out.
fn expected_window(center: (i32, i32, i32), rd: i32) -> Vec<(i32, i32, i32)> {
    let mut v = Vec::new();
    for x in center.0 - rd..=center.0 + rd {
        for y in center.1 - rd..=center.1 + rd {
            for z in center.2 - rd..=center.2 + rd {
                if y >= -2 && y <= 2 {
                    v.push((x, y, z));
                }
            }
        }
    }
    v.sort();
    v
}

#[test]
fn first_update_makes_exactly_the_window_resident() {
    let grid = flat_grid(-32, -32, 96, 96, 10);
    assert!(grid_covers_window_check(&grid, ChunkCoord::new(0, 0, 0), 1));
    let world = World::new(0, 1, &grid);
    // Radius 1 around the origin: x, z in [-1, 1] and y in the
    // intersection of [-1, 1] with the world band [-2, 2], so 27 chunks.
    assert_eq!(world.chunk_count(), 27);
    assert_eq!(resident_coords(&world), expected_window((0, 0, 0), 1));
}

#[test]
fn update_with_same_viewpoint_changes_nothing() {
    let grid = flat_grid(-32, -32, 96, 96, 10);
    let mut world = World::new(42, 1, &grid);
    let before = resident_meshes(&world);
    world.update(5, 17, 3, &grid);
    let after = resident_meshes(&world);
    assert_eq!(before, after);
    world.update(5, 17, 3, &grid);
    assert_eq!(resident_meshes(&world), after);
}

#[test]
fn moving_the_viewpoint_evicts_and_generates() {
    let grid0 = flat_grid(-32, -32, 96, 96, 10);
    let mut world = World::new(9, 1, &grid0);
    // Viewpoint voxel x=100 lies in chunk x=3: window becomes x in [2,4].
    let grid1 = flat_grid(64, -32, 96, 96, 10);
    assert!(grid_covers_window_check(&grid1, ChunkCoord::new(3, 0, 0), 1));
    world.update(100, 0, 0, &grid1);
    assert_eq!(resident_coords(&world), expected_window((3, 0, 0), 1));
}

#[test]
fn keeping_chunks_in_the_overlap_preserves_their_meshes() {
    let grid0 = flat_grid(-64, -64, 192, 192, 10);
    let mut world = World::new(3, 1, &grid0);
    let before = resident_meshes(&world);
    // Move one chunk along x: the x in [0,1] slab stays resident.
    world.update(32, 0, 0, &grid0);
    let after = resident_meshes(&world);
    assert_eq!(resident_coords(&world), expected_window((1, 0, 0), 1));
    for entry in &after {
        if entry.0.0 >= 0 && entry.0.0 <= 1 {
            let old = before.iter().find(|e| e.0 == entry.0).expect("kept chunk");
            assert_eq!(&old.1, &entry.1);
        }
    }
}

#[test]
fn window_above_the_world_band_is_empty() {
    let grid = flat_grid(-32, -32, 96, 96, 10);
    let mut world = World::new(0, 1, &grid);
    // Viewpoint voxel y=3200 lies in chunk y=100, far above MAX_Y.
    world.update(0, 3200, 0, &grid);
    assert_eq!(world.chunk_count(), 0);
}

#[test]
fn coverage_check_rejects_a_small_grid() {
    let small = flat_grid(-32, -32, 64, 96, 10);
    assert!(!grid_covers_window_check(&small, ChunkCoord::new(0, 0, 0), 1));
    let shifted = flat_grid(0, -32, 96, 96, 10);
    assert!(!grid_covers_window_check(&shifted, ChunkCoord::new(0, 0, 0), 1));
}

#[test]
fn noise_sampled_world_is_reproducible() {
    let grid = noise_grid(7, ChunkCoord::new(0, 0, 0), 1);
    assert!(grid_covers_window_check(&grid, ChunkCoord::new(0, 0, 0), 1));
    let w1 = World::new(7, 1, &grid);
    let w2 = World::new(7, 1, &noise_grid(7, ChunkCoord::new(0, 0, 0), 1));
    assert_eq!(w1.chunk_count(), 27);
    assert_eq!(resident_meshes(&w1), resident_meshes(&w2));
}

#[test]
fn shader_program_carries_its_id() {
    let p = voxel_world::shader_program::ShaderProgram::new(17);
    assert_eq!(p.chunk_program(), 17);
}
