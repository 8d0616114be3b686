use voxel_world::coords::{chunk_axis, chunk_coord_of, local_axis, world_voxel_coord_of, ChunkCoord};
use voxel_world::settings::{CHUNK_SIZE, CHUNK_VOL};
use voxel_world::terrain::HeightGrid;
use voxel_world::world_objects::chunk::{chunk_material, Chunk};
use voxel_world::world::World;

fn flat_grid(origin_x: i64, origin_z: i64, size_x: usize, size_z: usize, h: i32) -> HeightGrid {
    HeightGrid::new(origin_x, origin_z, size_x, size_z, vec![h; size_x * size_z])
}

#[test]
fn axis_floor_division_is_exact_for_negatives() {
    assert_eq!(chunk_axis(0), 0);
    assert_eq!(chunk_axis(31), 0);
    assert_eq!(chunk_axis(32), 1);
    assert_eq!(chunk_axis(-1), -1);
    assert_eq!(chunk_axis(-32), -1);
    assert_eq!(chunk_axis(-33), -2);
    assert_eq!(local_axis(0), 0);
    assert_eq!(local_axis(-1), 31);
    assert_eq!(local_axis(-32), 0);
    assert_eq!(local_axis(33), 1);
}

#[test]
fn coordinate_round_trip_holds_for_negative_chunks() {
    let coords = [
        ChunkCoord::new(0, 0, 0),
        ChunkCoord::new(-1, -2, 3),
        ChunkCoord::new(123, -456, 789),
        ChunkCoord::new(-1000, 2, -1),
    ];
    let locals = [0u32, 1, 17, 31];
    for p in coords {
        for &l in &locals {
            let w = world_voxel_coord_of(p, l, l, l);
            let q = chunk_coord_of(w.0, w.1, w.2);
            assert_eq!(q, p);
            assert_eq!(local_axis(w.0), l);
            assert_eq!(local_axis(w.1), l);
            assert_eq!(local_axis(w.2), l);
        }
    }
}

#[test]
fn world_to_chunk_pos_uses_floor_division() {
    let c = World::world_to_chunk_pos(-1, 31, 33);
    assert_eq!(c, ChunkCoord::new(-1, 0, 1));
    let c = World::world_to_chunk_pos(-32, -33, 0);
    assert_eq!(c, ChunkCoord::new(-1, -2, 0));
}

#[test]
fn generation_is_deterministic() {
    let g = flat_grid(-64, -64, 192, 192, 40);
    for p in [ChunkCoord::new(0, 0, 0), ChunkCoord::new(-1, 1, 2)] {
        let a = Chunk::build_voxels(p, 7, &g);
        let b = Chunk::build_voxels(p, 7, &g);
        assert_eq!(a.data, b.data);
        assert_eq!(a.data.len(), CHUNK_VOL as usize);
    }
}

#[test]
fn generation_fills_columns_up_to_the_clamped_height() {
    // Height 40 means: chunk y=0 fully solid up to its top (40 - 0 clamped
    // to 32), chunk y=1 solid below local y = 8, air above.
    let g = flat_grid(-64, -64, 192, 192, 40);
    let full = Chunk::build_voxels(ChunkCoord::new(0, 0, 0), 7, &g);
    let band = Chunk::build_voxels(ChunkCoord::new(0, 1, 0), 7, &g);
    let m_full = chunk_material(7, ChunkCoord::new(0, 0, 0));
    let m_band = chunk_material(7, ChunkCoord::new(0, 1, 0));
    for x in 0..CHUNK_SIZE {
        for z in 0..CHUNK_SIZE {
            for y in 0..CHUNK_SIZE {
                assert_eq!(full.get(x, y, z), m_full);
                let expected = if y < 8 { m_band } else { 0 };
                assert_eq!(band.get(x, y, z), expected);
            }
        }
    }
}

#[test]
fn material_is_deterministic_and_in_range() {
    for seed in [0u32, 1, 0xDEAD_BEEF] {
        for p in [ChunkCoord::new(0, 0, 0), ChunkCoord::new(-5, 2, 9)] {
            let m1 = chunk_material(seed, p);
            let m2 = chunk_material(seed, p);
            assert_eq!(m1, m2);
            assert!(m1 >= 1 && m1 <= 100);
        }
    }
    // Different chunks of one world generally get different materials.
    let a = chunk_material(7, ChunkCoord::new(0, 0, 0));
    let b = chunk_material(7, ChunkCoord::new(1, 0, 0));
    let c = chunk_material(7, ChunkCoord::new(0, 0, 1));
    assert!(a != b || a != c);
}

#[test]
fn height_grid_lookup_matches_its_data() {
    let mut data = vec![0i32; 6];
    // 2 columns along x, 3 along z; column (wx, wz) at (wx-ox)*3 + (wz-oz).
    for (i, v) in data.iter_mut().enumerate() {
        *v = 10 * i as i32;
    }
    let g = HeightGrid::new(-1, 5, 2, 3, data);
    assert_eq!(g.height_at(-1, 5), 0);
    assert_eq!(g.height_at(-1, 7), 20);
    assert_eq!(g.height_at(0, 5), 30);
    assert_eq!(g.height_at(0, 7), 50);
}
