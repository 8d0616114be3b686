use vstd::prelude::*;
use vstd::arithmetic::div_mod::{
    lemma_div_is_ordered, lemma_fundamental_div_mod_converse, lemma_mod_division_less_than_divisor,
};
use crate::settings::CHUNK_SIZE;

verus! {

/// Integer position of a chunk in chunk-grid units; the unique key of the
/// world's chunk mapping. Equality is structural.
#[derive(Clone, Copy, PartialEq, Eq, Structural, Hash, Debug)]
pub struct ChunkCoord {
    pub x: i32,
    pub y: i32,
    pub z: i32,
}

impl View for ChunkCoord {
    type V = (int, int, int);

    open spec fn view(&self) -> (int, int, int) {
        (self.x as int, self.y as int, self.z as int)
    }
}

impl ChunkCoord {
    pub fn new(x: i32, y: i32, z: i32) -> (c: ChunkCoord)
        ensures
            c@ == (x as int, y as int, z as int),
    {
        ChunkCoord { x, y, z }
    }
}

/// Floor division of a world-voxel axis value by the chunk edge length: the
/// owning chunk's position along that axis. `/` on `int` is Euclidean
/// division, which coincides with floor division for a positive divisor.
pub open spec fn chunk_axis_of(w: int) -> int {
    w / (CHUNK_SIZE as int)
}

/// Euclidean remainder of a world-voxel axis value: the local coordinate
/// inside the owning chunk, always in `[0, CHUNK_SIZE)`.
pub open spec fn local_axis_of(w: int) -> int {
    w % (CHUNK_SIZE as int)
}

/// The chunk that owns a world voxel coordinate.
pub open spec fn chunk_coord_of_spec(w: (int, int, int)) -> (int, int, int) {
    (chunk_axis_of(w.0), chunk_axis_of(w.1), chunk_axis_of(w.2))
}

/// The world voxel coordinate of a local voxel of chunk `p`.
pub open spec fn world_voxel_coord_of_spec(p: (int, int, int), lx: int, ly: int, lz: int) -> (
    int,
    int,
    int,
) {
    (
        p.0 * (CHUNK_SIZE as int) + lx,
        p.1 * (CHUNK_SIZE as int) + ly,
        p.2 * (CHUNK_SIZE as int) + lz,
    )
}

/// Floor division of one axis, correct for negative values.
pub fn chunk_axis(w: i64) -> (c: i64)
    ensures
        c == chunk_axis_of(w as int),
{
    proof {
        lemma_div_is_ordered(i64::MIN as int, w as int, CHUNK_SIZE as int);
        lemma_div_is_ordered(w as int, i64::MAX as int, CHUNK_SIZE as int);
    }
    w.checked_div_euclid(CHUNK_SIZE as i64).unwrap()
}

/// Euclidean remainder of one axis: the local coordinate, in `[0, CHUNK_SIZE)`.
pub fn local_axis(w: i64) -> (l: u32)
    ensures
        l == local_axis_of(w as int),
        l < CHUNK_SIZE,
{
    proof {
        lemma_mod_division_less_than_divisor(w as int, CHUNK_SIZE as int);
    }
    w.checked_rem_euclid(CHUNK_SIZE as i64).unwrap() as u32
}

/// The chunk owning a world voxel coordinate: floor division per axis.
pub fn chunk_coord_of(wx: i64, wy: i64, wz: i64) -> (c: ChunkCoord)
    requires
        i32::MIN <= chunk_axis_of(wx as int) <= i32::MAX,
        i32::MIN <= chunk_axis_of(wy as int) <= i32::MAX,
        i32::MIN <= chunk_axis_of(wz as int) <= i32::MAX,
    ensures
        c@ == chunk_coord_of_spec((wx as int, wy as int, wz as int)),
{
    ChunkCoord {
        x: chunk_axis(wx) as i32,
        y: chunk_axis(wy) as i32,
        z: chunk_axis(wz) as i32,
    }
}

/// The world voxel coordinate of local voxel `(lx, ly, lz)` of chunk `p`.
pub fn world_voxel_coord_of(p: ChunkCoord, lx: u32, ly: u32, lz: u32) -> (w: (i64, i64, i64))
    requires
        lx < CHUNK_SIZE,
        ly < CHUNK_SIZE,
        lz < CHUNK_SIZE,
    ensures
        (w.0 as int, w.1 as int, w.2 as int) == world_voxel_coord_of_spec(
            p@,
            lx as int,
            ly as int,
            lz as int,
        ),
{
    (
        p.x as i64 * 32 + lx as i64,
        p.y as i64 * 32 + ly as i64,
        p.z as i64 * 32 + lz as i64,
    )
}

/// One axis of the coordinate round trip: a chunk position times the edge
/// length plus a local offset divides back to the same chunk position, and
/// the remainder is the same local offset, also for negative positions.
pub proof fn lemma_axis_round_trip(c: int, l: int)
    requires
        0 <= l < CHUNK_SIZE,
    ensures
        chunk_axis_of(c * (CHUNK_SIZE as int) + l) == c,
        local_axis_of(c * (CHUNK_SIZE as int) + l) == l,
{
    lemma_fundamental_div_mod_converse(c * (CHUNK_SIZE as int) + l, CHUNK_SIZE as int, c, l);
}

/// The coordinate round trip is exact: for every chunk coordinate `p` and
/// every local coordinate in `[0, CHUNK_SIZE)`, mapping to the world voxel
/// coordinate and back yields `p` again, including for negative `p`.
pub proof fn lemma_chunk_coord_round_trip(p: (int, int, int), lx: int, ly: int, lz: int)
    requires
        0 <= lx < CHUNK_SIZE,
        0 <= ly < CHUNK_SIZE,
        0 <= lz < CHUNK_SIZE,
    ensures
        chunk_coord_of_spec(world_voxel_coord_of_spec(p, lx, ly, lz)) == p,
{
    lemma_axis_round_trip(p.0, lx);
    lemma_axis_round_trip(p.1, ly);
    lemma_axis_round_trip(p.2, lz);
}

} // verus!
