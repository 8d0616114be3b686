use vstd::prelude::*;

verus! {

/// Edge length of a cubical chunk, in voxels.
pub const CHUNK_SIZE: u32 = 32;

/// Half the chunk edge length.
pub const H_CHUNK_SIZE: u32 = CHUNK_SIZE / 2;

/// Number of voxels in one horizontal layer of a chunk.
pub const CHUNK_AREA: u32 = CHUNK_SIZE * CHUNK_SIZE;

/// Number of voxels in a whole chunk.
pub const CHUNK_VOL: u32 = CHUNK_AREA * CHUNK_SIZE;

/// Lowest chunk-grid y coordinate the world ever holds.
pub const MIN_Y: i32 = -2;

/// Highest chunk-grid y coordinate the world ever holds.
pub const MAX_Y: i32 = 2;

/// Largest accepted render distance (box radius in chunks). This is a machine
/// limit: it keeps the streaming window's coordinates inside `i32` and its
/// cell count inside `u64` for every reachable center coordinate.
pub const MAX_RENDER_DISTANCE: i32 = 0x2000_0000;

} // verus!
