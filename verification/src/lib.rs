//! Greedy voxel meshing with a fixed-capacity GPU buffer model.
//!
//! A voxel world is kept as dense per-chunk grids of binary-occupancy cells.
//! Each chunk is turned into a compact vertex/index mesh by greedy quad
//! merging, and the mesh is placed into fixed-size buffers whose capacity is
//! planned once from the worst possible quad count.

use vstd::prelude::*;

pub mod block;
pub mod bounds;
pub mod grid;
pub mod laws;
pub mod mesh;
pub mod mesher;
pub mod store;

verus! {

/// A chunk's position in chunk space (not voxel space).
pub type ChunkPos = [i32; 3];

/// Interior edge length of a chunk, in cells.
pub const SIZE: usize = 16;

/// Edge length of the padded chunk grid: the interior plus a one-cell shell.
pub const PAD: usize = 18;

/// Number of cells in one padded chunk grid (`PAD` cubed).
pub const CHUNK_LEN: usize = 5832;

/// Worst-case quad count of one chunk mesh: a checkerboard defeats all
/// merging and exposes all six faces of every other interior cell.
pub const MAX_QUADS: usize = 12288;

/// Worst-case vertex count: four vertices per quad.
pub const MAX_VERTS: usize = 49152;

/// Worst-case index count: six indices per quad.
pub const MAX_INDXS: usize = 73728;

/// Smallest chunk coordinate for which every world voxel coordinate
/// (`local + pos * SIZE` with `local` in `[0, PAD)`) still fits in `i32`.
pub const CHUNK_POS_MIN: i32 = -134217728;

/// Largest such chunk coordinate.
pub const CHUNK_POS_MAX: i32 = 134217726;

/// Whether a chunk position keeps all world voxel coordinates inside `i32`.
pub open spec fn pos_in_range(p: ChunkPos) -> bool {
    &&& CHUNK_POS_MIN <= p[0] <= CHUNK_POS_MAX
    &&& CHUNK_POS_MIN <= p[1] <= CHUNK_POS_MAX
    &&& CHUNK_POS_MIN <= p[2] <= CHUNK_POS_MAX
}

} // verus!
