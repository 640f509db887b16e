//! The fixed-shape padded voxel grid of one chunk.
//!
//! A chunk covers `SIZE`^3 interior cells; the stored grid adds a one-cell
//! padding shell on every face, so its edge length is `PAD = SIZE + 2` and a
//! cell `(x, y, z)` lives at linear index `x + PAD*y + PAD*PAD*z`.  The
//! interior occupies coordinates `1 ..= SIZE`; the shell is everything else.

use vstd::prelude::*;

use crate::block::Block;

verus! {

/// Linear index of cell `(x, y, z)` in the padded grid, `x` innermost.
pub open spec fn lin(x: int, y: int, z: int) -> int {
    x + 18 * y + 324 * z
}

/// Whether `(x, y, z)` lies inside the padded grid.
pub open spec fn in_grid(x: int, y: int, z: int) -> bool {
    0 <= x < 18 && 0 <= y < 18 && 0 <= z < 18
}

/// Whether `(x, y, z)` lies on the one-cell padding shell.
pub open spec fn on_shell(x: int, y: int, z: int) -> bool {
    x == 0 || x == 17 || y == 0 || y == 17 || z == 0 || z == 17
}

/// Whether cell `(x, y, z)` of grid `g` is solid.
pub open spec fn solid_at(g: Seq<Block>, x: int, y: int, z: int) -> bool {
    g[lin(x, y, z)].solid
}

/// A well-formed chunk grid: full size, and every shell cell non-solid.
///
/// The empty shell is what keeps the mesher's scan bounds sound: the
/// interior's outward faces are decided by shell neighbours, while the shell
/// itself never emits a face.
pub open spec fn grid_wf(g: Seq<Block>) -> bool {
    &&& g.len() == 5832
    &&& forall|x: int, y: int, z: int|
        in_grid(x, y, z) && on_shell(x, y, z) ==> !#[trigger] solid_at(g, x, y, z)
}

/// One chunk's dense voxel array, shell included.
pub struct ChunkArray {
    blocks: Vec<Block>,
}

impl View for ChunkArray {
    type V = Seq<Block>;

    closed spec fn view(&self) -> Seq<Block> {
        self.blocks@
    }
}

impl ChunkArray {
    pub open spec fn wf(&self) -> bool {
        grid_wf(self@)
    }

    /// A chunk filled entirely non-solid.
    pub fn new_empty() -> (c: ChunkArray)
        ensures
            c.wf(),
            forall|x: int, y: int, z: int|
                in_grid(x, y, z) ==> !#[trigger] solid_at(c@, x, y, z),
    {
        let mut blocks: Vec<Block> = Vec::new();
        let mut i: usize = 0;
        while i < 5832
            invariant
                blocks@.len() == i,
                i <= 5832,
                forall|j: int| 0 <= j < i ==> !(#[trigger] blocks@[j]).solid,
            decreases 5832 - i,
        {
            blocks.push(Block { solid: false });
            i += 1;
        }
        ChunkArray { blocks }
    }

    /// Build a chunk from an already-filled cell vector.
    pub fn from_blocks(blocks: Vec<Block>) -> (c: ChunkArray)
        requires
            grid_wf(blocks@),
        ensures
            c@ == blocks@,
            c.wf(),
    {
        ChunkArray { blocks }
    }

    /// Whether the cell at `(x, y, z)` is solid.
    pub fn solid(&self, x: usize, y: usize, z: usize) -> (r: bool)
        requires
            self@.len() == 5832,
            in_grid(x as int, y as int, z as int),
        ensures
            r == solid_at(self@, x as int, y as int, z as int),
    {
        self.blocks[x + 18 * y + 324 * z].solid
    }

    /// The cell at `(x, y, z)`.
    pub fn at(&self, x: usize, y: usize, z: usize) -> (b: Block)
        requires
            self@.len() == 5832,
            in_grid(x as int, y as int, z as int),
        ensures
            b == self@[lin(x as int, y as int, z as int)],
    {
        self.blocks[x + 18 * y + 324 * z]
    }
}

} // verus!
