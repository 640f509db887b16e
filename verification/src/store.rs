//! The chunk-keyed voxel store.
//!
//! `PosMap` is a verified associative store keyed by chunk coordinates; the
//! world keeps one padded voxel array per resident chunk in it.  Chunks are
//! created and refilled through a caller-supplied generator function that is
//! invoked once per cell; the store forces the padding shell non-solid no
//! matter what the generator returns there, so every resident grid satisfies
//! the mesher's shell invariant.

use vstd::prelude::*;

use crate::ChunkPos;
use crate::block::Block;
use crate::grid::ChunkArray;
use crate::grid::grid_wf;
use crate::grid::in_grid;
use crate::grid::lin;
use crate::grid::on_shell;
use crate::grid::solid_at;
use crate::mesh::CPUMesh;
use crate::mesher::mesh_chunk;
use crate::mesher::mesh_indxs;
use crate::mesher::mesh_verts;
use crate::pos_in_range;

verus! {

/// The spec-level key of a chunk position.
pub open spec fn key_of(p: ChunkPos) -> (int, int, int) {
    (p[0] as int, p[1] as int, p[2] as int)
}

spec fn map_of<T>(entries: Seq<(ChunkPos, T)>) -> Map<(int, int, int), T>
    decreases entries.len(),
{
    if entries.len() == 0 {
        Map::empty()
    } else {
        map_of(entries.drop_last()).insert(key_of(entries.last().0), entries.last().1)
    }
}

spec fn unique_keys<T>(entries: Seq<(ChunkPos, T)>) -> bool {
    forall|i: int, j: int|
        0 <= i < j < entries.len() ==> key_of((#[trigger] entries[i]).0) != key_of(
            (#[trigger] entries[j]).0,
        )
}

proof fn lemma_map_of_index<T>(entries: Seq<(ChunkPos, T)>, i: int)
    requires
        unique_keys(entries),
        0 <= i < entries.len(),
    ensures
        map_of(entries).contains_key(key_of(entries[i].0)),
        map_of(entries)[key_of(entries[i].0)] == entries[i].1,
    decreases entries.len(),
{
    if i < entries.len() - 1 {
        let s0 = entries.drop_last();
        assert(forall|j: int| 0 <= j < s0.len() ==> s0[j] == entries[j]);
        lemma_map_of_index(s0, i);
        assert(key_of(entries[i].0) != key_of(entries.last().0));
    }
}

proof fn lemma_map_of_absent<T>(entries: Seq<(ChunkPos, T)>, k: (int, int, int))
    requires
        forall|i: int| 0 <= i < entries.len() ==> key_of((#[trigger] entries[i]).0) != k,
    ensures
        !map_of(entries).contains_key(k),
    decreases entries.len(),
{
    if entries.len() > 0 {
        let s0 = entries.drop_last();
        assert(forall|j: int| 0 <= j < s0.len() ==> s0[j] == entries[j]);
        lemma_map_of_absent(s0, k);
        assert(key_of(entries[entries.len() - 1].0) != k);
    }
}

proof fn lemma_map_of_update<T>(entries: Seq<(ChunkPos, T)>, i: int, x: (ChunkPos, T))
    requires
        unique_keys(entries),
        0 <= i < entries.len(),
        key_of(x.0) == key_of(entries[i].0),
    ensures
        map_of(entries.update(i, x)) =~= map_of(entries).insert(key_of(x.0), x.1),
    decreases entries.len(),
{
    let e1 = entries.update(i, x);
    if i == entries.len() - 1 {
        assert(e1.drop_last() =~= entries.drop_last());
        assert(e1.last() == x);
    } else {
        let s0 = entries.drop_last();
        assert(forall|j: int| 0 <= j < s0.len() ==> s0[j] == entries[j]);
        assert(e1.drop_last() =~= s0.update(i, x));
        assert(e1.last() == entries.last());
        lemma_map_of_update(s0, i, x);
        // The final insert of the unchanged last entry commutes with the
        // update's insert because their keys differ.
        assert(key_of(x.0) != key_of(entries.last().0));
    }
}

/// An associative store from chunk positions to values: the coordinate-keyed
/// map that both the voxel store and the mesh cache are built on.
pub struct PosMap<T> {
    entries: Vec<(ChunkPos, T)>,
}

impl<T> View for PosMap<T> {
    type V = Map<(int, int, int), T>;

    closed spec fn view(&self) -> Map<(int, int, int), T> {
        map_of(self.entries@)
    }
}

impl<T> PosMap<T> {
    pub closed spec fn wf(&self) -> bool {
        unique_keys(self.entries@)
    }

    pub fn new() -> (m: Self)
        ensures
            m@ == Map::<(int, int, int), T>::empty(),
            m.wf(),
    {
        PosMap { entries: Vec::new() }
    }

    fn find(&self, pos: ChunkPos) -> (r: Option<usize>)
        ensures
            match r {
                Some(i) => i < self.entries@.len() && key_of(self.entries@[i as int].0) == key_of(
                    pos,
                ),
                None => forall|i: int|
                    0 <= i < self.entries@.len() ==> key_of((#[trigger] self.entries@[i]).0)
                        != key_of(pos),
            },
    {
        let mut i: usize = 0;
        while i < self.entries.len()
            invariant
                i <= self.entries@.len(),
                forall|j: int|
                    0 <= j < i ==> key_of((#[trigger] self.entries@[j]).0) != key_of(pos),
            decreases self.entries@.len() - i,
        {
            let e = &self.entries[i];
            if e.0[0] == pos[0] && e.0[1] == pos[1] && e.0[2] == pos[2] {
                return Some(i);
            }
            i += 1;
        }
        None
    }

    /// Whether a value is stored at `pos`.
    pub fn contains_pos(&self, pos: ChunkPos) -> (r: bool)
        requires
            self.wf(),
        ensures
            r == self@.contains_key(key_of(pos)),
    {
        match self.find(pos) {
            Some(i) => {
                proof {
                    lemma_map_of_index(self.entries@, i as int);
                }
                true
            },
            None => {
                proof {
                    lemma_map_of_absent(self.entries@, key_of(pos));
                }
                false
            },
        }
    }

    /// Look up the value stored at `pos`, if any.
    pub fn get(&self, pos: ChunkPos) -> (r: Option<&T>)
        requires
            self.wf(),
        ensures
            match r {
                Some(v) => self@.contains_key(key_of(pos)) && *v == self@[key_of(pos)],
                None => !self@.contains_key(key_of(pos)),
            },
    {
        match self.find(pos) {
            Some(i) => {
                proof {
                    lemma_map_of_index(self.entries@, i as int);
                }
                Some(&self.entries[i].1)
            },
            None => {
                proof {
                    lemma_map_of_absent(self.entries@, key_of(pos));
                }
                None
            },
        }
    }

    /// Store `value` at `pos`, replacing any earlier value.
    pub fn insert(&mut self, pos: ChunkPos, value: T)
        requires
            old(self).wf(),
        ensures
            final(self).wf(),
            final(self)@ == old(self)@.insert(key_of(pos), value),
    {
        let ghost entries0 = self.entries@;
        match self.find(pos) {
            Some(i) => {
                self.entries.set(i, (pos, value));
                proof {
                    assert(key_of((pos, value).0) == key_of(entries0[i as int].0));
                    lemma_map_of_update(entries0, i as int, (pos, value));
                    assert(unique_keys(self.entries@));
                }
            },
            None => {
                self.entries.push((pos, value));
                proof {
                    assert(self.entries@.drop_last() =~= entries0);
                    assert(self.entries@.last() == (pos, value));
                    assert(unique_keys(self.entries@));
                }
            },
        }
    }
}

/// The coordinate-keyed map type used throughout: chunk grids on the store
/// side, uploaded meshes on the render side.
pub type PosHash<T> = PosMap<T>;

/// The local-coordinate argument handed to a generator for cell `(x, y, z)`.
pub open spec fn local_of(x: int, y: int, z: int) -> ChunkPos {
    [x as i32, y as i32, z as i32]
}

/// The world-coordinate argument for the same cell of the chunk at `pos`:
/// padding cells alias into the neighbouring chunks' coordinate space.
pub open spec fn world_of(pos: ChunkPos, x: int, y: int, z: int) -> ChunkPos {
    [(x + pos[0] * 16) as i32, (y + pos[1] * 16) as i32, (z + pos[2] * 16) as i32]
}

/// What holds of cell `(x, y, z)` after a fill by `func`: shell cells are
/// forced non-solid, every interior cell is some value the generator may
/// return for that cell's coordinates.
pub open spec fn cell_ok<F: Fn(ChunkPos, ChunkPos) -> Block>(
    g: Seq<Block>,
    func: F,
    pos: ChunkPos,
    x: int,
    y: int,
    z: int,
) -> bool {
    if on_shell(x, y, z) {
        !solid_at(g, x, y, z)
    } else {
        call_ensures(func, (local_of(x, y, z), world_of(pos, x, y, z)), g[lin(x, y, z)])
    }
}

/// What a full chunk fill by `func` guarantees.
pub open spec fn chunk_generated<F: Fn(ChunkPos, ChunkPos) -> Block>(
    g: Seq<Block>,
    func: F,
    pos: ChunkPos,
) -> bool {
    &&& g.len() == 5832
    &&& forall|x: int, y: int, z: int|
        in_grid(x, y, z) ==> #[trigger] cell_ok(g, func, pos, x, y, z)
}

/// The chunk-keyed voxel world.
pub struct TerrainState {
    chunks: PosMap<ChunkArray>,
}

impl View for TerrainState {
    type V = Map<(int, int, int), Seq<Block>>;

    /// The resident chunks' grids, keyed by chunk coordinate.
    closed spec fn view(&self) -> Map<(int, int, int), Seq<Block>> {
        Map::new(
            |k: (int, int, int)| self.chunks@.contains_key(k),
            |k: (int, int, int)| self.chunks@[k]@,
        )
    }
}

impl TerrainState {
    pub closed spec fn wf(&self) -> bool {
        &&& self.chunks.wf()
        &&& forall|k: (int, int, int)|
            self.chunks@.contains_key(k) ==> grid_wf((#[trigger] self.chunks@[k])@)
    }

    /// An empty world.
    pub fn new() -> (s: Self)
        ensures
            s.wf(),
            s@ == Map::<(int, int, int), Seq<Block>>::empty(),
    {
        let s = TerrainState { chunks: PosMap::new() };
        proof {
            assert(s@ =~= Map::<(int, int, int), Seq<Block>>::empty());
        }
        s
    }

    /// Whether a chunk is resident at `pos`.
    pub fn has_chunk(&self, pos: ChunkPos) -> (r: bool)
        requires
            self.wf(),
        ensures
            r == self@.contains_key(key_of(pos)),
    {
        self.chunks.contains_pos(pos)
    }

    /// Create or refill the chunk at `pos`: the generator is invoked once
    /// per cell, shell included, with the cell's local and world
    /// coordinates; shell cells are stored non-solid no matter what the
    /// generator returns for them.
    pub fn set_chunk<F: Fn(ChunkPos, ChunkPos) -> Block>(&mut self, pos: ChunkPos, func: F)
        requires
            old(self).wf(),
            pos_in_range(pos),
            forall|l: ChunkPos, w: ChunkPos| #[trigger] call_requires(func, (l, w)),
        ensures
            final(self).wf(),
            final(self)@.contains_key(key_of(pos)),
            chunk_generated(final(self)@[key_of(pos)], func, pos),
            final(self)@.dom() == old(self)@.dom().insert(key_of(pos)),
            forall|k: (int, int, int)|
                k != key_of(pos) && old(self)@.contains_key(k) ==> final(self)@[k] == old(
                    self,
                )@[k],
    {
        let mut blocks: Vec<Block> = Vec::new();
        let mut z: usize = 0;
        while z < 18
            invariant
                pos_in_range(pos),
                forall|l: ChunkPos, w: ChunkPos| #[trigger] call_requires(func, (l, w)),
                z <= 18,
                blocks@.len() == 324 * z,
                forall|xx: int, yy: int, zz: int|
                    in_grid(xx, yy, zz) && zz < z ==> #[trigger] cell_ok(
                        blocks@,
                        func,
                        pos,
                        xx,
                        yy,
                        zz,
                    ),
            decreases 18 - z,
        {
            let mut y: usize = 0;
            while y < 18
                invariant
                    pos_in_range(pos),
                    forall|l: ChunkPos, w: ChunkPos| #[trigger] call_requires(func, (l, w)),
                    z < 18,
                    y <= 18,
                    blocks@.len() == 324 * z + 18 * y,
                    forall|xx: int, yy: int, zz: int|
                        in_grid(xx, yy, zz) && zz < z ==> #[trigger] cell_ok(
                            blocks@,
                            func,
                            pos,
                            xx,
                            yy,
                            zz,
                        ),
                    forall|xx: int, yy: int|
                        0 <= xx < 18 && 0 <= yy < y ==> #[trigger] cell_ok(
                            blocks@,
                            func,
                            pos,
                            xx,
                            yy,
                            z as int,
                        ),
                decreases 18 - y,
            {
                let mut x: usize = 0;
                while x < 18
                    invariant
                        pos_in_range(pos),
                        forall|l: ChunkPos, w: ChunkPos| #[trigger] call_requires(func, (l, w)),
                        z < 18,
                        y < 18,
                        x <= 18,
                        blocks@.len() == 324 * z + 18 * y + x,
                        forall|xx: int, yy: int, zz: int|
                            in_grid(xx, yy, zz) && zz < z ==> #[trigger] cell_ok(
                                blocks@,
                                func,
                                pos,
                                xx,
                                yy,
                                zz,
                            ),
                        forall|xx: int, yy: int|
                            0 <= xx < 18 && 0 <= yy < y ==> #[trigger] cell_ok(
                                blocks@,
                                func,
                                pos,
                                xx,
                                yy,
                                z as int,
                            ),
                        forall|xx: int|
                            0 <= xx < x ==> #[trigger] cell_ok(
                                blocks@,
                                func,
                                pos,
                                xx,
                                y as int,
                                z as int,
                            ),
                    decreases 18 - x,
                {
                    let local: ChunkPos = [x as i32, y as i32, z as i32];
                    let world: ChunkPos = [
                        x as i32 + pos[0] * 16,
                        y as i32 + pos[1] * 16,
                        z as i32 + pos[2] * 16,
                    ];
                    let generated = func(local, world);
                    let on_edge = x == 0 || x == 17 || y == 0 || y == 17 || z == 0 || z == 17;
                    let cell = if on_edge {
                        Block { solid: false }
                    } else {
                        generated
                    };
                    let ghost blocks0 = blocks@;
                    blocks.push(cell);
                    proof {
                        assert(local =~= local_of(x as int, y as int, z as int));
                        assert(world =~= world_of(pos, x as int, y as int, z as int));
                        assert(blocks@.len() == 324 * z + 18 * y + x + 1);
                        assert(lin(x as int, y as int, z as int) == 324 * z + 18 * y + x);
                        assert(blocks@[lin(x as int, y as int, z as int)] == cell);
                        assert(cell_ok(blocks@, func, pos, x as int, y as int, z as int));
                        assert forall|xx: int, yy: int, zz: int|
                            in_grid(xx, yy, zz) && zz < z implies #[trigger] cell_ok(
                                blocks@,
                                func,
                                pos,
                                xx,
                                yy,
                                zz,
                            ) by {
                            assert(cell_ok(blocks0, func, pos, xx, yy, zz));
                            assert(lin(xx, yy, zz) < blocks0.len());
                            assert(blocks@[lin(xx, yy, zz)] == blocks0[lin(xx, yy, zz)]);
                        }
                        assert forall|xx: int, yy: int|
                            0 <= xx < 18 && 0 <= yy < y implies #[trigger] cell_ok(
                                blocks@,
                                func,
                                pos,
                                xx,
                                yy,
                                z as int,
                            ) by {
                            assert(cell_ok(blocks0, func, pos, xx, yy, z as int));
                            assert(lin(xx, yy, z as int) < blocks0.len());
                            assert(blocks@[lin(xx, yy, z as int)] == blocks0[lin(xx, yy, z as int)]);
                        }
                        assert forall|xx: int|
                            0 <= xx < x + 1 implies #[trigger] cell_ok(
                                blocks@,
                                func,
                                pos,
                                xx,
                                y as int,
                                z as int,
                            ) by {
                            if xx < x {
                                assert(cell_ok(blocks0, func, pos, xx, y as int, z as int));
                                assert(lin(xx, y as int, z as int) < blocks0.len());
                                assert(blocks@[lin(xx, y as int, z as int)] == blocks0[lin(
                                    xx,
                                    y as int,
                                    z as int,
                                )]);
                            }
                        }
                    }
                    x += 1;
                }
                y += 1;
            }
            z += 1;
        }
        proof {
            assert forall|xx: int, yy: int, zz: int| in_grid(xx, yy, zz) implies #[trigger] cell_ok(
                blocks@,
                func,
                pos,
                xx,
                yy,
                zz,
            ) by {}
            assert(chunk_generated(blocks@, func, pos));
            assert forall|xx: int, yy: int, zz: int|
                in_grid(xx, yy, zz) && on_shell(xx, yy, zz) implies !solid_at(blocks@, xx, yy, zz) by {
                assert(cell_ok(blocks@, func, pos, xx, yy, zz));
            }
            assert(grid_wf(blocks@));
        }
        let ghost view0 = self@;
        let arr = ChunkArray::from_blocks(blocks);
        self.chunks.insert(pos, arr);
        proof {
            assert(self@ =~= view0.insert(key_of(pos), arr@));
            assert(self@.dom() =~= view0.dom().insert(key_of(pos)));
        }
    }

    /// Mesh the chunk at `pos`, if it is resident.  The result is a pure
    /// function of the chunk's grid and of `pos`: meshing the same cells
    /// twice gives identical vertex and index sequences, and no state is
    /// carried over from earlier calls.
    pub fn make_mesh(&self, pos: ChunkPos) -> (r: Option<CPUMesh>)
        requires
            self.wf(),
            pos_in_range(pos),
        ensures
            match r {
                Some(m) => {
                    &&& self@.contains_key(key_of(pos))
                    &&& m.verts@ == mesh_verts(self@[key_of(pos)], pos)
                    &&& m.indxs@ == mesh_indxs(self@[key_of(pos)])
                    &&& m.wf()
                    &&& m.verts@.len() <= crate::MAX_VERTS
                    &&& m.indxs@.len() <= crate::MAX_INDXS
                },
                None => !self@.contains_key(key_of(pos)),
            },
    {
        match self.chunks.get(pos) {
            Some(c) => Some(mesh_chunk(c, pos)),
            None => None,
        }
    }
}

} // verus!
