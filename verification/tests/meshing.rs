use voxel_mesh::CHUNK_POS_MAX;
use voxel_mesh::CHUNK_POS_MIN;
use voxel_mesh::MAX_INDXS;
use voxel_mesh::MAX_VERTS;
use voxel_mesh::block::Block;
use voxel_mesh::mesh::Vertex;
use voxel_mesh::store::TerrainState;

fn empty_gen(_local: [i32; 3], _world: [i32; 3]) -> Block {
    Block { solid: false }
}

/// Solid only at one fixed local interior cell.
fn one_cell_gen(local: [i32; 3], _world: [i32; 3]) -> Block {
    Block { solid: local == [8, 8, 8] }
}

#[test]
fn empty_grid_meshes_empty() {
    let mut world = TerrainState::new();
    world.set_chunk([0, 0, 0], empty_gen);
    let mesh = world.make_mesh([0, 0, 0]).unwrap();
    assert_eq!(mesh.verts.len(), 0);
    assert_eq!(mesh.indxs.len(), 0);
}

#[test]
fn single_cell_six_unit_faces() {
    let mut world = TerrainState::new();
    world.set_chunk([0, 0, 0], one_cell_gen);
    let mesh = world.make_mesh([0, 0, 0]).unwrap();
    assert_eq!(mesh.verts.len(), 24);
    assert_eq!(mesh.indxs.len(), 36);
}

#[test]
fn single_cell_exact_geometry() {
    let mut world = TerrainState::new();
    world.set_chunk([0, 0, 0], |local: [i32; 3], _world: [i32; 3]| Block {
        solid: local == [2, 3, 4],
    });
    let mesh = world.make_mesh([0, 0, 0]).unwrap();
    assert_eq!(mesh.verts.len(), 24);
    // First quad: the cell's face towards negative x.
    let expected_neg_x = [
        Vertex { x: 2, y: 3, z: 4 },
        Vertex { x: 2, y: 3, z: 5 },
        Vertex { x: 2, y: 4, z: 5 },
        Vertex { x: 2, y: 4, z: 4 },
    ];
    assert_eq!(&mesh.verts[0..4], &expected_neg_x);
    // Second quad: the face towards negative y.
    let expected_neg_y = [
        Vertex { x: 2, y: 3, z: 4 },
        Vertex { x: 3, y: 3, z: 4 },
        Vertex { x: 3, y: 3, z: 5 },
        Vertex { x: 2, y: 3, z: 5 },
    ];
    assert_eq!(&mesh.verts[4..8], &expected_neg_y);
    // Indices: two triangles per quad, continuing from the running vertex
    // count, never reset between directions.
    assert_eq!(&mesh.indxs[0..6], &[0, 1, 2, 0, 2, 3]);
    assert_eq!(&mesh.indxs[6..12], &[4, 5, 6, 4, 6, 7]);
}

#[test]
fn world_translation_offsets_vertices() {
    let mut world = TerrainState::new();
    world.set_chunk([1, -1, 2], |local: [i32; 3], _world: [i32; 3]| Block {
        solid: local == [2, 3, 4],
    });
    let mesh = world.make_mesh([1, -1, 2]).unwrap();
    assert_eq!(mesh.verts.len(), 24);
    assert_eq!(mesh.verts[0], Vertex { x: 2 + 16, y: 3 - 16, z: 4 + 32 });
}

#[test]
fn world_coordinates_reach_generator() {
    // A generator keyed on world coordinates: the cell lands in the chunk
    // that covers its world position and nowhere else.
    let by_world = |_local: [i32; 3], world: [i32; 3]| Block { solid: world == [5, 5, 5] };
    let mut world = TerrainState::new();
    world.set_chunk([0, 0, 0], by_world);
    world.set_chunk([1, 0, 0], by_world);
    let home = world.make_mesh([0, 0, 0]).unwrap();
    let neighbor = world.make_mesh([1, 0, 0]).unwrap();
    assert_eq!(home.verts.len(), 24);
    assert_eq!(neighbor.verts.len(), 0);
}

#[test]
fn uniform_slab_merges_into_single_quads() {
    // A 4 x 4 solid slab, one cell thick: greedy merging gives one quad per
    // exposed side — 6 quads in all — not 16 unit quads per face.
    let mut world = TerrainState::new();
    world.set_chunk([0, 0, 0], |local: [i32; 3], _world: [i32; 3]| Block {
        solid: (1..=4).contains(&local[0]) && local[1] == 1 && (1..=4).contains(&local[2]),
    });
    let mesh = world.make_mesh([0, 0, 0]).unwrap();
    assert_eq!(mesh.verts.len(), 24);
    assert_eq!(mesh.indxs.len(), 36);
}

#[test]
fn full_interior_merges_to_six_faces() {
    // A generator that answers solid everywhere, shell included: the store
    // forces the shell empty, so the mesh is the box's six merged faces.
    let mut world = TerrainState::new();
    world.set_chunk([0, 0, 0], |_local: [i32; 3], _world: [i32; 3]| Block { solid: true });
    let mesh = world.make_mesh([0, 0, 0]).unwrap();
    assert_eq!(mesh.verts.len(), 24);
    assert_eq!(mesh.indxs.len(), 36);
}

#[test]
fn checkerboard_reaches_documented_worst_case() {
    // The checkerboard defeats all merging: every other interior cell keeps
    // all six faces, which is exactly the planned capacity and never more.
    let mut world = TerrainState::new();
    world.set_chunk([0, 0, 0], |local: [i32; 3], _world: [i32; 3]| Block {
        solid: (local[0] + local[1] + local[2]) % 2 == 0,
    });
    let mesh = world.make_mesh([0, 0, 0]).unwrap();
    assert_eq!(mesh.verts.len(), MAX_VERTS);
    assert_eq!(mesh.indxs.len(), MAX_INDXS);
    // Every index stays inside the 16-bit vertex address space.
    for &i in mesh.indxs.iter() {
        assert!((i as usize) < mesh.verts.len());
    }
}

#[test]
fn mesh_present_exactly_for_set_chunks() {
    let mut world = TerrainState::new();
    assert!(world.make_mesh([0, 0, 0]).is_none());
    world.set_chunk([0, 0, 0], empty_gen);
    assert!(world.make_mesh([0, 0, 0]).is_some());
    assert!(world.make_mesh([0, 0, 1]).is_none());
    assert!(world.has_chunk([0, 0, 0]));
    assert!(!world.has_chunk([0, 0, 1]));
}

#[test]
fn meshing_is_deterministic() {
    let gen = |local: [i32; 3], _world: [i32; 3]| Block {
        solid: (local[0] * 7 + local[1] * 3 + local[2]) % 5 < 2,
    };
    let mut one = TerrainState::new();
    one.set_chunk([0, 0, 0], gen);
    let mut two = TerrainState::new();
    two.set_chunk([0, 0, 0], gen);
    let m1 = one.make_mesh([0, 0, 0]).unwrap();
    let m2 = two.make_mesh([0, 0, 0]).unwrap();
    assert_eq!(m1.verts, m2.verts);
    assert_eq!(m1.indxs, m2.indxs);
    // Re-meshing the same chunk observes nothing from the earlier call.
    let m3 = one.make_mesh([0, 0, 0]).unwrap();
    assert_eq!(m1.verts, m3.verts);
    assert_eq!(m1.indxs, m3.indxs);
}

#[test]
fn extreme_chunk_positions_stay_in_range() {
    // The outermost admissible chunk coordinates: every world vertex
    // coordinate still fits in an i32.
    let pos = [CHUNK_POS_MAX, CHUNK_POS_MIN, 0];
    let mut world = TerrainState::new();
    world.set_chunk(pos, |local: [i32; 3], _world: [i32; 3]| Block {
        solid: local == [2, 3, 4],
    });
    let mesh = world.make_mesh(pos).unwrap();
    assert_eq!(mesh.verts.len(), 24);
    assert_eq!(
        mesh.verts[0],
        Vertex { x: 2 + CHUNK_POS_MAX * 16, y: 3 + CHUNK_POS_MIN * 16, z: 4 },
    );
}

#[test]
fn refilling_a_chunk_replaces_its_cells() {
    let mut world = TerrainState::new();
    world.set_chunk([0, 0, 0], one_cell_gen);
    assert_eq!(world.make_mesh([0, 0, 0]).unwrap().verts.len(), 24);
    world.set_chunk([0, 0, 0], empty_gen);
    assert_eq!(world.make_mesh([0, 0, 0]).unwrap().verts.len(), 0);
}
