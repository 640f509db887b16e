use voxel_mesh::CHUNK_LEN;
use voxel_mesh::PAD;
use voxel_mesh::block::Block;
use voxel_mesh::grid::ChunkArray;
use voxel_mesh::mesher::mesh_chunk;

#[test]
fn block_classification_is_binary() {
    let solid = Block { solid: true };
    let empty = Block { solid: false };
    assert!(!solid.is_empty());
    assert!(solid.is_opaque());
    assert!(solid.merge_value());
    assert!(empty.is_empty());
    assert!(!empty.is_opaque());
    assert!(!empty.merge_value());
}

/// A full padded grid from a per-cell rule, with the shell forced empty.
fn grid_from(rule: impl Fn(usize, usize, usize) -> bool) -> ChunkArray {
    let mut blocks = Vec::new();
    for z in 0..PAD {
        for y in 0..PAD {
            for x in 0..PAD {
                let shell = x == 0 || x == PAD - 1 || y == 0 || y == PAD - 1 || z == 0
                    || z == PAD - 1;
                blocks.push(Block { solid: !shell && rule(x, y, z) });
            }
        }
    }
    assert_eq!(blocks.len(), CHUNK_LEN);
    ChunkArray::from_blocks(blocks)
}

#[test]
fn fresh_chunk_is_all_empty() {
    let chunk = ChunkArray::new_empty();
    for z in 0..PAD {
        for y in 0..PAD {
            for x in 0..PAD {
                assert!(!chunk.solid(x, y, z));
                assert!(chunk.at(x, y, z).is_empty());
            }
        }
    }
    let mesh = mesh_chunk(&chunk, [0, 0, 0]);
    assert_eq!(mesh.verts.len(), 0);
    assert_eq!(mesh.indxs.len(), 0);
}

#[test]
fn mesher_works_on_a_bare_grid() {
    // The mesher consumed directly, without the store in between.
    let chunk = grid_from(|x, y, z| (x, y, z) == (8, 8, 8));
    assert!(chunk.solid(8, 8, 8));
    assert!(!chunk.solid(8, 8, 9));
    let mesh = mesh_chunk(&chunk, [0, 0, 0]);
    assert_eq!(mesh.verts.len(), 24);
    assert_eq!(mesh.indxs.len(), 36);
}

#[test]
fn two_separated_cells_keep_all_faces() {
    let chunk = grid_from(|x, y, z| (x, y, z) == (2, 2, 2) || (x, y, z) == (10, 10, 10));
    let mesh = mesh_chunk(&chunk, [0, 0, 0]);
    assert_eq!(mesh.verts.len(), 48);
    assert_eq!(mesh.indxs.len(), 72);
}

#[test]
fn touching_cells_hide_their_shared_faces() {
    // Two cells sharing one face: 10 visible faces, none merged (the pair
    // is a 2 x 1 x 1 box, whose long sides merge into one quad each).
    // Faces: 2 ends + 4 merged sides = 6 quads.
    let chunk = grid_from(|x, y, z| (y, z) == (5, 5) && (x == 7 || x == 8));
    let mesh = mesh_chunk(&chunk, [0, 0, 0]);
    assert_eq!(mesh.verts.len(), 24);
    assert_eq!(mesh.indxs.len(), 36);
}
