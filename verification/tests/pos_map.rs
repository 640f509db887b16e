use voxel_mesh::block::Block;
use voxel_mesh::mesh::GPUMesh;
use voxel_mesh::store::PosHash;
use voxel_mesh::store::PosMap;
use voxel_mesh::store::TerrainState;

#[test]
fn missing_position_returns_nothing() {
    let cache: PosMap<u32> = PosMap::new();
    assert!(cache.get([0, 0, 0]).is_none());
    assert!(!cache.contains_pos([0, 0, 0]));
}

#[test]
fn insert_then_get_returns_the_value() {
    let mut cache: PosMap<u32> = PosMap::new();
    cache.insert([1, -2, 3], 7);
    cache.insert([0, 0, 0], 9);
    assert_eq!(cache.get([1, -2, 3]), Some(&7));
    assert_eq!(cache.get([0, 0, 0]), Some(&9));
    assert!(cache.get([3, -2, 1]).is_none());
}

#[test]
fn insert_replaces_earlier_value() {
    let mut cache: PosMap<u32> = PosMap::new();
    cache.insert([4, 4, 4], 1);
    cache.insert([4, 4, 4], 2);
    assert_eq!(cache.get([4, 4, 4]), Some(&2));
}

#[test]
fn mesh_cache_keeps_uploaded_meshes() {
    // The render-side cache: an uploaded mesh per meshed chunk coordinate,
    // added by explicit insertion, looked up at draw time.  A miss is the
    // recoverable "mesh not ready" signal, not a crash.
    let mut world = TerrainState::new();
    let mut cache: PosHash<GPUMesh> = PosHash::new();
    for x in -1..1 {
        for z in -1..1 {
            let pos = [x, 0, z];
            world.set_chunk(pos, |local: [i32; 3], _world: [i32; 3]| Block {
                solid: local[1] <= 4,
            });
            let mesh = world.make_mesh(pos).unwrap();
            cache.insert(pos, mesh.upload());
        }
    }
    let hit = cache.get([-1, 0, -1]).unwrap();
    assert_eq!(hit.drawable_indxs(), 36);
    assert!(cache.get([5, 0, 5]).is_none());
}
