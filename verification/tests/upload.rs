use voxel_mesh::block::Block;
use voxel_mesh::mesh::CPUMesh;
use voxel_mesh::mesh::CapacityError;
use voxel_mesh::mesh::Vertex;
use voxel_mesh::store::TerrainState;

fn sample_mesh() -> CPUMesh {
    let mut world = TerrainState::new();
    world.set_chunk([0, 0, 0], |local: [i32; 3], _world: [i32; 3]| Block {
        solid: local == [8, 8, 8],
    });
    world.make_mesh([0, 0, 0]).unwrap()
}

#[test]
fn upload_sized_round_trips_the_mesh() {
    let mesh = sample_mesh();
    let gpu = mesh.upload_sized(100, 120).unwrap();
    assert_eq!(gpu.vert_capacity(), 100);
    assert_eq!(gpu.indx_capacity(), 120);
    assert_eq!(gpu.drawable_indxs(), mesh.indxs.len());
    // Reading back only the first vertex_count vertices and index_count
    // indices reproduces the uploaded mesh exactly.
    assert_eq!(&gpu.vertex_buffer()[..mesh.verts.len()], &mesh.verts[..]);
    assert_eq!(&gpu.index_buffer()[..mesh.indxs.len()], &mesh.indxs[..]);
    // The remaining capacity is zero filler.
    for v in &gpu.vertex_buffer()[mesh.verts.len()..] {
        assert_eq!(*v, Vertex { x: 0, y: 0, z: 0 });
    }
    for i in &gpu.index_buffer()[mesh.indxs.len()..] {
        assert_eq!(*i, 0);
    }
}

#[test]
fn upload_uses_exact_capacity() {
    let mesh = sample_mesh();
    let gpu = mesh.upload();
    assert_eq!(gpu.vert_capacity(), mesh.verts.len());
    assert_eq!(gpu.indx_capacity(), mesh.indxs.len());
    assert_eq!(gpu.drawable_indxs(), mesh.indxs.len());
    assert_eq!(&gpu.vertex_buffer()[..], &mesh.verts[..]);
    assert_eq!(&gpu.index_buffer()[..], &mesh.indxs[..]);
}

#[test]
fn upload_sized_rejects_too_many_vertices() {
    let mesh = sample_mesh();
    assert_eq!(mesh.upload_sized(10, 1000).unwrap_err(), CapacityError::TooManyVerts);
}

#[test]
fn upload_sized_rejects_too_many_indices() {
    let mesh = sample_mesh();
    assert_eq!(mesh.upload_sized(1000, 10).unwrap_err(), CapacityError::TooManyIndxs);
}

#[test]
fn update_rewrites_in_place_and_tracks_count() {
    let mesh = sample_mesh();
    let mut gpu = mesh.upload_sized(100, 120).unwrap();
    let empty = CPUMesh::new();
    assert_eq!(empty.update_gpu_mesh(&mut gpu), Ok(()));
    // Capacity is fixed for the handle's lifetime; only the drawable count
    // shrinks with the new mesh.
    assert_eq!(gpu.vert_capacity(), 100);
    assert_eq!(gpu.indx_capacity(), 120);
    assert_eq!(gpu.drawable_indxs(), 0);
    // Writing the original mesh again restores the drawable prefix.
    assert_eq!(mesh.update_gpu_mesh(&mut gpu), Ok(()));
    assert_eq!(gpu.drawable_indxs(), mesh.indxs.len());
    assert_eq!(&gpu.vertex_buffer()[..mesh.verts.len()], &mesh.verts[..]);
    assert_eq!(&gpu.index_buffer()[..mesh.indxs.len()], &mesh.indxs[..]);
}

#[test]
fn update_rejects_meshes_over_capacity() {
    let small = CPUMesh::new();
    let mut gpu = small.upload_sized(4, 6).unwrap();
    let mesh = sample_mesh();
    assert_eq!(mesh.update_gpu_mesh(&mut gpu), Err(CapacityError::TooManyVerts));
    // A failed update leaves the handle untouched.
    assert_eq!(gpu.drawable_indxs(), 0);
    assert_eq!(gpu.vert_capacity(), 4);
    assert_eq!(gpu.indx_capacity(), 6);
}

#[test]
fn index_zero_is_safe_filler() {
    // A mesh with at least one quad always has a vertex 0, so the padding's
    // zero index values address a real vertex.
    let mesh = sample_mesh();
    let gpu = mesh.upload_sized(50, 50).unwrap();
    for &i in gpu.index_buffer().iter() {
        assert!((i as usize) < gpu.vert_capacity());
    }
}
