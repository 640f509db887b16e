//! CPU meshes and the fixed-capacity GPU buffer model.

use vstd::prelude::*;

verus! {

/// The index element type of every mesh: 16-bit, so a single chunk mesh may
/// never address more than 65536 vertices.
pub type Index = u16;

/// A mesh vertex: a position on the world voxel lattice.
///
/// Positions are integer lattice coordinates; scaling by the rendering side's
/// voxel size is a display concern and happens outside the core.
#[derive(Clone, Copy, PartialEq, Eq, Structural, Debug)]
pub struct Vertex {
    pub x: i32,
    pub y: i32,
    pub z: i32,
}

/// A mesh generated on the CPU: vertices and 16-bit triangle indices.
#[derive(Clone, Debug)]
pub struct CPUMesh {
    pub verts: Vec<Vertex>,
    pub indxs: Vec<Index>,
}

impl CPUMesh {
    /// Every index addresses an existing vertex, and the vertex list never
    /// outgrows what a 16-bit index can address.
    pub open spec fn wf(&self) -> bool {
        &&& self.verts@.len() <= 65536
        &&& forall|i: int|
            0 <= i < self.indxs@.len() ==> (#[trigger] self.indxs@[i]) < self.verts@.len()
    }

    pub fn new() -> (m: CPUMesh)
        ensures
            m.verts@ == Seq::<Vertex>::empty(),
            m.indxs@ == Seq::<Index>::empty(),
            m.wf(),
    {
        CPUMesh { verts: Vec::new(), indxs: Vec::new() }
    }
}

/// The capacity-overflow error: a mesh was handed to a fixed-size buffer
/// that cannot hold it.  Buffers never grow, so this is a capacity-planning
/// bug, reported instead of silently truncating.
#[derive(Clone, Copy, PartialEq, Eq, Structural, Debug)]
pub enum CapacityError {
    TooManyVerts,
    TooManyIndxs,
}

/// The zero vertex used to pad unused buffer capacity.
pub open spec fn zero_vertex() -> Vertex {
    Vertex { x: 0, y: 0, z: 0 }
}

/// `count` zero vertices.
pub open spec fn vert_padding(count: int) -> Seq<Vertex> {
    Seq::new(count as nat, |i: int| zero_vertex())
}

/// `count` zero indices.  Index value 0 is always a safe filler: a mesh with
/// at least one quad always has a vertex 0.
pub open spec fn indx_padding(count: int) -> Seq<Index> {
    Seq::new(count as nat, |i: int| 0u16)
}

/// What a fresh upload guarantees: the mesh sits at the low end of buffers
/// of exactly the requested capacity, the rest is zero filler, and the
/// drawable count records the mesh's own index count.
pub open spec fn upload_post(m: CPUMesh, g: GPUMesh, max_verts: usize, max_indxs: usize) -> bool {
    &&& g.wf()
    &&& g.max_verts() == max_verts
    &&& g.max_indxs() == max_indxs
    &&& g.num_indxs() == m.indxs@.len()
    &&& g.verts() == m.verts@ + vert_padding(max_verts - m.verts@.len())
    &&& g.indxs() == m.indxs@ + indx_padding(max_indxs - m.indxs@.len())
}

/// The device-resident mesh model: two buffers of fixed capacity, plus the
/// current drawable index count, which may be smaller than capacity after a
/// re-mesh with fewer quads.  Buffers are only ever rewritten in place.
#[derive(Debug)]
pub struct GPUMesh {
    vertbuf: Vec<Vertex>,
    indxbuf: Vec<Index>,
    num_indxs: usize,
}

impl GPUMesh {
    /// The drawable count never exceeds the index capacity.
    pub open spec fn wf(&self) -> bool {
        self.num_indxs() <= self.max_indxs()
    }

    /// The vertex buffer's contents.
    pub closed spec fn verts(&self) -> Seq<Vertex> {
        self.vertbuf@
    }

    /// The index buffer's contents.
    pub closed spec fn indxs(&self) -> Seq<Index> {
        self.indxbuf@
    }

    /// The fixed vertex capacity.
    pub open spec fn max_verts(&self) -> int {
        self.verts().len() as int
    }

    /// The fixed index capacity.
    pub open spec fn max_indxs(&self) -> int {
        self.indxs().len() as int
    }

    /// The current drawable index count.
    pub closed spec fn num_indxs(&self) -> int {
        self.num_indxs as int
    }

    /// Read the current drawable index count.
    pub fn drawable_indxs(&self) -> (r: usize)
        ensures
            r == self.num_indxs(),
    {
        self.num_indxs
    }

    /// Read the vertex capacity.
    pub fn vert_capacity(&self) -> (r: usize)
        ensures
            r == self.max_verts(),
    {
        self.vertbuf.len()
    }

    /// Read the index capacity.
    pub fn indx_capacity(&self) -> (r: usize)
        ensures
            r == self.max_indxs(),
    {
        self.indxbuf.len()
    }

    /// Read back the whole vertex buffer, padding included.
    pub fn vertex_buffer(&self) -> (r: &Vec<Vertex>)
        ensures
            r@ == self.verts(),
    {
        &self.vertbuf
    }

    /// Read back the whole index buffer, padding included.
    pub fn index_buffer(&self) -> (r: &Vec<Index>)
        ensures
            r@ == self.indxs(),
    {
        &self.indxbuf
    }
}

impl CPUMesh {
    /// Place the mesh into fresh fixed-capacity buffers.  Fails fast with a
    /// typed error exactly when the mesh outgrows the requested capacity.
    pub fn upload_sized(&self, max_verts: usize, max_indxs: usize) -> (r: Result<
        GPUMesh,
        CapacityError,
    >)
        ensures
            match r {
                Ok(g) => self.verts@.len() <= max_verts && self.indxs@.len() <= max_indxs
                    && upload_post(*self, g, max_verts, max_indxs),
                Err(e) => (self.verts@.len() > max_verts || self.indxs@.len() > max_indxs) && (
                e == CapacityError::TooManyVerts <==> self.verts@.len() > max_verts),
            },
    {
        if self.verts.len() > max_verts {
            return Err(CapacityError::TooManyVerts);
        }
        if self.indxs.len() > max_indxs {
            return Err(CapacityError::TooManyIndxs);
        }
        let mut vertbuf: Vec<Vertex> = Vec::new();
        let mut i: usize = 0;
        while i < self.verts.len()
            invariant
                i <= self.verts@.len(),
                vertbuf@ == self.verts@.take(i as int),
            decreases self.verts@.len() - i,
        {
            vertbuf.push(self.verts[i]);
            proof {
                assert(vertbuf@ =~= self.verts@.take(i as int + 1));
            }
            i += 1;
        }
        proof {
            assert(self.verts@.take(self.verts@.len() as int) =~= self.verts@);
        }
        while vertbuf.len() < max_verts
            invariant
                self.verts@.len() <= vertbuf@.len() <= max_verts,
                vertbuf@ == self.verts@ + vert_padding(vertbuf@.len() - self.verts@.len()),
            decreases max_verts - vertbuf@.len(),
        {
            vertbuf.push(Vertex { x: 0, y: 0, z: 0 });
            proof {
                assert(vertbuf@ =~= self.verts@ + vert_padding(
                    vertbuf@.len() - self.verts@.len(),
                ));
            }
        }
        let mut indxbuf: Vec<Index> = Vec::new();
        let mut j: usize = 0;
        while j < self.indxs.len()
            invariant
                j <= self.indxs@.len(),
                indxbuf@ == self.indxs@.take(j as int),
            decreases self.indxs@.len() - j,
        {
            indxbuf.push(self.indxs[j]);
            proof {
                assert(indxbuf@ =~= self.indxs@.take(j as int + 1));
            }
            j += 1;
        }
        proof {
            assert(self.indxs@.take(self.indxs@.len() as int) =~= self.indxs@);
        }
        while indxbuf.len() < max_indxs
            invariant
                self.indxs@.len() <= indxbuf@.len() <= max_indxs,
                indxbuf@ == self.indxs@ + indx_padding(indxbuf@.len() - self.indxs@.len()),
            decreases max_indxs - indxbuf@.len(),
        {
            indxbuf.push(0);
            proof {
                assert(indxbuf@ =~= self.indxs@ + indx_padding(
                    indxbuf@.len() - self.indxs@.len(),
                ));
            }
        }
        proof {
            assert(vertbuf@ =~= self.verts@ + vert_padding(max_verts - self.verts@.len()));
            assert(indxbuf@ =~= self.indxs@ + indx_padding(max_indxs - self.indxs@.len()));
        }
        Ok(GPUMesh { vertbuf, indxbuf, num_indxs: self.indxs.len() })
    }

    /// Place the mesh into buffers sized exactly to it.
    pub fn upload(&self) -> (g: GPUMesh)
        ensures
            upload_post(*self, g, self.verts@.len() as usize, self.indxs@.len() as usize),
    {
        let r = self.upload_sized(self.verts.len(), self.indxs.len());
        match r {
            Ok(g) => g,
            Err(_) => {
                // Unreachable: a buffer sized exactly to the mesh always fits it.
                proof {
                    assert(false);
                }
                GPUMesh { vertbuf: Vec::new(), indxbuf: Vec::new(), num_indxs: 0 }
            },
        }
    }

    /// Rewrite an existing device mesh in place from byte offset zero and
    /// update its drawable count.  The buffers cannot grow, so this fails
    /// with a typed error, leaving the mesh unchanged, exactly when the new
    /// mesh outgrows the handle's fixed capacity; no padding is rewritten,
    /// since a draw only reads the first `num_indxs` indices.
    pub fn update_gpu_mesh(&self, gpu_mesh: &mut GPUMesh) -> (r: Result<(), CapacityError>)
        requires
            old(gpu_mesh).wf(),
        ensures
            final(gpu_mesh).wf(),
            final(gpu_mesh).max_verts() == old(gpu_mesh).max_verts(),
            final(gpu_mesh).max_indxs() == old(gpu_mesh).max_indxs(),
            match r {
                Ok(()) => {
                    &&& self.verts@.len() <= old(gpu_mesh).max_verts()
                    &&& self.indxs@.len() <= old(gpu_mesh).max_indxs()
                    &&& final(gpu_mesh).verts() == self.verts@ + old(gpu_mesh).verts().skip(
                        self.verts@.len() as int,
                    )
                    &&& final(gpu_mesh).indxs() == self.indxs@ + old(gpu_mesh).indxs().skip(
                        self.indxs@.len() as int,
                    )
                    &&& final(gpu_mesh).num_indxs() == self.indxs@.len()
                },
                Err(e) => {
                    &&& self.verts@.len() > old(gpu_mesh).max_verts() || self.indxs@.len() > old(
                        gpu_mesh,
                    ).max_indxs()
                    &&& *final(gpu_mesh) == *old(gpu_mesh)
                    &&& (e == CapacityError::TooManyVerts <==> self.verts@.len() > old(
                        gpu_mesh,
                    ).max_verts())
                },
            },
    {
        if self.verts.len() > gpu_mesh.vertbuf.len() {
            return Err(CapacityError::TooManyVerts);
        }
        if self.indxs.len() > gpu_mesh.indxbuf.len() {
            return Err(CapacityError::TooManyIndxs);
        }
        let ghost verts0 = gpu_mesh.vertbuf@;
        let ghost indxs0 = gpu_mesh.indxbuf@;
        let mut i: usize = 0;
        while i < self.verts.len()
            invariant
                self.verts@.len() <= verts0.len(),
                gpu_mesh.vertbuf@.len() == verts0.len(),
                gpu_mesh.indxbuf@ == indxs0,
                gpu_mesh.num_indxs == old(gpu_mesh).num_indxs,
                i <= self.verts@.len(),
                forall|k: int| 0 <= k < i ==> #[trigger] gpu_mesh.vertbuf@[k] == self.verts@[k],
                forall|k: int|
                    i <= k < verts0.len() ==> #[trigger] gpu_mesh.vertbuf@[k] == verts0[k],
            decreases self.verts@.len() - i,
        {
            gpu_mesh.vertbuf.set(i, self.verts[i]);
            i += 1;
        }
        proof {
            assert(gpu_mesh.vertbuf@ =~= self.verts@ + verts0.skip(self.verts@.len() as int));
        }
        let ghost verts1 = gpu_mesh.vertbuf@;
        let mut j: usize = 0;
        while j < self.indxs.len()
            invariant
                self.indxs@.len() <= indxs0.len(),
                gpu_mesh.indxbuf@.len() == indxs0.len(),
                gpu_mesh.vertbuf@ == verts1,
                j <= self.indxs@.len(),
                forall|k: int| 0 <= k < j ==> #[trigger] gpu_mesh.indxbuf@[k] == self.indxs@[k],
                forall|k: int|
                    j <= k < indxs0.len() ==> #[trigger] gpu_mesh.indxbuf@[k] == indxs0[k],
            decreases self.indxs@.len() - j,
        {
            gpu_mesh.indxbuf.set(j, self.indxs[j]);
            j += 1;
        }
        gpu_mesh.num_indxs = self.indxs.len();
        proof {
            assert(gpu_mesh.indxbuf@ =~= self.indxs@ + indxs0.skip(self.indxs@.len() as int));
        }
        Ok(())
    }
}

/// Round trip: reading back only the first `index count` indices and
/// `vertex count` vertices of a fresh upload reproduces the uploaded mesh
/// exactly; a correct draw call never reads the padding.
pub proof fn lemma_upload_round_trip(m: CPUMesh, g: GPUMesh, max_verts: usize, max_indxs: usize)
    requires
        upload_post(m, g, max_verts, max_indxs),
    ensures
        g.verts().take(m.verts@.len() as int) == m.verts@,
        g.indxs().take(m.indxs@.len() as int) == m.indxs@,
        g.num_indxs() == m.indxs@.len(),
{
    assert(g.verts().take(m.verts@.len() as int) =~= m.verts@);
    assert(g.indxs().take(m.indxs@.len() as int) =~= m.indxs@);
}

} // verus!
