//! The greedy quad mesher.
//!
//! For each of the six face directions the padded grid is cut into the 16
//! interior layers perpendicular to the direction's axis.  Each layer yields
//! a 16 x 16 visibility mask: a cell is visible when it is solid and its
//! neighbour in the face direction is not.  A row-major scan of the mask
//! greedily grows each visible, unclaimed cell into the widest possible run,
//! then the tallest possible rectangle of such runs, claims the rectangle and
//! emits it as one quad.  Quads are then packed into a flat vertex/index
//! mesh, four vertices and six indices per quad, in direction order, layer
//! order, then emission order — so the output is a pure function of the grid.
//!
//! Direction encoding: `d % 3` is the axis (x, y, z), `d >= 3` means the
//! positive side.  In-plane coordinates `(u, v)` are the two remaining axes
//! in increasing order; mask position `p = v * 16 + u`.

use vstd::prelude::*;

use crate::ChunkPos;
use crate::block::Block;
use crate::grid::ChunkArray;
use crate::grid::solid_at;
use crate::mesh::CPUMesh;
use crate::mesh::Vertex;
use crate::pos_in_range;

verus! {

/// One merged rectangle inside a single scan plane, in normalized in-plane
/// coordinates (`u`, `v` in `[0, 16)`, extents `w` along `u`, `h` along `v`).
#[derive(Clone, Copy, PartialEq, Eq, Structural, Debug)]
pub struct PlaneQuad {
    pub u: usize,
    pub v: usize,
    pub w: usize,
    pub h: usize,
}

/// One merged rectangle of the whole chunk: a plane quad together with its
/// face direction and its layer along the direction's axis.
#[derive(Clone, Copy, PartialEq, Eq, Structural, Debug)]
pub struct Quad {
    pub dir: usize,
    pub layer: usize,
    pub u: usize,
    pub v: usize,
    pub w: usize,
    pub h: usize,
}

/// Grid coordinates of the cell at layer `n`, in-plane position `(u, v)` of
/// the planes perpendicular to axis `a`.
pub open spec fn cell_of(a: int, n: int, u: int, v: int) -> (int, int, int) {
    if a == 0 {
        (n, u + 1, v + 1)
    } else if a == 1 {
        (u + 1, n, v + 1)
    } else {
        (u + 1, v + 1, n)
    }
}

/// Grid coordinates of that cell's neighbour in direction `d`.
pub open spec fn neighbor_of(d: int, n: int, u: int, v: int) -> (int, int, int) {
    cell_of(d % 3, n + if d >= 3 { 1int } else { -1 }, u, v)
}

/// Whether the face of the cell at `(n, u, v)` in direction `d` is visible:
/// the cell is solid and its neighbour in that direction does not occlude it.
pub open spec fn mask_at(g: Seq<Block>, d: int, n: int, u: int, v: int) -> bool {
    let (x, y, z) = cell_of(d % 3, n, u, v);
    let (nx, ny, nz) = neighbor_of(d, n, u, v);
    solid_at(g, x, y, z) && !solid_at(g, nx, ny, nz)
}

/// The 16 x 16 visibility mask of direction `d`, layer `n`, as a row-major
/// sequence of 256 cells.
pub open spec fn mask_seq(g: Seq<Block>, d: int, n: int) -> Seq<bool> {
    Seq::new(256, |p: int| mask_at(g, d, n, p % 16, p / 16))
}

/// Whether mask cell `p` is visible and not yet claimed by an earlier quad.
pub open spec fn avail(m: Seq<bool>, cl: Seq<bool>, p: int) -> bool {
    m[p] && !cl[p]
}

/// Length of the run of available cells rightward from `(u, v)`.
pub open spec fn run_w(m: Seq<bool>, cl: Seq<bool>, u: int, v: int) -> int
    decreases 16 - u,
{
    if u < 0 || u >= 16 {
        0
    } else if avail(m, cl, v * 16 + u) {
        1 + run_w(m, cl, u + 1, v)
    } else {
        0
    }
}

/// Whether cells `[u, u + w)` of row `v` are all available.
pub open spec fn row_avail(m: Seq<bool>, cl: Seq<bool>, u: int, w: int, v: int) -> bool {
    forall|p: int| v * 16 + u <= p < v * 16 + u + w ==> #[trigger] avail(m, cl, p)
}

/// Number of consecutive rows from `v` downward whose cells `[u, u + w)` are
/// all available.
pub open spec fn run_h(m: Seq<bool>, cl: Seq<bool>, u: int, w: int, v: int) -> int
    decreases 16 - v,
{
    if v < 0 || v >= 16 {
        0
    } else if row_avail(m, cl, u, w, v) {
        1 + run_h(m, cl, u, w, v + 1)
    } else {
        0
    }
}

/// Whether mask position `p` lies in the rectangle at `(u, v)` of extent
/// `w` x `h`.
pub open spec fn in_rect(p: int, u: int, v: int, w: int, h: int) -> bool {
    u <= p % 16 < u + w && v <= p / 16 < v + h
}

/// The claimed set with the given rectangle added.
pub open spec fn claim_rect(cl: Seq<bool>, u: int, v: int, w: int, h: int) -> Seq<bool> {
    Seq::new(256, |p: int| cl[p] || in_rect(p, u, v, w, h))
}

/// The claimed set before any quad is emitted.
pub open spec fn empty_claim() -> Seq<bool> {
    Seq::new(256, |p: int| false)
}

/// The claimed set after the scan has processed mask positions `[0, end)`.
pub open spec fn scan_claimed(m: Seq<bool>, end: int) -> Seq<bool>
    decreases end,
{
    if end <= 0 {
        empty_claim()
    } else {
        let p = end - 1;
        let cl = scan_claimed(m, p);
        if avail(m, cl, p) {
            let u = p % 16;
            let v = p / 16;
            let w = run_w(m, cl, u, v);
            claim_rect(cl, u, v, w, run_h(m, cl, u, w, v))
        } else {
            cl
        }
    }
}

/// The quads emitted by the scan over mask positions `[0, end)`, in emission
/// order.
pub open spec fn scan_quads(m: Seq<bool>, end: int) -> Seq<PlaneQuad>
    decreases end,
{
    if end <= 0 {
        Seq::empty()
    } else {
        let p = end - 1;
        let cl = scan_claimed(m, p);
        let qs = scan_quads(m, p);
        if avail(m, cl, p) {
            let u = p % 16;
            let v = p / 16;
            let w = run_w(m, cl, u, v);
            let h = run_h(m, cl, u, w, v);
            qs.push(PlaneQuad { u: u as usize, v: v as usize, w: w as usize, h: h as usize })
        } else {
            qs
        }
    }
}

/// Shape bounds every emitted plane quad satisfies.
pub open spec fn plane_quad_wf(q: PlaneQuad) -> bool {
    &&& 1 <= q.w
    &&& 1 <= q.h
    &&& q.u + q.w <= 16
    &&& q.v + q.h <= 16
}

/// Shape bounds every emitted chunk quad satisfies.
pub open spec fn quad_wf(q: Quad) -> bool {
    &&& q.dir < 6
    &&& 1 <= q.layer <= 16
    &&& 1 <= q.w
    &&& 1 <= q.h
    &&& q.u + q.w <= 16
    &&& q.v + q.h <= 16
}

/// Whether quad `q` covers the in-plane cell `(u, v)`.
pub open spec fn quad_covers(q: Quad, u: int, v: int) -> bool {
    q.u <= u < q.u + q.w && q.v <= v < q.v + q.h
}

/// A plane quad lifted to a chunk quad of direction `d`, layer `n`.
pub open spec fn quad3(pq: PlaneQuad, d: int, n: int) -> Quad {
    Quad { dir: d as usize, layer: n as usize, u: pq.u, v: pq.v, w: pq.w, h: pq.h }
}

/// The plane quads lifted to chunk quads of direction `d`, layer `n`.
pub open spec fn to_quads(pqs: Seq<PlaneQuad>, d: int, n: int) -> Seq<Quad>
    decreases pqs.len(),
{
    if pqs.len() == 0 {
        Seq::empty()
    } else {
        to_quads(pqs.drop_last(), d, n).push(quad3(pqs.last(), d, n))
    }
}

/// All quads of direction `d` in layer `n`.
pub open spec fn layer_quads(g: Seq<Block>, d: int, n: int) -> Seq<Quad> {
    to_quads(scan_quads(mask_seq(g, d, n), 256), d, n)
}

/// All quads of direction `d` over layers `[1, n_hi]`, in layer order.
pub open spec fn dir_quads(g: Seq<Block>, d: int, n_hi: int) -> Seq<Quad>
    decreases n_hi,
{
    if n_hi <= 0 {
        Seq::empty()
    } else {
        dir_quads(g, d, n_hi - 1) + layer_quads(g, d, n_hi)
    }
}

/// All quads of directions `[0, d_hi)`, in direction order.
pub open spec fn all_quads(g: Seq<Block>, d_hi: int) -> Seq<Quad>
    decreases d_hi,
{
    if d_hi <= 0 {
        Seq::empty()
    } else {
        all_quads(g, d_hi - 1) + dir_quads(g, d_hi - 1, 16)
    }
}

/// Every quad the mesher emits for grid `g`, in emission order.
pub open spec fn chunk_quads(g: Seq<Block>) -> Seq<Quad> {
    all_quads(g, 6)
}

/// In-plane offsets of the four corners of a `w` x `h` quad of direction
/// `d`, in the perimeter order that makes both emitted triangles
/// counter-clockwise seen from outside the face.
pub open spec fn corner_uv(d: int, j: int, w: int, h: int) -> (int, int) {
    if d % 2 == 1 {
        if j == 0 {
            (0, 0)
        } else if j == 1 {
            (w, 0)
        } else if j == 2 {
            (w, h)
        } else {
            (0, h)
        }
    } else {
        if j == 0 {
            (0, 0)
        } else if j == 1 {
            (0, h)
        } else if j == 2 {
            (w, h)
        } else {
            (w, 0)
        }
    }
}

/// Grid-lattice coordinates of corner `j` of quad `q`, before world
/// translation: the face lies on the quad's cells' outward boundary.
pub open spec fn corner_local(q: Quad, j: int) -> (int, int, int) {
    let a = q.dir % 3;
    let fa = q.layer + if q.dir >= 3 {
        1int
    } else {
        0
    };
    let (du, dv) = corner_uv(q.dir as int, j, q.w as int, q.h as int);
    let cu = q.u + 1 + du;
    let cv = q.v + 1 + dv;
    if a == 0 {
        (fa, cu, cv)
    } else if a == 1 {
        (cu, fa, cv)
    } else {
        (cu, cv, fa)
    }
}

/// The world-lattice vertex of corner `j` of quad `q` of the chunk at `pos`.
pub open spec fn corner_vert(q: Quad, j: int, pos: ChunkPos) -> Vertex {
    let (cx, cy, cz) = corner_local(q, j);
    Vertex {
        x: (cx + pos[0] * 16) as i32,
        y: (cy + pos[1] * 16) as i32,
        z: (cz + pos[2] * 16) as i32,
    }
}

/// The four vertices of one quad, in corner order.
pub open spec fn quad_verts(q: Quad, pos: ChunkPos) -> Seq<Vertex> {
    seq![
        corner_vert(q, 0, pos),
        corner_vert(q, 1, pos),
        corner_vert(q, 2, pos),
        corner_vert(q, 3, pos),
    ]
}

/// The vertices of a quad list: four per quad, in quad order.
pub open spec fn verts_of(qs: Seq<Quad>, pos: ChunkPos) -> Seq<Vertex>
    decreases qs.len(),
{
    if qs.len() == 0 {
        Seq::empty()
    } else {
        verts_of(qs.drop_last(), pos) + quad_verts(qs.last(), pos)
    }
}

/// The six indices of quad number `i`: two counter-clockwise triangles whose
/// index values continue from the running vertex count `4 * i`.
pub open spec fn quad_indxs(i: int) -> Seq<u16> {
    let b = 4 * i;
    seq![b as u16, (b + 1) as u16, (b + 2) as u16, b as u16, (b + 2) as u16, (b + 3) as u16]
}

/// The indices of `k` quads, in quad order.
pub open spec fn indxs_of(k: int) -> Seq<u16>
    decreases k,
{
    if k <= 0 {
        Seq::empty()
    } else {
        indxs_of(k - 1) + quad_indxs(k - 1)
    }
}

/// The whole vertex list of the chunk at `pos` with grid `g`.
pub open spec fn mesh_verts(g: Seq<Block>, pos: ChunkPos) -> Seq<Vertex> {
    verts_of(chunk_quads(g), pos)
}

/// The whole index list of the chunk with grid `g`.
pub open spec fn mesh_indxs(g: Seq<Block>) -> Seq<u16> {
    indxs_of(chunk_quads(g).len() as int)
}

/// `run_w` equals `w` exactly when cells `[u, u+w)` of the row are available
/// and the run is blocked right after them.
pub(crate) proof fn lemma_run_w_char(m: Seq<bool>, cl: Seq<bool>, u: int, v: int, w: int)
    requires
        0 <= u,
        0 <= v < 16,
        0 <= w,
        u + w <= 16,
        forall|p: int| v * 16 + u <= p < v * 16 + u + w ==> #[trigger] avail(m, cl, p),
        u + w == 16 || !avail(m, cl, v * 16 + u + w),
    ensures
        run_w(m, cl, u, v) == w,
    decreases w,
{
    if w == 0 {
        assert(u == 16 || !avail(m, cl, v * 16 + u));
    } else {
        assert(avail(m, cl, v * 16 + u));
        lemma_run_w_char(m, cl, u + 1, v, w - 1);
    }
}

/// `run_h` equals `h` exactly when rows `[v, v+h)` hold the full run and the
/// row after them does not.
pub(crate) proof fn lemma_run_h_char(m: Seq<bool>, cl: Seq<bool>, u: int, w: int, v: int, h: int)
    requires
        0 <= v,
        0 <= h,
        v + h <= 16,
        forall|vv: int| v <= vv < v + h ==> #[trigger] row_avail(m, cl, u, w, vv),
        v + h == 16 || !row_avail(m, cl, u, w, v + h),
    ensures
        run_h(m, cl, u, w, v) == h,
    decreases h,
{
    if h == 0 {
        assert(v == 16 || !row_avail(m, cl, u, w, v));
    } else {
        assert(row_avail(m, cl, u, w, v));
        lemma_run_h_char(m, cl, u, w, v + 1, h - 1);
    }
}

/// Build the visibility mask of direction `d`, layer `n`.
fn build_mask(chunk: &ChunkArray, d: usize, n: usize) -> (m: Vec<bool>)
    requires
        chunk@.len() == 5832,
        d < 6,
        1 <= n <= 16,
    ensures
        m@ == mask_seq(chunk@, d as int, n as int),
{
    let mut m: Vec<bool> = Vec::new();
    let mut v: usize = 0;
    while v < 16
        invariant
            chunk@.len() == 5832,
            d < 6,
            1 <= n <= 16,
            v <= 16,
            m@.len() == v * 16,
            forall|vv: int, uu: int|
                0 <= vv < v && 0 <= uu < 16 ==> m@[vv * 16 + uu] == #[trigger] mask_at(
                    chunk@,
                    d as int,
                    n as int,
                    uu,
                    vv,
                ),
        decreases 16 - v,
    {
        let mut u: usize = 0;
        while u < 16
            invariant
                chunk@.len() == 5832,
                d < 6,
                1 <= n <= 16,
                v < 16,
                u <= 16,
                m@.len() == v * 16 + u,
                forall|vv: int, uu: int|
                    0 <= vv < v && 0 <= uu < 16 ==> m@[vv * 16 + uu] == #[trigger] mask_at(
                        chunk@,
                        d as int,
                        n as int,
                        uu,
                        vv,
                    ),
                forall|uu: int|
                    0 <= uu < u ==> m@[v * 16 + uu] == #[trigger] mask_at(
                        chunk@,
                        d as int,
                        n as int,
                        uu,
                        v as int,
                    ),
            decreases 16 - u,
        {
            let a = d % 3;
            let (x, y, z) = if a == 0 {
                (n, u + 1, v + 1)
            } else if a == 1 {
                (u + 1, n, v + 1)
            } else {
                (u + 1, v + 1, n)
            };
            let n2 = if d >= 3 {
                n + 1
            } else {
                n - 1
            };
            let (x2, y2, z2) = if a == 0 {
                (n2, u + 1, v + 1)
            } else if a == 1 {
                (u + 1, n2, v + 1)
            } else {
                (u + 1, v + 1, n2)
            };
            let visible = chunk.solid(x, y, z) && !chunk.solid(x2, y2, z2);
            m.push(visible);
            u += 1;
        }
        v += 1;
    }
    proof {
        assert forall|p: int| 0 <= p < 256 implies m@[p] == mask_seq(chunk@, d as int, n as int)[p] by {
            let uu = p % 16;
            let vv = p / 16;
            assert(p == vv * 16 + uu) by (nonlinear_arith)
                requires uu == p % 16 && vv == p / 16 && 0 <= p < 256;
            assert(0 <= uu < 16 && 0 <= vv < 16) by (nonlinear_arith)
                requires uu == p % 16 && vv == p / 16 && 0 <= p < 256;
            assert(m@[vv * 16 + uu] == mask_at(chunk@, d as int, n as int, uu, vv));
        }
        assert(m@ =~= mask_seq(chunk@, d as int, n as int));
    }
    m
}

/// Whether cells `[u, u+w)` of row `v` are all visible and unclaimed.
fn row_ok(m: &Vec<bool>, cl: &Vec<bool>, u: usize, w: usize, v: usize) -> (r: bool)
    requires
        m@.len() == 256,
        cl@.len() == 256,
        u + w <= 16,
        v < 16,
    ensures
        r == row_avail(m@, cl@, u as int, w as int, v as int),
{
    let mut j: usize = 0;
    while j < w
        invariant
            m@.len() == 256,
            cl@.len() == 256,
            u + w <= 16,
            v < 16,
            j <= w,
            forall|p: int|
                v * 16 + u <= p < v * 16 + u + j ==> #[trigger] avail(m@, cl@, p),
        decreases w - j,
    {
        let idx = 16 * v + u + j;
        if !m[idx] || cl[idx] {
            assert(!avail(m@, cl@, v * 16 + u + j));
            return false;
        }
        j += 1;
    }
    true
}

/// Greedily merge one 16 x 16 mask into quads, in scan order.
fn merge_plane(m: &Vec<bool>) -> (qs: Vec<PlaneQuad>)
    requires
        m@.len() == 256,
    ensures
        qs@ == scan_quads(m@, 256),
{
    let mut qs: Vec<PlaneQuad> = Vec::new();
    let mut cl: Vec<bool> = Vec::new();
    let mut i: usize = 0;
    while i < 256
        invariant
            cl@.len() == i,
            i <= 256,
            forall|k: int| 0 <= k < i ==> !(#[trigger] cl@[k]),
        decreases 256 - i,
    {
        cl.push(false);
        i += 1;
    }
    proof {
        assert(cl@ =~= empty_claim());
    }
    let mut p: usize = 0;
    while p < 256
        invariant
            m@.len() == 256,
            cl@.len() == 256,
            p <= 256,
            cl@ == scan_claimed(m@, p as int),
            qs@ == scan_quads(m@, p as int),
        decreases 256 - p,
    {
        if m[p] && !cl[p] {
            let u = p % 16;
            let v = p / 16;
            proof {
                assert(p == v * 16 + u) by (nonlinear_arith)
                    requires u == p % 16 && v == p / 16 && 0 <= p < 256;
                assert(u < 16 && v < 16) by (nonlinear_arith)
                    requires u == p % 16 && v == p / 16 && 0 <= p < 256;
                assert(avail(m@, cl@, v as int * 16 + u as int));
            }
            // Grow the run rightward as far as it stays available.
            let mut w: usize = 1;
            while u + w < 16 && m[16 * v + u + w] && !cl[16 * v + u + w]
                invariant
                    m@.len() == 256,
                    cl@.len() == 256,
                    u < 16,
                    v < 16,
                    1 <= w,
                    u + w <= 16,
                    forall|q: int|
                        v * 16 + u <= q < v * 16 + u + w ==> #[trigger] avail(m@, cl@, q),
                decreases 16 - u - w,
            {
                w += 1;
            }
            proof {
                lemma_run_w_char(m@, cl@, u as int, v as int, w as int);
            }
            // Grow the rectangle downward while whole rows stay available.
            let mut h: usize = 1;
            while v + h < 16 && row_ok(m, &cl, u, w, v + h)
                invariant
                    m@.len() == 256,
                    cl@.len() == 256,
                    u < 16,
                    v < 16,
                    u + w <= 16,
                    1 <= w,
                    1 <= h,
                    v + h <= 16,
                    forall|q: int|
                        v * 16 + u <= q < v * 16 + u + w ==> #[trigger] avail(m@, cl@, q),
                    forall|vv: int|
                        v <= vv < v + h ==> #[trigger] row_avail(
                            m@,
                            cl@,
                            u as int,
                            w as int,
                            vv,
                        ),
                decreases 16 - v - h,
            {
                h += 1;
            }
            proof {
                lemma_run_h_char(m@, cl@, u as int, w as int, v as int, h as int);
            }
            qs.push(PlaneQuad { u, v, w, h });
            // Claim the rectangle.
            let ghost cl0 = cl@;
            let mut j: usize = 0;
            while j < 256
                invariant
                    cl0.len() == 256,
                    cl@.len() == 256,
                    j <= 256,
                    u < 16,
                    v < 16,
                    u + w <= 16,
                    v + h <= 16,
                    forall|k: int|
                        0 <= k < j ==> #[trigger] cl@[k] == (cl0[k] || in_rect(
                            k,
                            u as int,
                            v as int,
                            w as int,
                            h as int,
                        )),
                    forall|k: int| j <= k < 256 ==> #[trigger] cl@[k] == cl0[k],
                decreases 256 - j,
            {
                let ju = j % 16;
                let jv = j / 16;
                proof {
                    assert(ju == j as int % 16 && jv == j as int / 16);
                }
                let ghost prev = cl@;
                if u <= ju && ju < u + w && v <= jv && jv < v + h {
                    cl.set(j, true);
                    proof {
                        assert(in_rect(j as int, u as int, v as int, w as int, h as int));
                        assert(cl@ == prev.update(j as int, true));
                        assert(cl@[j as int] == (cl0[j as int] || in_rect(
                            j as int,
                            u as int,
                            v as int,
                            w as int,
                            h as int,
                        )));
                        assert(forall|k: int| 0 <= k < 256 && k != j ==> cl@[k] == prev[k]);
                    }
                } else {
                    proof {
                        assert(!in_rect(j as int, u as int, v as int, w as int, h as int));
                        assert(cl@[j as int] == (cl0[j as int] || in_rect(
                            j as int,
                            u as int,
                            v as int,
                            w as int,
                            h as int,
                        )));
                    }
                }
                j += 1;
            }
            proof {
                assert forall|k: int| 0 <= k < 256 implies cl@[k] == claim_rect(
                    cl0,
                    u as int,
                    v as int,
                    w as int,
                    h as int,
                )[k] by {
                    assert(cl@[k] == (cl0[k] || in_rect(k, u as int, v as int, w as int, h as int)));
                }
                assert(cl@ =~= claim_rect(cl0, u as int, v as int, w as int, h as int));
                assert(cl@ == scan_claimed(m@, p as int + 1));
                assert(qs@ == scan_quads(m@, p as int + 1));
            }
        }
        p += 1;
    }
    qs
}

/// The values of `indxs_of(k)` stay below the vertex count `4 * k`.
pub(crate) proof fn lemma_indxs_of_props(k: int)
    requires
        0 <= k,
        4 * k <= 65536,
    ensures
        indxs_of(k).len() == 6 * k,
        forall|j: int| 0 <= j < 6 * k ==> (#[trigger] indxs_of(k)[j]) < 4 * k,
    decreases k,
{
    if k > 0 {
        lemma_indxs_of_props(k - 1);
    }
}

/// Compute corner `j` of quad `q` of the chunk at `pos`.
fn corner(q: Quad, j: usize, pos: ChunkPos) -> (vt: Vertex)
    requires
        quad_wf(q),
        j < 4,
        pos_in_range(pos),
    ensures
        vt == corner_vert(q, j as int, pos),
{
    let a = q.dir % 3;
    let fa: usize = if q.dir >= 3 {
        q.layer + 1
    } else {
        q.layer
    };
    let (du, dv) = if q.dir % 2 == 1 {
        if j == 0 {
            (0, 0)
        } else if j == 1 {
            (q.w, 0)
        } else if j == 2 {
            (q.w, q.h)
        } else {
            (0, q.h)
        }
    } else {
        if j == 0 {
            (0, 0)
        } else if j == 1 {
            (0, q.h)
        } else if j == 2 {
            (q.w, q.h)
        } else {
            (q.w, 0)
        }
    };
    let cu = q.u + 1 + du;
    let cv = q.v + 1 + dv;
    let (lx, ly, lz) = if a == 0 {
        (fa, cu, cv)
    } else if a == 1 {
        (cu, fa, cv)
    } else {
        (cu, cv, fa)
    };
    Vertex {
        x: lx as i32 + pos[0] * 16,
        y: ly as i32 + pos[1] * 16,
        z: lz as i32 + pos[2] * 16,
    }
}

/// Mesh one chunk: greedy quads per direction and layer, packed into a flat
/// vertex/index mesh.  The result is a pure function of the grid and the
/// chunk position, and always fits the planned worst-case capacity.
pub fn mesh_chunk(chunk: &ChunkArray, pos: ChunkPos) -> (m: CPUMesh)
    requires
        chunk@.len() == 5832,
        pos_in_range(pos),
    ensures
        m.verts@ == mesh_verts(chunk@, pos),
        m.indxs@ == mesh_indxs(chunk@),
        m.wf(),
        m.verts@.len() <= crate::MAX_VERTS,
        m.indxs@.len() <= crate::MAX_INDXS,
{
    let ghost g = chunk@;
    let mut quads: Vec<Quad> = Vec::new();
    let mut d: usize = 0;
    while d < 6
        invariant
            chunk@ == g,
            chunk@.len() == 5832,
            d <= 6,
            quads@ == all_quads(g, d as int),
        decreases 6 - d,
    {
        let mut n: usize = 1;
        while n < 17
            invariant
                chunk@ == g,
                chunk@.len() == 5832,
                d < 6,
                1 <= n <= 17,
                quads@ == all_quads(g, d as int) + dir_quads(g, d as int, n as int - 1),
            decreases 17 - n,
        {
            let mask = build_mask(chunk, d, n);
            let pqs = merge_plane(&mask);
            proof {
                assert(pqs@ == scan_quads(mask_seq(g, d as int, n as int), 256));
            }
            let mut i: usize = 0;
            while i < pqs.len()
                invariant
                    d < 6,
                    1 <= n <= 17,
                    i <= pqs@.len(),
                    pqs@ == scan_quads(mask_seq(g, d as int, n as int), 256),
                    quads@ == all_quads(g, d as int) + dir_quads(g, d as int, n as int - 1)
                        + to_quads(pqs@.take(i as int), d as int, n as int),
                decreases pqs@.len() - i,
            {
                let pq = pqs[i];
                quads.push(Quad { dir: d, layer: n, u: pq.u, v: pq.v, w: pq.w, h: pq.h });
                proof {
                    let t1 = pqs@.take(i as int + 1);
                    assert(t1.drop_last() =~= pqs@.take(i as int));
                    assert(t1.last() == pqs@[i as int]);
                    assert(to_quads(t1, d as int, n as int) == to_quads(
                        pqs@.take(i as int),
                        d as int,
                        n as int,
                    ).push(quad3(pqs@[i as int], d as int, n as int)));
                }
                i += 1;
            }
            proof {
                assert(pqs@.take(pqs@.len() as int) =~= pqs@);
                assert(layer_quads(g, d as int, n as int) == to_quads(pqs@, d as int, n as int));
                assert(dir_quads(g, d as int, n as int) == dir_quads(g, d as int, n as int - 1)
                    + layer_quads(g, d as int, n as int));
                assert(quads@ =~= all_quads(g, d as int) + dir_quads(g, d as int, n as int));
            }
            n += 1;
        }
        proof {
            assert(all_quads(g, d as int + 1) == all_quads(g, d as int) + dir_quads(
                g,
                d as int,
                16,
            ));
        }
        d += 1;
    }
    proof {
        assert(quads@ == chunk_quads(g));
        crate::bounds::lemma_chunk_capacity(g);
    }
    let mut verts: Vec<Vertex> = Vec::new();
    let mut indxs: Vec<u16> = Vec::new();
    let mut i: usize = 0;
    while i < quads.len()
        invariant
            pos_in_range(pos),
            quads@ == chunk_quads(g),
            quads@.len() <= 12288,
            forall|k: int| 0 <= k < quads@.len() ==> quad_wf(#[trigger] quads@[k]),
            i <= quads@.len(),
            verts@ == verts_of(quads@.take(i as int), pos),
            verts@.len() == 4 * i,
            indxs@ == indxs_of(i as int),
        decreases quads@.len() - i,
    {
        let q = quads[i];
        let b: u16 = (4 * i) as u16;
        verts.push(corner(q, 0, pos));
        verts.push(corner(q, 1, pos));
        verts.push(corner(q, 2, pos));
        verts.push(corner(q, 3, pos));
        indxs.push(b);
        indxs.push(b + 1);
        indxs.push(b + 2);
        indxs.push(b);
        indxs.push(b + 2);
        indxs.push(b + 3);
        proof {
            let t1 = quads@.take(i as int + 1);
            assert(t1.drop_last() =~= quads@.take(i as int));
            assert(t1.last() == quads@[i as int]);
            assert(verts@ =~= verts_of(quads@.take(i as int), pos) + quad_verts(
                quads@[i as int],
                pos,
            ));
            assert(indxs@ =~= indxs_of(i as int) + quad_indxs(i as int));
        }
        i += 1;
    }
    proof {
        assert(quads@.take(quads@.len() as int) =~= quads@);
        lemma_indxs_of_props(quads@.len() as int);
    }
    CPUMesh { verts, indxs }
}

} // verus!
