//! The meshing laws: what the greedy mesher guarantees for whole classes of
//! grids, proved once and for all rather than sampled by tests.

use vstd::prelude::*;

use crate::ChunkPos;
use crate::block::Block;
use crate::bounds::lemma_chunk_capacity;
use crate::bounds::lemma_to_quads_props;
use crate::grid::in_grid;
use crate::grid::on_shell;
use crate::grid::solid_at;
use crate::mesher::PlaneQuad;
use crate::mesher::Quad;
use crate::mesher::all_quads;
use crate::mesher::avail;
use crate::mesher::chunk_quads;
use crate::mesher::claim_rect;
use crate::mesher::dir_quads;
use crate::mesher::empty_claim;
use crate::mesher::in_rect;
use crate::mesher::layer_quads;
use crate::mesher::lemma_indxs_of_props;
use crate::mesher::lemma_run_h_char;
use crate::mesher::lemma_run_w_char;
use crate::mesher::mask_at;
use crate::mesher::mask_seq;
use crate::mesher::mesh_indxs;
use crate::mesher::mesh_verts;
use crate::mesher::quad3;
use crate::mesher::quad_covers;
use crate::mesher::scan_claimed;
use crate::mesher::scan_quads;
use crate::mesher::to_quads;
use crate::mesher::verts_of;

verus! {

/// The vertex list holds exactly four vertices per quad.
pub proof fn lemma_verts_of_len(qs: Seq<Quad>, pos: ChunkPos)
    ensures
        verts_of(qs, pos).len() == 4 * qs.len(),
    decreases qs.len(),
{
    if qs.len() > 0 {
        lemma_verts_of_len(qs.drop_last(), pos);
    }
}

/// A mask with no visible cell emits no quad and claims nothing.
proof fn lemma_scan_empty_mask(m: Seq<bool>, end: int)
    requires
        m.len() == 256,
        0 <= end <= 256,
        forall|p: int| 0 <= p < 256 ==> !m[p],
    ensures
        scan_quads(m, end) == Seq::<PlaneQuad>::empty(),
        scan_claimed(m, end) == empty_claim(),
    decreases end,
{
    if end > 0 {
        lemma_scan_empty_mask(m, end - 1);
        assert(!avail(m, scan_claimed(m, end - 1), end - 1));
    }
}

/// A direction none of whose layers emits a quad contributes nothing.
proof fn lemma_dir_quads_empty(g: Seq<Block>, d: int, n_hi: int)
    requires
        0 <= n_hi <= 16,
        forall|n: int| 1 <= n <= 16 ==> (#[trigger] layer_quads(g, d, n)).len() == 0,
    ensures
        dir_quads(g, d, n_hi) == Seq::<Quad>::empty(),
    decreases n_hi,
{
    if n_hi > 0 {
        lemma_dir_quads_empty(g, d, n_hi - 1);
        assert(layer_quads(g, d, n_hi).len() == 0);
        assert(dir_quads(g, d, n_hi) =~= Seq::<Quad>::empty());
    }
}

/// A direction with exactly one emitting layer contributes that layer's
/// quads alone.
proof fn lemma_dir_quads_single(g: Seq<Block>, d: int, n0: int, n_hi: int)
    requires
        1 <= n0 <= 16,
        0 <= n_hi <= 16,
        forall|n: int|
            1 <= n <= 16 && n != n0 ==> (#[trigger] layer_quads(g, d, n)).len() == 0,
    ensures
        n_hi < n0 ==> dir_quads(g, d, n_hi) == Seq::<Quad>::empty(),
        n_hi >= n0 ==> dir_quads(g, d, n_hi) == layer_quads(g, d, n0),
    decreases n_hi,
{
    if n_hi > 0 {
        lemma_dir_quads_single(g, d, n0, n_hi - 1);
        if n_hi < n0 {
            assert(dir_quads(g, d, n_hi) =~= Seq::<Quad>::empty());
        } else if n_hi == n0 {
            assert(dir_quads(g, d, n_hi) =~= layer_quads(g, d, n0));
        } else {
            assert(dir_quads(g, d, n_hi) =~= layer_quads(g, d, n0));
        }
    }
}

/// For a grid filled entirely non-solid, the mesher emits no quad, no
/// vertex and no index.
pub proof fn lemma_empty_grid_mesh(g: Seq<Block>, pos: ChunkPos)
    requires
        g.len() == 5832,
        forall|x: int, y: int, z: int|
            in_grid(x, y, z) ==> !#[trigger] solid_at(g, x, y, z),
    ensures
        chunk_quads(g).len() == 0,
        mesh_verts(g, pos) == Seq::<crate::mesh::Vertex>::empty(),
        mesh_indxs(g) == Seq::<u16>::empty(),
{
    assert forall|d: int, n: int| 0 <= d < 6 && 1 <= n <= 16 implies (#[trigger] layer_quads(
        g,
        d,
        n,
    )).len() == 0 by {
        let m = mask_seq(g, d, n);
        assert forall|p: int| 0 <= p < 256 implies !m[p] by {
            let u = p % 16;
            let v = p / 16;
            assert(0 <= u < 16 && 0 <= v < 16) by (nonlinear_arith)
                requires u == p % 16 && v == p / 16 && 0 <= p < 256;
            assert(!mask_at(g, d, n, u, v));
        }
        lemma_scan_empty_mask(m, 256);
    }
    assert forall|d: int| 0 <= d < 6 implies #[trigger] dir_quads(g, d, 16)
        == Seq::<Quad>::empty() by {
        lemma_dir_quads_empty(g, d, 16);
    }
    assert(all_quads(g, 0).len() == 0);
    assert(all_quads(g, 1).len() == 0);
    assert(all_quads(g, 2).len() == 0);
    assert(all_quads(g, 3).len() == 0);
    assert(all_quads(g, 4).len() == 0);
    assert(all_quads(g, 5).len() == 0);
    assert(all_quads(g, 6).len() == 0);
    assert(chunk_quads(g) =~= Seq::<Quad>::empty());
    lemma_verts_of_len(chunk_quads(g), pos);
    assert(mesh_verts(g, pos) =~= Seq::<crate::mesh::Vertex>::empty());
    assert(mesh_indxs(g) =~= Seq::<u16>::empty());
}

/// The store and mesher contracts compose: a chunk filled by a generator
/// that can only return non-solid cells meshes to nothing.
pub proof fn lemma_generated_empty_mesh<F: Fn(ChunkPos, ChunkPos) -> Block>(
    g: Seq<Block>,
    func: F,
    pos: ChunkPos,
)
    requires
        crate::store::chunk_generated(g, func, pos),
        forall|l: ChunkPos, w: ChunkPos, b: Block| #[trigger] call_ensures(func, (l, w), b)
            ==> !b.solid,
    ensures
        chunk_quads(g).len() == 0,
        mesh_verts(g, pos) == Seq::<crate::mesh::Vertex>::empty(),
        mesh_indxs(g) == Seq::<u16>::empty(),
{
    assert forall|x: int, y: int, z: int| in_grid(x, y, z) implies !#[trigger] solid_at(
        g,
        x,
        y,
        z,
    ) by {
        assert(crate::store::cell_ok(g, func, pos, x, y, z));
    }
    lemma_empty_grid_mesh(g, pos);
}

/// Greedy merging on a mask that is visible exactly on one rectangle emits
/// exactly one quad: that whole rectangle.
proof fn lemma_scan_rect_upto(m: Seq<bool>, u0: int, v0: int, w0: int, h0: int, end: int)
    requires
        m.len() == 256,
        0 <= u0,
        0 <= v0,
        1 <= w0,
        1 <= h0,
        u0 + w0 <= 16,
        v0 + h0 <= 16,
        forall|p: int| 0 <= p < 256 ==> m[p] == in_rect(p, u0, v0, w0, h0),
        0 <= end <= 256,
    ensures
        end <= v0 * 16 + u0 ==> scan_quads(m, end) == Seq::<PlaneQuad>::empty() && scan_claimed(
            m,
            end,
        ) == empty_claim(),
        end > v0 * 16 + u0 ==> scan_quads(m, end) == seq![
            PlaneQuad { u: u0 as usize, v: v0 as usize, w: w0 as usize, h: h0 as usize },
        ] && scan_claimed(m, end) == claim_rect(empty_claim(), u0, v0, w0, h0),
    decreases end,
{
    if end == 0 {
        return;
    }
    let p = end - 1;
    lemma_scan_rect_upto(m, u0, v0, w0, h0, p);
    let p0 = v0 * 16 + u0;
    if end <= p0 {
        // Before the rectangle's first cell nothing is visible: a visible
        // cell at `p` would satisfy `p >= p0`.
        assert(!m[p]) by {
            let pu = p % 16;
            let pv = p / 16;
            assert(p == pv * 16 + pu && 0 <= pu < 16 && 0 <= pv) by (nonlinear_arith)
                requires pu == p % 16 && pv == p / 16 && 0 <= p < 256;
            if in_rect(p, u0, v0, w0, h0) {
                assert(pu >= u0 && pv >= v0);
                assert(p >= p0);
                assert(false);
            }
        }
        assert(!avail(m, scan_claimed(m, p), p));
    } else if end == p0 + 1 {
        let cl = scan_claimed(m, p);
        assert(cl == empty_claim());
        assert(p0 % 16 == u0 && p0 / 16 == v0) by (nonlinear_arith)
            requires 0 <= u0 < 16 && 0 <= v0 < 16 && p0 == v0 * 16 + u0;
        assert(m[p0] == in_rect(p0, u0, v0, w0, h0));
        assert(in_rect(p0, u0, v0, w0, h0));
        assert(avail(m, cl, p0));
        // The run rightward covers exactly the rectangle's width.
        assert forall|q: int| v0 * 16 + u0 <= q < v0 * 16 + u0 + w0 implies #[trigger] avail(
            m,
            cl,
            q,
        ) by {
            assert(q % 16 == q - v0 * 16 && q / 16 == v0) by (nonlinear_arith)
                requires v0 * 16 <= q < v0 * 16 + 16 && 0 <= v0 < 16;
            assert(in_rect(q, u0, v0, w0, h0));
        }
        if u0 + w0 < 16 {
            let r = v0 * 16 + u0 + w0;
            assert(r % 16 == u0 + w0 && r / 16 == v0) by (nonlinear_arith)
                requires 0 <= u0 + w0 < 16 && 0 <= v0 < 16 && r == v0 * 16 + u0 + w0;
            assert(!in_rect(r, u0, v0, w0, h0));
            assert(!avail(m, cl, r));
        }
        lemma_run_w_char(m, cl, u0, v0, w0);
        // Full rows of the rectangle are available, the row after is not.
        assert forall|vv: int| v0 <= vv < v0 + h0 implies #[trigger] crate::mesher::row_avail(
            m,
            cl,
            u0,
            w0,
            vv,
        ) by {
            assert forall|q: int| vv * 16 + u0 <= q < vv * 16 + u0 + w0 implies #[trigger] avail(
                m,
                cl,
                q,
            ) by {
                assert(q % 16 == q - vv * 16 && q / 16 == vv) by (nonlinear_arith)
                    requires vv * 16 <= q < vv * 16 + 16 && 0 <= vv < 16;
                assert(in_rect(q, u0, v0, w0, h0));
            }
        }
        if v0 + h0 < 16 {
            let rr = (v0 + h0) * 16 + u0;
            assert(rr % 16 == u0 && rr / 16 == v0 + h0) by (nonlinear_arith)
                requires 0 <= u0 < 16 && 0 <= v0 + h0 < 16 && rr == (v0 + h0) * 16 + u0;
            assert(!in_rect(rr, u0, v0, w0, h0));
            assert(!avail(m, cl, rr));
            assert(!crate::mesher::row_avail(m, cl, u0, w0, v0 + h0));
        }
        lemma_run_h_char(m, cl, u0, w0, v0, h0);
        assert(scan_quads(m, end) =~= seq![
            PlaneQuad { u: u0 as usize, v: v0 as usize, w: w0 as usize, h: h0 as usize },
        ]);
    } else {
        // After the quad is claimed, every visible cell is claimed: the
        // scan finds nothing more.
        let cl = scan_claimed(m, p);
        assert(cl == claim_rect(empty_claim(), u0, v0, w0, h0));
        assert(cl[p] == (empty_claim()[p] || in_rect(p, u0, v0, w0, h0)));
        assert(!avail(m, cl, p));
    }
}

/// One rectangle of visible cells becomes exactly one quad covering it.
pub proof fn lemma_scan_rect(m: Seq<bool>, u0: int, v0: int, w0: int, h0: int)
    requires
        m.len() == 256,
        0 <= u0,
        0 <= v0,
        1 <= w0,
        1 <= h0,
        u0 + w0 <= 16,
        v0 + h0 <= 16,
        forall|p: int| 0 <= p < 256 ==> m[p] == in_rect(p, u0, v0, w0, h0),
    ensures
        scan_quads(m, 256) == seq![
            PlaneQuad { u: u0 as usize, v: v0 as usize, w: w0 as usize, h: h0 as usize },
        ],
{
    lemma_scan_rect_upto(m, u0, v0, w0, h0, 256);
}

/// The in-plane coordinates of an interior cell, seen from direction `d`.
spec fn plane_coords(d: int, x: int, y: int, z: int) -> (int, int, int) {
    let a = d % 3;
    if a == 0 {
        (x, y - 1, z - 1)
    } else if a == 1 {
        (y, x - 1, z - 1)
    } else {
        (z, x - 1, y - 1)
    }
}

/// For a grid with exactly one solid interior cell, each direction's mask is
/// visible exactly at that cell, so each direction emits exactly one unit
/// quad.
proof fn lemma_single_cell_dir(g: Seq<Block>, d: int, cx: int, cy: int, cz: int)
    requires
        g.len() == 5832,
        in_grid(cx, cy, cz),
        !on_shell(cx, cy, cz),
        forall|x: int, y: int, z: int|
            in_grid(x, y, z) ==> (#[trigger] solid_at(g, x, y, z) <==> (x == cx && y == cy && z
                == cz)),
        0 <= d < 6,
    ensures
        dir_quads(g, d, 16).len() == 1,
{
    let (ca, cu, cv) = plane_coords(d, cx, cy, cz);
    assert(1 <= ca <= 16 && 0 <= cu < 16 && 0 <= cv < 16);
    assert forall|n: int, u: int, v: int|
        1 <= n <= 16 && 0 <= u < 16 && 0 <= v < 16 implies (#[trigger] mask_at(g, d, n, u, v)
        <==> (n == ca && u == cu && v == cv)) by {
        let (x, y, z) = crate::mesher::cell_of(d % 3, n, u, v);
        let (nx, ny, nz) = crate::mesher::neighbor_of(d, n, u, v);
        assert(in_grid(x, y, z));
        assert(in_grid(nx, ny, nz));
        if x == cx && y == cy && z == cz {
            // The neighbour differs from the solid cell along the axis.
            assert(!(nx == cx && ny == cy && nz == cz));
        }
    }
    assert forall|n: int| 1 <= n <= 16 && n != ca implies (#[trigger] layer_quads(g, d, n)).len()
        == 0 by {
        let m = mask_seq(g, d, n);
        assert forall|p: int| 0 <= p < 256 implies !m[p] by {
            let u = p % 16;
            let v = p / 16;
            assert(0 <= u < 16 && 0 <= v < 16) by (nonlinear_arith)
                requires u == p % 16 && v == p / 16 && 0 <= p < 256;
            assert(!mask_at(g, d, n, u, v));
        }
        lemma_scan_empty_mask(m, 256);
    }
    let m0 = mask_seq(g, d, ca);
    assert forall|p: int| 0 <= p < 256 implies m0[p] == in_rect(p, cu, cv, 1, 1) by {
        let u = p % 16;
        let v = p / 16;
        assert(0 <= u < 16 && 0 <= v < 16) by (nonlinear_arith)
            requires u == p % 16 && v == p / 16 && 0 <= p < 256;
        assert(m0[p] == mask_at(g, d, ca, u, v));
        assert(in_rect(p, cu, cv, 1, 1) == (u == cu && v == cv));
    }
    lemma_scan_rect(m0, cu, cv, 1, 1);
    lemma_to_quads_props(scan_quads(m0, 256), d, ca);
    assert(layer_quads(g, d, ca).len() == 1);
    lemma_dir_quads_single(g, d, ca, 16);
}

/// For a grid with exactly one solid interior cell, the mesh holds exactly
/// six unit quads — 24 vertices and 36 indices, one face per direction.
pub proof fn lemma_single_cell_mesh(g: Seq<Block>, pos: ChunkPos, cx: int, cy: int, cz: int)
    requires
        g.len() == 5832,
        in_grid(cx, cy, cz),
        !on_shell(cx, cy, cz),
        forall|x: int, y: int, z: int|
            in_grid(x, y, z) ==> (#[trigger] solid_at(g, x, y, z) <==> (x == cx && y == cy && z
                == cz)),
    ensures
        chunk_quads(g).len() == 6,
        forall|d: int| 0 <= d < 6 ==> (#[trigger] dir_quads(g, d, 16)).len() == 1,
        mesh_verts(g, pos).len() == 24,
        mesh_indxs(g).len() == 36,
{
    assert forall|d: int| 0 <= d < 6 implies (#[trigger] dir_quads(g, d, 16)).len() == 1 by {
        lemma_single_cell_dir(g, d, cx, cy, cz);
    }
    assert(all_quads(g, 0).len() == 0);
    assert(all_quads(g, 1).len() == 1);
    assert(all_quads(g, 2).len() == 2);
    assert(all_quads(g, 3).len() == 3);
    assert(all_quads(g, 4).len() == 4);
    assert(all_quads(g, 5).len() == 5);
    assert(all_quads(g, 6).len() == 6);
    lemma_verts_of_len(chunk_quads(g), pos);
    lemma_indxs_of_props(6);
}

/// Greedy merging idempotence: a uniform solid single-layer slab of extent
/// `nx` x `nz` is meshed, for its upward direction, as exactly one quad
/// covering the whole slab — not as `nx * nz` unit quads.
pub proof fn lemma_uniform_slab_one_quad(g: Seq<Block>, ly: int, nx: int, nz: int)
    requires
        g.len() == 5832,
        1 <= ly <= 16,
        1 <= nx <= 16,
        1 <= nz <= 16,
        forall|x: int, y: int, z: int|
            in_grid(x, y, z) ==> (#[trigger] solid_at(g, x, y, z) <==> (1 <= x <= nx && y == ly
                && 1 <= z <= nz)),
    ensures
        layer_quads(g, 4, ly) == seq![
            quad3(
                PlaneQuad { u: 0, v: 0, w: nx as usize, h: nz as usize },
                4,
                ly,
            ),
        ],
{
    let m = mask_seq(g, 4, ly);
    assert forall|p: int| 0 <= p < 256 implies m[p] == in_rect(p, 0, 0, nx, nz) by {
        let u = p % 16;
        let v = p / 16;
        assert(0 <= u < 16 && 0 <= v < 16) by (nonlinear_arith)
            requires u == p % 16 && v == p / 16 && 0 <= p < 256;
        assert(m[p] == mask_at(g, 4, ly, u, v));
        let (x, y, z) = crate::mesher::cell_of(1, ly, u, v);
        let (nbx, nby, nbz) = crate::mesher::neighbor_of(4, ly, u, v);
        assert(in_grid(x, y, z));
        assert(in_grid(nbx, nby, nbz));
        assert(nby == ly + 1);
    }
    lemma_scan_rect(m, 0, 0, nx, nz);
    let pqs = scan_quads(m, 256);
    lemma_to_quads_props(pqs, 4, ly);
    assert(layer_quads(g, 4, ly) =~= seq![
        quad3(PlaneQuad { u: 0, v: 0, w: nx as usize, h: nz as usize }, 4, ly),
    ]);
}

/// Soundness of the merge: within one direction and layer, the emitted
/// quads tile the visible faces exactly — every covered cell is a visible
/// face, no two quads overlap, and every visible face is covered by a quad.
pub proof fn lemma_layer_quads_cover(g: Seq<Block>, d: int, n: int)
    requires
        0 <= d < 6,
        1 <= n <= 16,
    ensures
        ({
            let qs = layer_quads(g, d, n);
            &&& forall|i: int, u: int, v: int|
                0 <= i < qs.len() && 0 <= u < 16 && 0 <= v < 16 && #[trigger] quad_covers(
                    qs[i],
                    u,
                    v,
                ) ==> mask_at(g, d, n, u, v)
            &&& forall|i: int, j: int, u: int, v: int|
                0 <= i < j < qs.len() && 0 <= u < 16 && 0 <= v < 16 ==> !(#[trigger] quad_covers(
                    qs[i],
                    u,
                    v,
                ) && #[trigger] quad_covers(qs[j], u, v))
            &&& forall|u: int, v: int|
                0 <= u < 16 && 0 <= v < 16 && #[trigger] mask_at(g, d, n, u, v) ==> exists|i: int|
                    0 <= i < qs.len() && #[trigger] quad_covers(qs[i], u, v)
        }),
{
    let m = mask_seq(g, d, n);
    let pqs = scan_quads(m, 256);
    let qs = layer_quads(g, d, n);
    crate::bounds::lemma_scan_cover(m, 256);
    lemma_to_quads_props(pqs, d, n);
    // A chunk quad covers (u, v) exactly when its plane quad holds the mask
    // position v * 16 + u.
    assert forall|i: int, u: int, v: int|
        0 <= i < qs.len() && 0 <= u < 16 && 0 <= v < 16 implies (#[trigger] quad_covers(
        qs[i],
        u,
        v,
    ) == crate::bounds::in_quad(pqs[i], v * 16 + u)) by {
        let p = v * 16 + u;
        assert(p % 16 == u && p / 16 == v) by (nonlinear_arith)
            requires 0 <= u < 16 && 0 <= v < 16 && p == v * 16 + u;
        assert(qs[i] == quad3(pqs[i], d, n));
    }
    assert forall|u: int, v: int| 0 <= u < 16 && 0 <= v < 16 implies (#[trigger] mask_at(
        g,
        d,
        n,
        u,
        v,
    ) == m[v * 16 + u]) by {
        let p = v * 16 + u;
        assert(p % 16 == u && p / 16 == v) by (nonlinear_arith)
            requires 0 <= u < 16 && 0 <= v < 16 && p == v * 16 + u;
    }
    assert forall|u: int, v: int|
        0 <= u < 16 && 0 <= v < 16 && #[trigger] mask_at(g, d, n, u, v) implies exists|i: int|
        0 <= i < qs.len() && #[trigger] quad_covers(qs[i], u, v) by {
        let p = v * 16 + u;
        assert(scan_claimed(m, 256)[p]);
        let i0 = choose|i: int|
            0 <= i < pqs.len() && #[trigger] crate::bounds::in_quad(pqs[i], p);
        assert(quad_covers(qs[i0], u, v));
    }
}

/// Capacity invariant: no achievable voxel configuration exceeds the
/// documented worst case of `MAX_QUADS` quads, `MAX_VERTS` vertices and
/// `MAX_INDXS` indices per chunk mesh.
pub proof fn lemma_mesh_capacity(g: Seq<Block>, pos: ChunkPos)
    ensures
        chunk_quads(g).len() <= crate::MAX_QUADS,
        mesh_verts(g, pos).len() <= crate::MAX_VERTS,
        mesh_indxs(g).len() <= crate::MAX_INDXS,
{
    lemma_chunk_capacity(g);
    lemma_verts_of_len(chunk_quads(g), pos);
    lemma_indxs_of_props(chunk_quads(g).len() as int);
}

/// Determinism: the mesh is a pure function of the cells and the chunk
/// position, so byte-identical voxel grids produce byte-identical vertex and
/// index sequences.
pub proof fn lemma_mesh_deterministic(g1: Seq<Block>, g2: Seq<Block>, pos: ChunkPos)
    requires
        g1 == g2,
    ensures
        mesh_verts(g1, pos) == mesh_verts(g2, pos),
        mesh_indxs(g1) == mesh_indxs(g2),
{
}

} // verus!
