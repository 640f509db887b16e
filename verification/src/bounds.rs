//! The capacity bound of the greedy mesher.
//!
//! Within one scan row a quad's claimed cells are followed by a cell that is
//! invisible or already claimed, so the starts of two quads of the same row
//! are at least two cells apart: a 16-cell row starts at most 8 quads, a
//! plane at most 128, and a chunk at most `6 * 16 * 128 = 12288` — the
//! documented worst case, reached by a checkerboard grid.

use vstd::prelude::*;

use crate::block::Block;
use crate::mesher::PlaneQuad;
use crate::mesher::Quad;
use crate::mesher::avail;
use crate::mesher::all_quads;
use crate::mesher::chunk_quads;
use crate::mesher::claim_rect;
use crate::mesher::dir_quads;
use crate::mesher::in_rect;
use crate::mesher::layer_quads;
use crate::mesher::mask_seq;
use crate::mesher::plane_quad_wf;
use crate::mesher::quad3;
use crate::mesher::quad_wf;
use crate::mesher::row_avail;
use crate::mesher::run_h;
use crate::mesher::run_w;
use crate::mesher::scan_claimed;
use crate::mesher::scan_quads;
use crate::mesher::to_quads;

verus! {

/// The mask position at which a plane quad was started.
spec fn start_of(q: PlaneQuad) -> int {
    q.v * 16 + q.u
}

/// Whether mask position `p` lies in the rectangle claimed by quad `q`.
pub open spec fn in_quad(q: PlaneQuad, p: int) -> bool {
    in_rect(p, q.u as int, q.v as int, q.w as int, q.h as int)
}

/// Whether the cell just right of quad `q` can start no further quad: it is
/// either off the plane, invisible, or claimed.
spec fn blocked_right(m: Seq<bool>, cl: Seq<bool>, q: PlaneQuad) -> bool {
    q.u + q.w == 16 || !avail(m, cl, q.v * 16 + q.u + q.w)
}

/// How many of the quads start in row `v`.
spec fn count_row(qs: Seq<PlaneQuad>, v: int) -> int
    decreases qs.len(),
{
    if qs.len() == 0 {
        0
    } else {
        count_row(qs.drop_last(), v) + if qs.last().v == v {
            1int
        } else {
            0
        }
    }
}

/// The index of the last quad that starts in row `v`.
spec fn last_in_row(qs: Seq<PlaneQuad>, v: int) -> int
    decreases qs.len(),
{
    if qs.len() == 0 {
        -1
    } else if qs.last().v == v {
        qs.len() - 1
    } else {
        last_in_row(qs.drop_last(), v)
    }
}

/// Row start counts summed over rows `[0, v_hi)`.
spec fn sum_rows(qs: Seq<PlaneQuad>, v_hi: int) -> int
    decreases v_hi,
{
    if v_hi <= 0 {
        0
    } else {
        sum_rows(qs, v_hi - 1) + count_row(qs, v_hi - 1)
    }
}

proof fn lemma_take_push<A>(s: Seq<A>, x: A, i: int)
    requires
        0 <= i <= s.len(),
    ensures
        s.push(x).take(i) == s.take(i),
{
    assert(s.push(x).take(i) =~= s.take(i));
}

proof fn lemma_scan_claimed_len(m: Seq<bool>, end: int)
    requires
        0 <= end,
    ensures
        scan_claimed(m, end).len() == 256,
    decreases end,
{
    if end > 0 {
        lemma_scan_claimed_len(m, end - 1);
    }
}

/// `run_w` is a non-negative run of available cells that is blocked on its
/// right, as long as it starts inside the plane.
proof fn lemma_run_w_props(m: Seq<bool>, cl: Seq<bool>, u: int, v: int)
    requires
        0 <= u <= 16,
        0 <= v < 16,
    ensures
        0 <= run_w(m, cl, u, v) <= 16 - u,
        forall|p: int|
            v * 16 + u <= p < v * 16 + u + run_w(m, cl, u, v) ==> #[trigger] avail(m, cl, p),
        u + run_w(m, cl, u, v) == 16 || !avail(m, cl, v * 16 + u + run_w(m, cl, u, v)),
    decreases 16 - u,
{
    if u < 16 && avail(m, cl, v * 16 + u) {
        lemma_run_w_props(m, cl, u + 1, v);
    }
}

/// `run_h` is a non-negative run of fully available rows that is blocked on
/// the row after it, as long as it starts inside the plane.
proof fn lemma_run_h_props(m: Seq<bool>, cl: Seq<bool>, u: int, w: int, v: int)
    requires
        0 <= v <= 16,
    ensures
        0 <= run_h(m, cl, u, w, v) <= 16 - v,
        forall|vv: int|
            v <= vv < v + run_h(m, cl, u, w, v) ==> #[trigger] row_avail(m, cl, u, w, vv),
        v + run_h(m, cl, u, w, v) == 16 || !row_avail(m, cl, u, w, v + run_h(m, cl, u, w, v)),
    decreases 16 - v,
{
    if v < 16 && row_avail(m, cl, u, w, v) {
        lemma_run_h_props(m, cl, u, w, v + 1);
    }
}

/// Everything the later counting needs about a partial scan: emitted quads
/// are well-shaped, started in scan order before `end`, have all their cells
/// claimed, are blocked on their right, and each starts at least two cells
/// after the previous start in its row.
proof fn lemma_scan_props(m: Seq<bool>, end: int)
    requires
        m.len() == 256,
        0 <= end <= 256,
    ensures
        ({
            let qs = scan_quads(m, end);
            let cl = scan_claimed(m, end);
            &&& forall|i: int|
                0 <= i < qs.len() ==> plane_quad_wf(#[trigger] qs[i]) && start_of(qs[i]) < end
            &&& forall|i: int, j: int|
                0 <= i < j < qs.len() ==> start_of(#[trigger] qs[i]) < start_of(#[trigger] qs[j])
            &&& forall|i: int, p: int|
                0 <= i < qs.len() && 0 <= p < 256 && #[trigger] in_quad(qs[i], p) ==> cl[p]
            &&& forall|i: int| 0 <= i < qs.len() ==> blocked_right(m, cl, #[trigger] qs[i])
            &&& forall|i: int|
                0 <= i < qs.len() ==> (#[trigger] qs[i]).u >= 2 * count_row(
                    qs.take(i),
                    qs[i].v as int,
                )
        }),
    decreases end,
{
    if end <= 0 {
        return;
    }
    let p = end - 1;
    lemma_scan_props(m, p);
    lemma_scan_claimed_len(m, p);
    let qs0 = scan_quads(m, p);
    let cl0 = scan_claimed(m, p);
    let qs = scan_quads(m, end);
    let cl = scan_claimed(m, end);
    if !avail(m, cl0, p) {
        assert(qs == qs0 && cl == cl0);
        assert forall|i: int| 0 <= i < qs.len() implies (#[trigger] qs[i]).u >= 2 * count_row(
            qs.take(i),
            qs[i].v as int,
        ) by {
            assert(qs.take(i) == qs0.take(i));
        }
        return;
    }
    let u = p % 16;
    let v = p / 16;
    assert(p == v * 16 + u && 0 <= u < 16 && 0 <= v < 16) by (nonlinear_arith)
        requires u == p % 16 && v == p / 16 && 0 <= p < 256;
    let w = run_w(m, cl0, u, v);
    let h = run_h(m, cl0, u, w, v);
    lemma_run_w_props(m, cl0, u, v);
    lemma_run_h_props(m, cl0, u, w, v);
    assert(w >= 1);
    assert(row_avail(m, cl0, u, w, v));
    assert(h >= 1);
    let q = PlaneQuad { u: u as usize, v: v as usize, w: w as usize, h: h as usize };
    assert(qs == qs0.push(q));
    assert(cl == claim_rect(cl0, u, v, w, h));
    let len0 = qs0.len() as int;
    assert(qs[len0] == q);
    assert(forall|i: int| 0 <= i < len0 ==> qs[i] == qs0[i]);

    // Claims only grow, so claimed-cell and blocked facts persist.
    assert forall|p2: int| 0 <= p2 < 256 && cl0[p2] implies cl[p2] by {}
    assert forall|i: int, p2: int|
        0 <= i < qs.len() && 0 <= p2 < 256 && #[trigger] in_quad(qs[i], p2) implies cl[p2] by {
        if i < len0 {
            assert(in_quad(qs0[i], p2));
        }
    }
    assert forall|i: int| 0 <= i < qs.len() implies blocked_right(m, cl, #[trigger] qs[i]) by {
        if i < len0 {
            assert(blocked_right(m, cl0, qs0[i]));
            if qs0[i].u + qs0[i].w != 16 {
                let r = qs0[i].v * 16 + qs0[i].u + qs0[i].w;
                if 0 <= r < 256 {
                    assert(!avail(m, cl0, r));
                    assert(cl[r] == (cl0[r] || in_rect(r, u, v, w, h)));
                    assert(!avail(m, cl, r));
                }
            }
        } else {
            // The new quad: its run stopped at 16 or at an unavailable cell,
            // and claiming cannot make a cell available again.
            if u + w != 16 {
                let r = v * 16 + u + w;
                assert(0 <= r < 256);
                assert(!avail(m, cl0, r));
                assert(!avail(m, cl, r));
            }
        }
    }

    // The gap invariant for the new quad.
    assert forall|i: int| 0 <= i < qs.len() implies (#[trigger] qs[i]).u >= 2 * count_row(
        qs.take(i),
        qs[i].v as int,
    ) by {
        if i < len0 {
            lemma_take_push(qs0, q, i);
            assert(qs0[i].u >= 2 * count_row(qs0.take(i), qs0[i].v as int));
        } else {
            lemma_take_push(qs0, q, len0);
            assert(qs.take(len0) =~= qs0);
            let c = count_row(qs0, v);
            lemma_count_row_nonneg(qs0, v);
            if c >= 1 {
                lemma_last_in_row(qs0, v);
                let i0 = last_in_row(qs0, v);
                let q1 = qs0[i0];
                assert(q1.v == v);
                assert(plane_quad_wf(q1));
                assert(q1.u >= 2 * count_row(qs0.take(i0), q1.v as int));
                assert(count_row(qs0.take(i0), v) == c - 1);
                // The scan passed q1's start before reaching p.
                assert(start_of(q1) < p);
                assert(q1.u < u);
                // p itself is available, so it is not inside q1's rectangle
                // and not the blocked cell on q1's right.
                if q1.u as int <= u < q1.u + q1.w {
                    assert(in_quad(q1, p)) by {
                        assert(p % 16 == u && p / 16 == v) by (nonlinear_arith)
                            requires p == v * 16 + u && 0 <= u < 16 && 0 <= v < 16;
                    }
                    assert(in_quad(qs0[i0], p));
                    assert(cl0[p]);
                    assert(false);
                }
                if u == q1.u + q1.w {
                    assert(blocked_right(m, cl0, qs0[i0]));
                    assert(q1.u + q1.w != 16);
                    assert(!avail(m, cl0, q1.v * 16 + q1.u + q1.w));
                    assert(q1.v * 16 + q1.u + q1.w == p);
                    assert(false);
                }
                assert(u >= q1.u + q1.w + 1);
                assert(u >= 2 * c);
            }
        }
    }

    // Scan order of starts.
    assert forall|i: int, j: int| 0 <= i < j < qs.len() implies start_of(#[trigger] qs[i])
        < start_of(#[trigger] qs[j]) by {
        if j < len0 {
            assert(start_of(qs0[i]) < start_of(qs0[j]));
        } else {
            assert(start_of(qs0[i]) < p);
        }
    }
}

/// The scan's quads tile the visible cells exactly: every cell of a quad is
/// visible, no two quads overlap, every visible cell among the processed
/// positions is claimed, and every claimed cell belongs to a quad.
pub(crate) proof fn lemma_scan_cover(m: Seq<bool>, end: int)
    requires
        m.len() == 256,
        0 <= end <= 256,
    ensures
        ({
            let qs = scan_quads(m, end);
            let cl = scan_claimed(m, end);
            &&& forall|i: int, p: int|
                0 <= i < qs.len() && 0 <= p < 256 && #[trigger] in_quad(qs[i], p) ==> m[p]
            &&& forall|i: int, j: int, p: int|
                0 <= i < j < qs.len() && 0 <= p < 256 ==> !(#[trigger] in_quad(qs[i], p)
                    && #[trigger] in_quad(qs[j], p))
            &&& forall|p: int| 0 <= p < end && m[p] ==> #[trigger] cl[p]
            &&& forall|p: int|
                0 <= p < 256 && #[trigger] cl[p] ==> exists|i: int|
                    0 <= i < qs.len() && #[trigger] in_quad(qs[i], p)
        }),
    decreases end,
{
    if end <= 0 {
        lemma_scan_claimed_len(m, end);
        return;
    }
    let p = end - 1;
    lemma_scan_cover(m, p);
    lemma_scan_props(m, p);
    lemma_scan_claimed_len(m, p);
    let qs0 = scan_quads(m, p);
    let cl0 = scan_claimed(m, p);
    let qs = scan_quads(m, end);
    let cl = scan_claimed(m, end);
    if !avail(m, cl0, p) {
        assert(qs == qs0 && cl == cl0);
        assert forall|p2: int| 0 <= p2 < end && m[p2] implies #[trigger] cl[p2] by {
            if p2 == p {
                assert(!avail(m, cl0, p));
            }
        }
        return;
    }
    let u = p % 16;
    let v = p / 16;
    assert(p == v * 16 + u && 0 <= u < 16 && 0 <= v < 16) by (nonlinear_arith)
        requires u == p % 16 && v == p / 16 && 0 <= p < 256;
    let w = run_w(m, cl0, u, v);
    let h = run_h(m, cl0, u, w, v);
    lemma_run_w_props(m, cl0, u, v);
    lemma_run_h_props(m, cl0, u, w, v);
    assert(row_avail(m, cl0, u, w, v));
    assert(w >= 1 && h >= 1);
    let q = PlaneQuad { u: u as usize, v: v as usize, w: w as usize, h: h as usize };
    let len0 = qs0.len() as int;
    assert(qs == qs0.push(q));
    assert(cl == claim_rect(cl0, u, v, w, h));
    assert(forall|i: int| 0 <= i < len0 ==> qs[i] == qs0[i]);
    assert(qs[len0] == q);

    // Every cell of the new rectangle was available when it was claimed.
    assert forall|p2: int| 0 <= p2 < 256 && in_quad(q, p2) implies avail(m, cl0, p2) by {
        let u2 = p2 % 16;
        let v2 = p2 / 16;
        assert(p2 == v2 * 16 + u2 && 0 <= u2 < 16 && 0 <= v2 < 16) by (nonlinear_arith)
            requires u2 == p2 % 16 && v2 == p2 / 16 && 0 <= p2 < 256;
        assert(row_avail(m, cl0, u, w, v2));
        assert(v2 * 16 + u <= p2 < v2 * 16 + u + w);
    }

    assert forall|i: int, p2: int|
        0 <= i < qs.len() && 0 <= p2 < 256 && #[trigger] in_quad(qs[i], p2) implies m[p2] by {
        if i < len0 {
            assert(in_quad(qs0[i], p2));
        } else {
            assert(avail(m, cl0, p2));
        }
    }

    assert forall|i: int, j: int, p2: int|
        0 <= i < j < qs.len() && 0 <= p2 < 256 implies !(#[trigger] in_quad(qs[i], p2)
        && #[trigger] in_quad(qs[j], p2)) by {
        if j < len0 {
            assert(!(in_quad(qs0[i], p2) && in_quad(qs0[j], p2)));
        } else if in_quad(qs[i], p2) && in_quad(qs[j], p2) {
            // The new quad's cells were unclaimed, but an old quad's cells
            // are already claimed.
            assert(in_quad(qs0[i], p2));
            assert(cl0[p2]);
            assert(avail(m, cl0, p2));
            assert(false);
        }
    }

    assert forall|p2: int| 0 <= p2 < end && m[p2] implies #[trigger] cl[p2] by {
        if p2 == p {
            assert(in_rect(p2, u, v, w, h));
        }
    }

    assert forall|p2: int| 0 <= p2 < 256 && #[trigger] cl[p2] implies exists|i: int|
        0 <= i < qs.len() && #[trigger] in_quad(qs[i], p2) by {
        if cl0[p2] {
            let i0 = choose|i: int| 0 <= i < qs0.len() && #[trigger] in_quad(qs0[i], p2);
            assert(in_quad(qs[i0], p2));
        } else {
            assert(in_rect(p2, u, v, w, h));
            assert(in_quad(qs[len0], p2));
        }
    }
}

proof fn lemma_count_row_nonneg(qs: Seq<PlaneQuad>, v: int)
    ensures
        0 <= count_row(qs, v) <= qs.len(),
    decreases qs.len(),
{
    if qs.len() > 0 {
        lemma_count_row_nonneg(qs.drop_last(), v);
    }
}

proof fn lemma_last_in_row(qs: Seq<PlaneQuad>, v: int)
    requires
        count_row(qs, v) >= 1,
    ensures
        ({
            let i = last_in_row(qs, v);
            &&& 0 <= i < qs.len()
            &&& qs[i].v == v
            &&& count_row(qs.take(i), v) == count_row(qs, v) - 1
        }),
    decreases qs.len(),
{
    let i = last_in_row(qs, v);
    if qs.last().v == v {
        assert(qs.take(qs.len() - 1) =~= qs.drop_last());
    } else {
        lemma_last_in_row(qs.drop_last(), v);
        assert(qs.drop_last().take(i) =~= qs.take(i));
    }
}

proof fn lemma_sum_rows_push(qs: Seq<PlaneQuad>, q: PlaneQuad, v_hi: int)
    ensures
        sum_rows(qs.push(q), v_hi) == sum_rows(qs, v_hi) + if 0 <= q.v < v_hi {
            1int
        } else {
            0
        },
    decreases v_hi,
{
    if v_hi > 0 {
        lemma_sum_rows_push(qs, q, v_hi - 1);
        assert(qs.push(q).drop_last() =~= qs);
        assert(count_row(qs.push(q), v_hi - 1) == count_row(qs, v_hi - 1) + if q.v == v_hi - 1 {
            1int
        } else {
            0
        });
    }
}

proof fn lemma_sum_rows_empty(v_hi: int)
    ensures
        sum_rows(Seq::<PlaneQuad>::empty(), v_hi) == 0,
    decreases v_hi,
{
    if v_hi > 0 {
        lemma_sum_rows_empty(v_hi - 1);
    }
}

/// The number of quads is the sum of its per-row start counts.
proof fn lemma_len_eq_sum_rows(qs: Seq<PlaneQuad>)
    requires
        forall|i: int| 0 <= i < qs.len() ==> 0 <= (#[trigger] qs[i]).v < 16,
    ensures
        qs.len() == sum_rows(qs, 16),
    decreases qs.len(),
{
    if qs.len() == 0 {
        assert(qs =~= Seq::<PlaneQuad>::empty());
        lemma_sum_rows_empty(16);
    } else {
        let s0 = qs.drop_last();
        assert(forall|i: int| 0 <= i < s0.len() ==> s0[i] == qs[i]);
        lemma_len_eq_sum_rows(s0);
        let q = qs.last();
        assert(q == qs[qs.len() - 1]);
        assert(0 <= q.v < 16);
        assert(s0.push(q) =~= qs);
        lemma_sum_rows_push(s0, q, 16);
        assert(sum_rows(qs, 16) == sum_rows(s0, 16) + 1);
    }
}

proof fn lemma_sum_rows_bounded(qs: Seq<PlaneQuad>, v_hi: int)
    requires
        0 <= v_hi,
        forall|v: int| 0 <= v < v_hi ==> #[trigger] count_row(qs, v) <= 8,
    ensures
        sum_rows(qs, v_hi) <= 8 * v_hi,
    decreases v_hi,
{
    if v_hi > 0 {
        lemma_sum_rows_bounded(qs, v_hi - 1);
    }
}

/// One scan plane emits at most 128 quads: each row starts at most 8.
proof fn lemma_plane_quads_bound(m: Seq<bool>)
    requires
        m.len() == 256,
    ensures
        scan_quads(m, 256).len() <= 128,
        forall|i: int| 0 <= i < scan_quads(m, 256).len() ==> plane_quad_wf(
            #[trigger] scan_quads(m, 256)[i],
        ),
{
    lemma_scan_props(m, 256);
    let qs = scan_quads(m, 256);
    assert forall|v: int| 0 <= v < 16 implies #[trigger] count_row(qs, v) <= 8 by {
        lemma_count_row_nonneg(qs, v);
        let c = count_row(qs, v);
        if c >= 9 {
            lemma_last_in_row(qs, v);
            let i0 = last_in_row(qs, v);
            assert(qs[i0].u >= 2 * count_row(qs.take(i0), qs[i0].v as int));
            assert(plane_quad_wf(qs[i0]));
            assert(qs[i0].u + qs[i0].w <= 16 && qs[i0].w >= 1);
            assert(false);
        }
    }
    lemma_len_eq_sum_rows(qs);
    lemma_sum_rows_bounded(qs, 16);
}

/// Lifting plane quads preserves count, shape, and element mapping.
pub proof fn lemma_to_quads_props(pqs: Seq<PlaneQuad>, d: int, n: int)
    ensures
        to_quads(pqs, d, n).len() == pqs.len(),
        forall|i: int|
            0 <= i < pqs.len() ==> #[trigger] to_quads(pqs, d, n)[i] == quad3(pqs[i], d, n),
    decreases pqs.len(),
{
    if pqs.len() > 0 {
        lemma_to_quads_props(pqs.drop_last(), d, n);
        assert(forall|i: int| 0 <= i < pqs.len() - 1 ==> pqs.drop_last()[i] == pqs[i]);
    }
}

/// One layer of one direction emits at most 128 well-shaped quads.
proof fn lemma_layer_quads_bound(g: Seq<Block>, d: int, n: int)
    requires
        0 <= d < 6,
        1 <= n <= 16,
    ensures
        layer_quads(g, d, n).len() <= 128,
        forall|i: int|
            0 <= i < layer_quads(g, d, n).len() ==> quad_wf(#[trigger] layer_quads(g, d, n)[i]),
{
    let m = mask_seq(g, d, n);
    lemma_plane_quads_bound(m);
    let pqs = scan_quads(m, 256);
    lemma_to_quads_props(pqs, d, n);
    assert forall|i: int| 0 <= i < layer_quads(g, d, n).len() implies quad_wf(
        #[trigger] layer_quads(g, d, n)[i],
    ) by {
        assert(layer_quads(g, d, n)[i] == quad3(pqs[i], d, n));
        assert(plane_quad_wf(pqs[i]));
    }
}

proof fn lemma_dir_quads_bound(g: Seq<Block>, d: int, n_hi: int)
    requires
        0 <= d < 6,
        0 <= n_hi <= 16,
    ensures
        dir_quads(g, d, n_hi).len() <= 128 * n_hi,
        forall|i: int|
            0 <= i < dir_quads(g, d, n_hi).len() ==> quad_wf(#[trigger] dir_quads(g, d, n_hi)[i]),
    decreases n_hi,
{
    if n_hi > 0 {
        lemma_dir_quads_bound(g, d, n_hi - 1);
        lemma_layer_quads_bound(g, d, n_hi);
    }
}

proof fn lemma_all_quads_bound(g: Seq<Block>, d_hi: int)
    requires
        0 <= d_hi <= 6,
    ensures
        all_quads(g, d_hi).len() <= 2048 * d_hi,
        forall|i: int|
            0 <= i < all_quads(g, d_hi).len() ==> quad_wf(#[trigger] all_quads(g, d_hi)[i]),
    decreases d_hi,
{
    if d_hi > 0 {
        lemma_all_quads_bound(g, d_hi - 1);
        lemma_dir_quads_bound(g, d_hi - 1, 16);
    }
}

/// Capacity invariant: no voxel configuration can out-grow the planned
/// worst case of `MAX_QUADS` quads per chunk, and every emitted quad is
/// well-shaped.  This is what makes the fixed-size buffer model sound.
pub proof fn lemma_chunk_capacity(g: Seq<Block>)
    ensures
        chunk_quads(g).len() <= 12288,
        forall|i: int|
            0 <= i < chunk_quads(g).len() ==> quad_wf(#[trigger] chunk_quads(g)[i]),
{
    lemma_all_quads_bound(g, 6);
}

} // verus!
