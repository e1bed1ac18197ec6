//! Laws of the daemon state: what one request undoes of another, and what
//! every ingest guarantees.

use vstd::prelude::*;

use crate::contracts::{
    CanvasView, ClusterId, ClusterView, ContextStripDirection, CycleDirection, Window, WindowId, ZoomLevel,
};
use crate::daemon::{
    anchored, assigned, auto_clustered, bumped, cycle_outcome, cycle_step, finish_outcome,
    first_cluster_id, hinted, holder_of, index_or_zero, IngestToken, keep_positions,
    known_history, move_origin, next_revision, placed, position_map, repaired_selection,
    restored, with_windows_of, zoom_in_outcome, zoom_in_window, zoom_out_outcome, OwnerView,
    extend_missing, first_holder, lemma_holder_unique, strip_order, strip_outcome, StateError,
};
use crate::seq_util::{lemma_remove_all_head, lemma_remove_all_tail};
use crate::model::{
    cluster_pos, first_cluster, has_cluster, lemma_cluster_pos, lemma_has_cluster_pos, lemma_same_ids, same_ids,
};

verus! {

broadcast use vstd::seq_lib::group_seq_properties;

/// Beginning a drag of an existing cluster, dragging it anywhere and then
/// cancelling puts the canvas back as it was; only the revision moved, by
/// one per request that bumps it.
pub proof fn law_cancelled_drag_restores<P>(v: OwnerView<P>, id: ClusterId, x: P, y: P)
    requires
        has_cluster(v.canvas.clusters, id),
    ensures
        ({
            let v1 = OwnerView { drag_origin: move_origin(v, id), ..v };
            let v2 = bumped(placed(v1, id, x, y));
            let v3 = bumped(OwnerView { drag_origin: None, ..restored(v2, v2.drag_origin) });
            &&& v3.canvas.clusters == v.canvas.clusters
            &&& v3.canvas.windows == v.canvas.windows
            &&& v3.canvas.zoom == v.canvas.zoom
            &&& v3.drag_origin is None
            &&& v3.canvas.state_revision == next_revision(next_revision(v.canvas.state_revision))
        }),
{
    let cs = v.canvas.clusters;
    lemma_has_cluster_pos(cs, id);
    let k = cluster_pos(cs, id);
    let c = cs[k];
    let v1 = OwnerView { drag_origin: move_origin(v, id), ..v };
    let v2 = bumped(placed(v1, id, x, y));
    let cs2 = v2.canvas.clusters;
    assert(cs2 == cs.update(k, ClusterView { x: x, y: y, ..c }));
    assert(same_ids(cs, cs2));
    lemma_same_ids(cs, cs2, id);
    let v3 = bumped(OwnerView { drag_origin: None, ..restored(v2, v2.drag_origin) });
    assert(v3.canvas.clusters =~= cs);
}

/// The state after a drag update to `(x, y)`.
pub open spec fn drag_update_step<P>(v: OwnerView<P>, x: P, y: P) -> OwnerView<P> {
    match v.drag_origin {
        None => v,
        Some((id, _, _)) => bumped(placed(v, id, x, y)),
    }
}

/// The state after the drag updates `moves`, in order.
pub open spec fn drag_updates<P>(v: OwnerView<P>, moves: Seq<(P, P)>) -> OwnerView<P>
    decreases moves.len(),
{
    if moves.len() == 0 {
        v
    } else {
        drag_update_step(drag_updates(v, moves.drop_last()), moves.last().0, moves.last().1)
    }
}

/// Where the last of `moves` put the cluster, `(x0, y0)` if none.
pub open spec fn last_position<P>(moves: Seq<(P, P)>, x0: P, y0: P) -> (P, P) {
    if moves.len() == 0 {
        (x0, y0)
    } else {
        moves.last()
    }
}

proof fn lemma_drag_updates<P>(v1: OwnerView<P>, id: ClusterId, k: int, moves: Seq<(P, P)>)
    requires
        first_cluster(v1.canvas.clusters, id, k),
        v1.drag_origin == Some((id, v1.canvas.clusters[k].x, v1.canvas.clusters[k].y)),
    ensures
        ({
            let c = v1.canvas.clusters[k];
            let vn = drag_updates(v1, moves);
            let p = last_position(moves, c.x, c.y);
            &&& vn.drag_origin == v1.drag_origin
            &&& vn.canvas.windows == v1.canvas.windows
            &&& vn.canvas.zoom == v1.canvas.zoom
            &&& vn.canvas.clusters == v1.canvas.clusters.update(k, ClusterView { x: p.0, y: p.1, ..c })
        }),
    decreases moves.len(),
{
    let cs = v1.canvas.clusters;
    let c = cs[k];
    if moves.len() == 0 {
        assert(cs.update(k, ClusterView { x: c.x, y: c.y, ..c }) =~= cs);
    } else {
        lemma_drag_updates(v1, id, k, moves.drop_last());
        let vp = drag_updates(v1, moves.drop_last());
        let cs2 = vp.canvas.clusters;
        assert(same_ids(cs, cs2));
        lemma_cluster_pos(cs, id, k);
        lemma_same_ids(cs, cs2, id);
        let (x, y) = moves.last();
        assert(cs2.update(k, ClusterView { x: x, y: y, ..cs2[k] }) =~= cs.update(k, ClusterView { x: x, y: y, ..c }));
    }
}

/// Beginning a drag of an existing cluster, updating it any number of
/// times and cancelling puts every cluster back where it was and leaves
/// the windows and the zoom level as they were; no drag is then in flight,
/// so a later update moves nothing.
pub proof fn law_cancel_after_any_updates<P>(v: OwnerView<P>, id: ClusterId, moves: Seq<(P, P)>, x: P, y: P)
    requires
        has_cluster(v.canvas.clusters, id),
    ensures
        ({
            let v1 = OwnerView { drag_origin: move_origin(v, id), ..v };
            let vn = drag_updates(v1, moves);
            let v3 = bumped(OwnerView { drag_origin: None, ..restored(vn, vn.drag_origin) });
            &&& v3.canvas.clusters == v.canvas.clusters
            &&& v3.canvas.windows == v.canvas.windows
            &&& v3.canvas.zoom == v.canvas.zoom
            &&& v3.drag_origin is None
            &&& drag_update_step(v3, x, y) == v3
        }),
{
    let cs = v.canvas.clusters;
    lemma_has_cluster_pos(cs, id);
    let k = cluster_pos(cs, id);
    let c = cs[k];
    let v1 = OwnerView { drag_origin: move_origin(v, id), ..v };
    lemma_drag_updates(v1, id, k, moves);
    let vn = drag_updates(v1, moves);
    let p = last_position(moves, c.x, c.y);
    let csn = vn.canvas.clusters;
    assert(same_ids(cs, csn));
    lemma_cluster_pos(cs, id, k);
    lemma_same_ids(cs, csn, id);
    let v3 = bumped(OwnerView { drag_origin: None, ..restored(vn, vn.drag_origin) });
    assert(v3.canvas.clusters =~= cs);
}

/// Cycling forward and then backward through a history of distinct,
/// existing clusters that holds the selected cluster comes back to it.
pub proof fn law_cycle_back_and_forth<P>(v: OwnerView<P>, c: ClusterId)
    requires
        v.selected == Some(c),
        v.history.len() >= 2,
        v.history.no_duplicates(),
        v.history.contains(c),
        forall|i: int| 0 <= i < v.history.len() ==> has_cluster(v.canvas.clusters, #[trigger] v.history[i]),
    ensures
        ({
            let fwd = cycle_outcome(v, CycleDirection::Forward);
            let back = cycle_outcome(fwd.0, CycleDirection::Backward);
            &&& fwd.1 is Ok
            &&& back.1 == Ok::<ClusterId, crate::daemon::StateError>(c)
            &&& back.0.selected == Some(c)
            &&& back.0.canvas.zoom == ZoomLevel::Cluster(c)
        }),
{
    let cs = v.canvas.clusters;
    let h = v.history;
    lemma_known_history_all(h, cs);
    let p = index_or_zero(h, c);
    lemma_index_of_distinct(h, c);
    let l = h.len() as int;
    let q = cycle_step(p, l, CycleDirection::Forward);
    assert(0 <= q < l) by (nonlinear_arith)
        requires
            q == (p + 1) % l,
            l > 0,
    ;
    let t = h[q];
    let fwd = cycle_outcome(v, CycleDirection::Forward);
    assert(fwd.0.history == h);
    assert(fwd.0.canvas.clusters == cs);
    assert(fwd.0.selected == Some(t));
    lemma_known_history_all(h, cs);
    assert(h.contains(t));
    lemma_index_of_distinct(h, t);
    assert(h[index_or_zero(h, t)] == t);
    assert(index_or_zero(h, t) == q) by {
        let j = index_or_zero(h, t);
        if j != q {
            assert(h[j] == h[q]);
        }
    }
    let r = cycle_step(q, l, CycleDirection::Backward);
    if p + 1 < l {
        assert(q == p + 1) by (nonlinear_arith)
            requires
                q == (p + 1) % l,
                0 <= p + 1 < l,
        ;
        assert(r == p) by (nonlinear_arith)
            requires
                r == (q + l - 1) % l,
                q == p + 1,
                0 <= p < l,
        ;
    } else {
        assert(q == 0) by (nonlinear_arith)
            requires
                q == (p + 1) % l,
                p + 1 == l,
                l > 0,
        ;
        assert(r == p) by (nonlinear_arith)
            requires
                r == (q + l - 1) % l,
                q == 0,
                p == l - 1,
                l > 0,
        ;
    }
    assert(h[p] == c);
}

/// A history of existing clusters is its own known part.
proof fn lemma_known_history_all<P>(h: Seq<ClusterId>, cs: Seq<ClusterView<P>>)
    requires
        forall|i: int| 0 <= i < h.len() ==> has_cluster(cs, #[trigger] h[i]),
    ensures
        known_history(h, cs) == h,
    decreases h.len(),
{
    if h.len() > 0 {
        let d = h.drop_last();
        assert forall|i: int| 0 <= i < d.len() implies has_cluster(cs, #[trigger] d[i]) by {
            assert(d[i] == h[i]);
        }
        lemma_known_history_all(d, cs);
        assert(has_cluster(cs, h[h.len() - 1]));
        assert(d.push(h.last()) =~= h);
    }
}

/// In a sequence without repeats the first occurrence of an element is its
/// only one.
proof fn lemma_index_of_distinct(h: Seq<ClusterId>, x: ClusterId)
    requires
        h.no_duplicates(),
        h.contains(x),
    ensures
        0 <= index_or_zero(h, x) < h.len(),
        h[index_or_zero(h, x)] == x,
{
    let i = choose|i: int| 0 <= i < h.len() && h[i] == x;
    assert forall|j: int| 0 <= j < i implies h[j] != x by {
        assert(h[j] != h[i]);
    }
    assert(exists|i: int| 0 <= i < h.len() && h[i] == x && forall|j: int| 0 <= j < i ==> h[j] != x);
}

/// Zooming in from the overview and back out returns to the overview.
pub proof fn law_zoom_in_out_from_overview<P>(v: OwnerView<P>)
    requires
        v.canvas.zoom == ZoomLevel::Overview,
        zoom_in_outcome(v).1 is Ok,
    ensures
        zoom_out_outcome(zoom_in_outcome(v).0).1 is Ok,
        zoom_out_outcome(zoom_in_outcome(v).0).0.canvas.zoom == ZoomLevel::Overview,
{
}

/// Zooming into a cluster's window and back out returns to the cluster when
/// it is the first cluster listing that window.
pub proof fn law_zoom_in_out_from_cluster<P>(v: OwnerView<P>, c: ClusterId)
    requires
        v.canvas.zoom == ZoomLevel::Cluster(c),
        zoom_in_outcome(v).1 is Ok,
        ({
            let k = cluster_pos(v.canvas.clusters, c);
            zoom_in_window(v.canvas.clusters[k]) matches Some(w) && holder_of(v.canvas.clusters, w)
                == Some(c)
        }),
    ensures
        zoom_out_outcome(zoom_in_outcome(v).0).1 is Ok,
        zoom_out_outcome(zoom_in_outcome(v).0).0.canvas.zoom == ZoomLevel::Cluster(c),
        zoom_out_outcome(zoom_in_outcome(v).0).0.selected == Some(c),
{
}

/// After an ingest the selection names an existing cluster, and is empty
/// only when there is no cluster.
pub proof fn law_ingest_selection_valid<P>(v: OwnerView<P>, token: IngestToken, vp: bool)
    ensures
        ({
            let after = finish_outcome(v, token, vp).0;
            &&& after.selected matches Some(c) ==> has_cluster(after.canvas.clusters, c)
            &&& after.selected is None ==> after.canvas.clusters.len() == 0
        }),
{
    let v3 = assigned(v);
    let cs = v3.canvas.clusters;
    assert(cs == v.canvas.clusters);
    if cs.len() > 0 {
        assert(has_cluster(cs, cs[0].id));
    }
}

/// The assignment rules of an ingest never move a window the user placed.
pub proof fn law_manual_assignment_survives<P>(v: OwnerView<P>, i: int)
    requires
        0 <= i < v.canvas.windows.len(),
        v.canvas.windows[i].manual_cluster_override,
    ensures
        assigned(v).canvas.windows.len() == v.canvas.windows.len(),
        assigned(v).canvas.windows[i] == v.canvas.windows[i],
{
}

/// When the snapshot's clusters have distinct ids, every cluster whose id
/// the canvas knew keeps the position the canvas had for it (the last
/// cluster with that id), and every other cluster keeps its own.
pub proof fn law_ingest_keeps_positions<P>(old_cs: Seq<ClusterView<P>>, new_cs: Seq<ClusterView<P>>)
    requires
        forall|a: int, b: int|
            0 <= a < new_cs.len() && 0 <= b < new_cs.len() && a != b ==> #[trigger] new_cs[a].id
                != #[trigger] new_cs[b].id,
    ensures
        ({
            let pm = position_map(old_cs);
            let kept = keep_positions(pm, new_cs).0;
            &&& kept.len() == new_cs.len()
            &&& forall|k: int|
                0 <= k < new_cs.len() ==> #[trigger] kept[k] == if pm.contains_key(new_cs[k].id) {
                    ClusterView { x: pm[new_cs[k].id].0, y: pm[new_cs[k].id].1, ..new_cs[k] }
                } else {
                    new_cs[k]
                }
        }),
    decreases new_cs.len(),
{
    let pm = position_map(old_cs);
    lemma_keep_positions(pm, new_cs);
}

proof fn lemma_keep_positions<P>(pm: Map<ClusterId, (P, P)>, new_cs: Seq<ClusterView<P>>)
    requires
        forall|a: int, b: int|
            0 <= a < new_cs.len() && 0 <= b < new_cs.len() && a != b ==> #[trigger] new_cs[a].id
                != #[trigger] new_cs[b].id,
    ensures
        ({
            let r = keep_positions(pm, new_cs);
            &&& r.0.len() == new_cs.len()
            &&& forall|k: int|
                0 <= k < new_cs.len() ==> #[trigger] r.0[k] == if pm.contains_key(new_cs[k].id) {
                    ClusterView { x: pm[new_cs[k].id].0, y: pm[new_cs[k].id].1, ..new_cs[k] }
                } else {
                    new_cs[k]
                }
            &&& forall|id: ClusterId| #[trigger] r.1.contains_key(id) <==> (pm.contains_key(id)
                && forall|k: int| 0 <= k < new_cs.len() ==> new_cs[k].id != id)
            &&& forall|id: ClusterId| r.1.contains_key(id) ==> #[trigger] r.1[id] == pm[id]
        }),
    decreases new_cs.len(),
{
    if new_cs.len() > 0 {
        let d = new_cs.drop_last();
        assert forall|a: int, b: int| 0 <= a < d.len() && 0 <= b < d.len() && a != b implies #[trigger] d[a].id
            != #[trigger] d[b].id by {
            assert(new_cs[a].id != new_cs[b].id);
        }
        lemma_keep_positions(pm, d);
        let last = new_cs.last();
        let prev = keep_positions(pm, d);
        assert forall|k: int| 0 <= k < d.len() implies d[k].id != last.id by {
            assert(new_cs[k].id != new_cs[new_cs.len() - 1].id);
        }
        assert(prev.1.contains_key(last.id) <==> pm.contains_key(last.id));
        let r = keep_positions(pm, new_cs);
        assert(d.len() == new_cs.len() - 1);
        assert forall|k: int| 0 <= k < new_cs.len() implies #[trigger] r.0[k] == if pm.contains_key(new_cs[k].id) {
            ClusterView { x: pm[new_cs[k].id].0, y: pm[new_cs[k].id].1, ..new_cs[k] }
        } else {
            new_cs[k]
        } by {
            if k < d.len() {
                assert(r.0[k] == prev.0[k]);
                assert(d[k] == new_cs[k]);
            } else {
                assert(new_cs[k] == last);
            }
        }
        assert forall|id: ClusterId| #[trigger] r.1.contains_key(id) <==> (pm.contains_key(id)
            && forall|k: int| 0 <= k < new_cs.len() ==> new_cs[k].id != id) by {
            if id == last.id {
                assert(new_cs[new_cs.len() - 1].id == id);
            } else {
                if pm.contains_key(id) && forall|k: int| 0 <= k < d.len() ==> d[k].id != id {
                    assert forall|k: int| 0 <= k < new_cs.len() implies new_cs[k].id != id by {
                        if k < d.len() {
                            assert(d[k] == new_cs[k]);
                        }
                    }
                }
                if pm.contains_key(id) && forall|k: int| 0 <= k < new_cs.len() ==> new_cs[k].id != id {
                    assert forall|k: int| 0 <= k < d.len() implies d[k].id != id by {
                        assert(d[k] == new_cs[k]);
                    }
                }
            }
        }
    }
}

/// The windows of `base` keep their places when the missing windows of
/// `ws` are appended.
proof fn lemma_extend_missing_prefix(base: Seq<WindowId>, ws: Seq<WindowId>)
    ensures
        extend_missing(base, ws).len() >= base.len(),
        forall|k: int| 0 <= k < base.len() ==> extend_missing(base, ws)[k] == base[k],
    decreases ws.len(),
{
    if ws.len() > 0 {
        lemma_extend_missing_prefix(base, ws.drop_last());
    }
}

/// Nothing is appended when `base` already holds every window of `ws`.
proof fn lemma_extend_missing_covered(base: Seq<WindowId>, ws: Seq<WindowId>)
    requires
        forall|i: int| 0 <= i < ws.len() ==> base.contains(ws[i]),
    ensures
        extend_missing(base, ws) == base,
    decreases ws.len(),
{
    if ws.len() > 0 {
        let d = ws.drop_last();
        assert forall|i: int| 0 <= i < d.len() implies base.contains(d[i]) by {
            assert(d[i] == ws[i]);
        }
        lemma_extend_missing_covered(base, d);
        assert(base.contains(ws[ws.len() - 1]));
    }
}

/// Stepping through a non-empty context strip of the focused window `f`
/// goes forward to the strip's first window and backward to its last one,
/// and focus zoom moves to the window reached.
pub proof fn law_strip_steps_to_ends<P>(v: OwnerView<P>, f: WindowId, k: int)
    requires
        v.canvas.zoom == ZoomLevel::Focus(f),
        first_holder(v.canvas.clusters, f, k),
        strip_order(v.canvas.clusters[k], f).len() > 0,
    ensures
        ({
            let s = strip_order(v.canvas.clusters[k], f);
            let (vn, rn) = strip_outcome(v, ContextStripDirection::Next);
            let (vp, rp) = strip_outcome(v, ContextStripDirection::Previous);
            &&& rn == Ok::<WindowId, StateError>(s[0])
            &&& vn.canvas.zoom == ZoomLevel::Focus(s[0])
            &&& rp == Ok::<WindowId, StateError>(s.last())
            &&& vp.canvas.zoom == ZoomLevel::Focus(s.last())
        }),
{
    lemma_holder_unique(v.canvas.clusters, f, k);
}

/// Stepping forward through the context strip of the focused window `f`
/// goes to the most recently used other window of the cluster that holds
/// `f`: the first entry of its recency list that is not `f`. Focus zoom
/// moves to that window.
pub proof fn law_strip_next_is_most_recent<P>(v: OwnerView<P>, f: WindowId, k: int, j: int)
    requires
        v.canvas.zoom == ZoomLevel::Focus(f),
        first_holder(v.canvas.clusters, f, k),
        0 <= j < v.canvas.clusters[k].recency.len(),
        v.canvas.clusters[k].recency[j] != f,
        forall|i: int| 0 <= i < j ==> v.canvas.clusters[k].recency[i] == f,
    ensures
        ({
            let t = v.canvas.clusters[k].recency[j];
            let (v2, r) = strip_outcome(v, ContextStripDirection::Next);
            &&& r == Ok::<WindowId, StateError>(t)
            &&& v2.canvas.zoom == ZoomLevel::Focus(t)
        }),
{
    let cs = v.canvas.clusters;
    lemma_holder_unique(cs, f, k);
    let c = cs[k];
    let e = extend_missing(c.recency, c.windows);
    lemma_extend_missing_prefix(c.recency, c.windows);
    assert(e[j] == c.recency[j]);
    assert forall|i: int| 0 <= i < j implies e[i] == f by {
        assert(e[i] == c.recency[i]);
    }
    lemma_remove_all_head(e, f, j);
    assert(strip_order(c, f) == crate::seq_util::remove_all(e, f));
}

/// Stepping backward through the context strip of the focused window `f`
/// goes to the least recently used other window of the cluster that holds
/// `f`, when its recency list covers all its windows: the last entry of
/// that list that is not `f`. Focus zoom moves to that window.
pub proof fn law_strip_previous_is_least_recent<P>(v: OwnerView<P>, f: WindowId, k: int, j: int)
    requires
        v.canvas.zoom == ZoomLevel::Focus(f),
        first_holder(v.canvas.clusters, f, k),
        forall|i: int|
            0 <= i < v.canvas.clusters[k].windows.len() ==> v.canvas.clusters[k].recency.contains(
                #[trigger] v.canvas.clusters[k].windows[i],
            ),
        0 <= j < v.canvas.clusters[k].recency.len(),
        v.canvas.clusters[k].recency[j] != f,
        forall|i: int| j < i < v.canvas.clusters[k].recency.len() ==> v.canvas.clusters[k].recency[i] == f,
    ensures
        ({
            let t = v.canvas.clusters[k].recency[j];
            let (v2, r) = strip_outcome(v, ContextStripDirection::Previous);
            &&& r == Ok::<WindowId, StateError>(t)
            &&& v2.canvas.zoom == ZoomLevel::Focus(t)
        }),
{
    let cs = v.canvas.clusters;
    lemma_holder_unique(cs, f, k);
    let c = cs[k];
    lemma_extend_missing_covered(c.recency, c.windows);
    lemma_remove_all_tail(c.recency, f, j);
    assert(strip_order(c, f) == crate::seq_util::remove_all(c.recency, f));
}

} // verus!
