//! Laws of the canvas model: in a tidy, consistent model every mutation
//! whose own checks pass succeeds and leaves the model tidy and consistent.

use vstd::prelude::*;

use crate::contracts::{CanvasView, ClusterId, ClusterView, Window, WindowId};
use crate::model::{
    attach_window, cluster_clean, cluster_clean_upto, cluster_pos, detach_window, entry_violation,
    first_cluster, first_window, has_cluster, has_window, lemma_cluster_pos, lemma_has_cluster_pos,
    lemma_has_window_pos, lemma_invariant_error_none, lemma_same_ids, lemma_same_window_ids,
    lemma_window_pos, model_ok, open_outcome, close_outcome, focus_outcome, reassign_outcome,
    focus_in_cluster, OpenAssignPolicy, reassign_all, remove_cluster_at, delete_outcome,
    DeleteClusterMode, lemma_reassign_keeps_ids, same_ids, same_window_ids, well_formed,
    window_pos, window_violation, windows_clean_upto, clusters_clean_upto, with_clusters,
    with_windows, ModelView, fresh_cluster,
};
use crate::seq_util::{
    lemma_remove_all_contains, lemma_remove_all_first, lemma_remove_all_head,
    lemma_remove_all_no_duplicates, remove_all,
};

verus! {

broadcast use vstd::seq_lib::group_seq_properties;

/// No two clusters share an id and no two windows share an id.
pub open spec fn distinct_ids<P>(s: CanvasView<P>) -> bool {
    &&& forall|a: int, b: int|
        0 <= a < s.clusters.len() && 0 <= b < s.clusters.len() && a != b ==> #[trigger] s.clusters[a].id
            != #[trigger] s.clusters[b].id
    &&& forall|a: int, b: int|
        0 <= a < s.windows.len() && 0 <= b < s.windows.len() && a != b ==> #[trigger] s.windows[a].id
            != #[trigger] s.windows[b].id
}

/// Ids are distinct and a window is listed only by the cluster it belongs to.
pub open spec fn tidy<P>(s: CanvasView<P>) -> bool {
    &&& distinct_ids(s)
    &&& forall|k: int, i: int|
        0 <= k < s.clusters.len() && 0 <= i < s.windows.len() && #[trigger] s.clusters[k].windows.contains(
            #[trigger] s.windows[i].id,
        ) ==> s.windows[i].cluster_id == Some(s.clusters[k].id)
}

pub proof fn lemma_cluster_clean_iff<P>(s: CanvasView<P>, k: int)
    requires
        0 <= k < s.clusters.len(),
    ensures
        cluster_clean(s, k) <==> ((forall|j: int|
            0 <= j < s.clusters[k].windows.len() ==> #[trigger] has_window(
                s.windows,
                s.clusters[k].windows[j],
            )) && s.clusters[k].windows.no_duplicates()),
{
    let l = s.clusters[k].windows;
    if cluster_clean(s, k) {
        assert forall|j: int| 0 <= j < l.len() implies #[trigger] has_window(s.windows, l[j]) by {
            assert(entry_violation(s, k, j) is None);
        }
        assert forall|a: int, b: int| 0 <= a < l.len() && 0 <= b < l.len() && a != b implies l[a]
            != l[b] by {
            if a < b {
                assert(entry_violation(s, k, b) is None);
                assert(l.take(b)[a] == l[a]);
            } else {
                assert(entry_violation(s, k, a) is None);
                assert(l.take(a)[b] == l[b]);
            }
        }
    }
    if (forall|j: int| 0 <= j < l.len() ==> #[trigger] has_window(s.windows, l[j])) && l.no_duplicates() {
        assert forall|j: int| 0 <= j < l.len() implies #[trigger] entry_violation(s, k, j) is None by {
            assert(has_window(s.windows, l[j]));
            if l.take(j).contains(l[j]) {
                let a = choose|a: int| 0 <= a < l.take(j).len() && l.take(j)[a] == l[j];
                assert(l[a] == l[j]);
            }
        }
    }
}

pub proof fn lemma_unique_cluster_pos<P>(cs: Seq<ClusterView<P>>, k: int)
    requires
        0 <= k < cs.len(),
        forall|a: int, b: int|
            0 <= a < cs.len() && 0 <= b < cs.len() && a != b ==> #[trigger] cs[a].id != #[trigger] cs[b].id,
    ensures
        has_cluster(cs, cs[k].id),
        cluster_pos(cs, cs[k].id) == k,
{
    assert forall|j: int| 0 <= j < k implies cs[j].id != cs[k].id by {
        assert(cs[j].id != cs[k].id);
    }
    assert(first_cluster(cs, cs[k].id, k));
    lemma_cluster_pos(cs, cs[k].id, k);
}

pub proof fn lemma_unique_window_pos(ws: Seq<Window>, i: int)
    requires
        0 <= i < ws.len(),
        forall|a: int, b: int|
            0 <= a < ws.len() && 0 <= b < ws.len() && a != b ==> #[trigger] ws[a].id != #[trigger] ws[b].id,
    ensures
        has_window(ws, ws[i].id),
        window_pos(ws, ws[i].id) == i,
{
    assert forall|j: int| 0 <= j < i implies ws[j].id != ws[i].id by {
        assert(ws[j].id != ws[i].id);
    }
    assert(first_window(ws, ws[i].id, i));
    lemma_window_pos(ws, ws[i].id, i);
}


/// The lists a cluster holds are made of known windows, without repetition.
proof fn lemma_clean_from_list<P>(s: CanvasView<P>, k: int)
    requires
        0 <= k < s.clusters.len(),
        forall|x: u64| #[trigger] s.clusters[k].windows.contains(x) ==> has_window(s.windows, x),
        s.clusters[k].windows.no_duplicates(),
    ensures
        cluster_clean(s, k),
{
    let l = s.clusters[k].windows;
    assert forall|j: int| 0 <= j < l.len() implies #[trigger] has_window(s.windows, l[j]) by {
        assert(l.contains(l[j]));
    }
    lemma_cluster_clean_iff(s, k);
}

proof fn lemma_list_from_clean<P>(s: CanvasView<P>, k: int)
    requires
        0 <= k < s.clusters.len(),
        cluster_clean(s, k),
    ensures
        forall|x: u64| #[trigger] s.clusters[k].windows.contains(x) ==> has_window(s.windows, x),
        s.clusters[k].windows.no_duplicates(),
{
    lemma_cluster_clean_iff(s, k);
    let l = s.clusters[k].windows;
    assert forall|x: u64| #[trigger] l.contains(x) implies has_window(s.windows, x) by {
        let j = choose|j: int| 0 <= j < l.len() && l[j] == x;
        assert(has_window(s.windows, l[j]));
    }
}

/// Reassigning a tracked window to an existing cluster succeeds in a tidy,
/// consistent model, and leaves the model tidy and consistent.
pub proof fn law_reassign_keeps_model<P>(m: ModelView<P>, w: WindowId, c: ClusterId, manual: bool)
    requires
        model_ok(m),
        tidy(m.state),
        has_cluster(m.state.clusters, c),
        has_window(m.state.windows, w),
    ensures
        reassign_outcome(m, w, c, manual).1 is Ok,
        model_ok(reassign_outcome(m, w, c, manual).0),
        tidy(reassign_outcome(m, w, c, manual).0.state),
        reassign_outcome(m, w, c, manual).0.active_cluster == m.active_cluster,
{
    let s = m.state;
    let cs = s.clusters;
    let ws = s.windows;
    let a = m.active_cluster;
    lemma_has_window_pos(ws, w);
    let i = window_pos(ws, w);
    let win = ws[i];
    assert(window_violation(s, i) is None);
    let cur = win.cluster_id->0;
    lemma_has_cluster_pos(cs, cur);
    lemma_has_cluster_pos(cs, c);
    let k1 = cluster_pos(cs, cur);
    let k2 = cluster_pos(cs, c);
    let o = reassign_outcome(m, w, c, manual);
    let s2 = o.0.state;
    let cs2 = s2.clusters;
    let ws2 = s2.windows;
    assert(same_window_ids(ws, ws2));
    if cur == c {
        assert(same_ids(cs, cs2));
        lemma_same_shape_local(s, s2, a);
        assert forall|k: int, i2: int|
            0 <= k < cs2.len() && 0 <= i2 < ws2.len() && #[trigger] cs2[k].windows.contains(
                #[trigger] ws2[i2].id,
            ) implies ws2[i2].cluster_id == Some(cs2[k].id) by {
            assert(cs[k].windows.contains(ws[i2].id));
        }
    } else {
        assert(k1 != k2);
        let cs1 = cs.update(k1, detach_window(cs[k1], w));
        assert(cs2 == cs1.update(k2, attach_window(cs1[k2], w)));
        assert(same_ids(cs, cs2)) by {
            assert forall|k: int| 0 <= k < cs.len() implies #[trigger] cs[k].id == cs2[k].id by {
                assert(cs1[k].id == cs[k].id);
            }
        }
        lemma_same_ids(cs, cs2, a);
        assert forall|i2: int| 0 <= i2 < ws2.len() implies #[trigger] window_violation(s2, i2) is None by {
            if i2 == i {
                lemma_same_ids(cs, cs2, c);
                assert(cs2[k2].windows.contains(w));
            } else {
                assert(ws2[i2] == ws[i2]);
                assert(window_violation(s, i2) is None);
                let d = ws[i2].cluster_id->0;
                lemma_same_ids(cs, cs2, d);
                lemma_has_cluster_pos(cs, d);
                let p = cluster_pos(cs, d);
                assert(ws[i2].id != ws[i].id);
                if p == k1 {
                    lemma_remove_all_contains(cs[k1].windows, w, ws[i2].id);
                } else if p == k2 {
                    assert(cs[k2].windows.contains(ws[i2].id));
                } else {
                    assert(cs2[p] == cs[p]);
                }
            }
        }
        assert forall|k: int| 0 <= k < cs2.len() implies #[trigger] cluster_clean(s2, k) by {
            assert(cluster_clean(s, k));
            lemma_list_from_clean(s, k);
            assert forall|x: u64| #[trigger] cs2[k].windows.contains(x) implies has_window(ws2, x) by {
                lemma_same_window_ids(ws, ws2, x);
                if k == k1 {
                    lemma_remove_all_contains(cs[k1].windows, w, x);
                } else if k == k2 {
                    if x == w {
                    } else {
                        assert(cs[k2].windows.contains(x));
                    }
                } else {
                    assert(cs2[k] == cs[k]);
                }
            }
            if k == k1 {
                lemma_remove_all_no_duplicates(cs[k1].windows, w);
            } else if k == k2 {
                let l = cs[k2].windows;
                if !l.contains(w) {
                    assert forall|p1: int, p2: int| 0 <= p1 < l.push(w).len() && 0 <= p2 < l.push(w).len() && p1 != p2
                        implies l.push(w)[p1] != l.push(w)[p2] by {
                        if p1 < l.len() && p2 < l.len() {
                        } else if p1 < l.len() {
                            assert(l.contains(l[p1]));
                        } else {
                            assert(l.contains(l[p2]));
                        }
                    }
                }
            } else {
                assert(cs2[k] == cs[k]);
            }
            lemma_clean_from_list(s2, k);
        }
        assert forall|k: int, i2: int|
            0 <= k < cs2.len() && 0 <= i2 < ws2.len() && #[trigger] cs2[k].windows.contains(
                #[trigger] ws2[i2].id,
            ) implies ws2[i2].cluster_id == Some(cs2[k].id) by {
            if i2 == i {
                if k == k2 {
                } else if k == k1 {
                    lemma_remove_all_contains(cs[k1].windows, w, w);
                } else {
                    assert(cs2[k] == cs[k]);
                    assert(cs[k].windows.contains(ws[i].id));
                    assert(cs[k].id == cur);
                    lemma_unique_cluster_pos(cs, k);
                }
            } else {
                assert(ws2[i2] == ws[i2]);
                assert(ws[i2].id != w) by {
                    assert(ws[i2].id != ws[i].id);
                }
                if k == k1 {
                    lemma_remove_all_contains(cs[k1].windows, w, ws[i2].id);
                    assert(cs[k1].windows.contains(ws[i2].id));
                } else if k == k2 {
                    assert(cs[k2].windows.contains(ws[i2].id));
                } else {
                    assert(cs2[k] == cs[k]);
                    assert(cs[k].windows.contains(ws[i2].id));
                }
            }
        }
    }
    lemma_invariant_error_none(s2, a);
}

proof fn lemma_same_shape_local<P>(s: CanvasView<P>, s2: CanvasView<P>, active: ClusterId)
    requires
        same_ids(s.clusters, s2.clusters),
        forall|k: int| 0 <= k < s.clusters.len() ==> #[trigger] s2.clusters[k].windows == s.clusters[k].windows,
        same_window_ids(s.windows, s2.windows),
        forall|i: int| 0 <= i < s.windows.len() ==> #[trigger] s2.windows[i].cluster_id == s.windows[i].cluster_id,
    ensures
        well_formed(s2, active) == well_formed(s, active),
{
    crate::model::lemma_same_shape(s, s2, active);
}


/// Tracking a window with a new id in an existing cluster succeeds in a
/// tidy, consistent model, and leaves the model tidy and consistent.
pub proof fn law_open_keeps_model<P>(m: ModelView<P>, window: Window, policy: OpenAssignPolicy)
    requires
        model_ok(m),
        tidy(m.state),
        !has_window(m.state.windows, window.id),
        has_cluster(
            m.state.clusters,
            match policy {
                OpenAssignPolicy::ActiveCluster => m.active_cluster,
                OpenAssignPolicy::FallbackCluster(c) => c,
            },
        ),
    ensures
        open_outcome(m, window, policy).1 is Ok,
        model_ok(open_outcome(m, window, policy).0),
        tidy(open_outcome(m, window, policy).0.state),
{
    let s = m.state;
    let cs = s.clusters;
    let ws = s.windows;
    let a = m.active_cluster;
    let wid = window.id;
    let target = match policy {
        OpenAssignPolicy::ActiveCluster => m.active_cluster,
        OpenAssignPolicy::FallbackCluster(c) => c,
    };
    lemma_has_cluster_pos(cs, target);
    let kt = cluster_pos(cs, target);
    let o = open_outcome(m, window, policy);
    let s2 = o.0.state;
    let cs2 = s2.clusters;
    let ws2 = s2.windows;
    assert(ws2 == ws.push(Window { cluster_id: Some(target), manual_cluster_override: false, ..window }));
    assert(cs2 == cs.update(kt, attach_window(cs[kt], wid)));
    assert(same_ids(cs, cs2));
    lemma_same_ids(cs, cs2, a);
    assert forall|x: u64| has_window(ws, x) implies has_window(ws2, x) by {
        let j = choose|j: int| 0 <= j < ws.len() && ws[j].id == x;
        assert(ws2[j].id == x);
    }
    assert(has_window(ws2, wid)) by {
        assert(ws2[ws.len() as int].id == wid);
    }
    assert(!cs[kt].windows.contains(wid)) by {
        assert(cluster_clean(s, kt));
        lemma_list_from_clean(s, kt);
    }
    assert forall|i2: int| 0 <= i2 < ws2.len() implies #[trigger] window_violation(s2, i2) is None by {
        if i2 == ws.len() {
            lemma_same_ids(cs, cs2, target);
        } else {
            assert(ws2[i2] == ws[i2]);
            assert(window_violation(s, i2) is None);
            let d = ws[i2].cluster_id->0;
            lemma_same_ids(cs, cs2, d);
            lemma_has_cluster_pos(cs, d);
            let p = cluster_pos(cs, d);
            if p != kt {
                assert(cs2[p] == cs[p]);
            }
        }
    }
    assert forall|k: int| 0 <= k < cs2.len() implies #[trigger] cluster_clean(s2, k) by {
        assert(cluster_clean(s, k));
        lemma_list_from_clean(s, k);
        assert forall|x: u64| #[trigger] cs2[k].windows.contains(x) implies has_window(ws2, x) by {
            if k == kt && x == wid {
            } else if k == kt {
                assert(cs[kt].windows.contains(x));
            } else {
                assert(cs2[k] == cs[k]);
            }
        }
        if k == kt {
            let l = cs[kt].windows;
            assert forall|p1: int, p2: int| 0 <= p1 < l.push(wid).len() && 0 <= p2 < l.push(wid).len() && p1 != p2
                implies l.push(wid)[p1] != l.push(wid)[p2] by {
                if p1 < l.len() && p2 < l.len() {
                } else if p1 < l.len() {
                    assert(l.contains(l[p1]));
                } else {
                    assert(l.contains(l[p2]));
                }
            }
        } else {
            assert(cs2[k] == cs[k]);
        }
        lemma_clean_from_list(s2, k);
    }
    assert forall|i1: int, i2: int| 0 <= i1 < ws2.len() && 0 <= i2 < ws2.len() && i1 != i2 implies #[trigger] ws2[i1].id != #[trigger] ws2[i2].id by {
        if i1 < ws.len() && i2 < ws.len() {
            assert(ws[i1].id != ws[i2].id);
        } else if i1 < ws.len() {
            assert(ws[i1].id != wid);
        } else {
            assert(ws[i2].id != wid);
        }
    }
    assert forall|k: int, i2: int|
        0 <= k < cs2.len() && 0 <= i2 < ws2.len() && #[trigger] cs2[k].windows.contains(
            #[trigger] ws2[i2].id,
        ) implies ws2[i2].cluster_id == Some(cs2[k].id) by {
        lemma_list_from_clean(s, k);
        assert(cluster_clean(s, k));
        if i2 == ws.len() {
            if k != kt {
                assert(cs2[k] == cs[k]);
                assert(cs[k].windows.contains(wid));
            }
        } else {
            assert(ws2[i2] == ws[i2]);
            assert(ws[i2].id != wid);
            if k == kt {
                assert(cs[kt].windows.contains(ws[i2].id));
            } else {
                assert(cs2[k] == cs[k]);
            }
        }
    }
    lemma_invariant_error_none(s2, a);
}

/// A focus change on a tracked window succeeds in a consistent model and
/// keeps it consistent; tidiness is kept too.
pub proof fn law_focus_keeps_model<P>(m: ModelView<P>, w: WindowId)
    requires
        model_ok(m),
        has_window(m.state.windows, w),
    ensures
        focus_outcome(m, w).1 is Ok,
        model_ok(focus_outcome(m, w).0),
        tidy(m.state) ==> tidy(focus_outcome(m, w).0.state),
{
    let s = m.state;
    let cs = s.clusters;
    let ws = s.windows;
    lemma_has_window_pos(ws, w);
    let i = window_pos(ws, w);
    assert(window_violation(s, i) is None);
    let c = ws[i].cluster_id->0;
    lemma_has_cluster_pos(cs, c);
    let k = cluster_pos(cs, c);
    let o = focus_outcome(m, w);
    let s2 = o.0.state;
    assert(s2.clusters == cs.update(k, focus_in_cluster(cs[k], w)));
    assert(same_ids(cs, s2.clusters));
    lemma_same_ids(cs, s2.clusters, c);
    assert forall|j: int| 0 <= j < cs.len() implies #[trigger] s2.clusters[j].windows == cs[j].windows by {
    }
    lemma_same_shape_local(s, s2, c);
    assert(well_formed(s, c)) by {
        assert(has_cluster(cs, c));
    }
    lemma_invariant_error_none(s2, c);
    if tidy(s) {
        assert forall|k2: int, i2: int|
            0 <= k2 < s2.clusters.len() && 0 <= i2 < s2.windows.len() && #[trigger] s2.clusters[k2].windows.contains(
                #[trigger] s2.windows[i2].id,
            ) implies s2.windows[i2].cluster_id == Some(s2.clusters[k2].id) by {
            assert(cs[k2].windows.contains(ws[i2].id));
        }
    }
}


/// Forgetting a tracked window succeeds in a tidy, consistent model, and
/// leaves the model tidy and consistent.
pub proof fn law_close_keeps_model<P>(m: ModelView<P>, w: WindowId)
    requires
        model_ok(m),
        tidy(m.state),
        has_window(m.state.windows, w),
    ensures
        close_outcome(m, w).1 is Ok,
        model_ok(close_outcome(m, w).0),
        tidy(close_outcome(m, w).0.state),
{
    let s = m.state;
    let cs = s.clusters;
    let ws = s.windows;
    let a = m.active_cluster;
    lemma_has_window_pos(ws, w);
    let i = window_pos(ws, w);
    assert(window_violation(s, i) is None);
    let c = ws[i].cluster_id->0;
    lemma_has_cluster_pos(cs, c);
    let k = cluster_pos(cs, c);
    let o = close_outcome(m, w);
    let s2 = o.0.state;
    let cs2 = s2.clusters;
    let ws2 = s2.windows;
    assert(ws2 == ws.remove(i));
    assert(cs2 == cs.update(k, detach_window(cs[k], w)));
    assert(same_ids(cs, cs2));
    lemma_same_ids(cs, cs2, a);
    assert forall|j: int| 0 <= j < ws2.len() implies #[trigger] ws2[j] == ws[if j < i { j } else { j + 1 }] by {
    }
    assert forall|x: u64| has_window(ws, x) && x != w implies has_window(ws2, x) by {
        let j = choose|j: int| 0 <= j < ws.len() && ws[j].id == x;
        if j < i {
            assert(ws2[j].id == x);
        } else {
            assert(j != i);
            assert(ws2[j - 1].id == x);
        }
    }
    assert forall|i2: int| 0 <= i2 < ws2.len() implies #[trigger] window_violation(s2, i2) is None by {
        let j = if i2 < i { i2 } else { i2 + 1 };
        assert(ws2[i2] == ws[j]);
        assert(window_violation(s, j) is None);
        assert(ws[j].id != ws[i].id);
        let d = ws[j].cluster_id->0;
        lemma_same_ids(cs, cs2, d);
        lemma_has_cluster_pos(cs, d);
        let p = cluster_pos(cs, d);
        if p == k {
            lemma_remove_all_contains(cs[k].windows, w, ws[j].id);
        } else {
            assert(cs2[p] == cs[p]);
        }
    }
    assert forall|k2: int| 0 <= k2 < cs2.len() implies #[trigger] cluster_clean(s2, k2) by {
        assert(cluster_clean(s, k2));
        lemma_list_from_clean(s, k2);
        assert forall|x: u64| #[trigger] cs2[k2].windows.contains(x) implies has_window(ws2, x) by {
            if k2 == k {
                lemma_remove_all_contains(cs[k].windows, w, x);
            } else {
                assert(cs2[k2] == cs[k2]);
                if x == w {
                    assert(cs[k2].windows.contains(ws[i].id));
                    lemma_unique_cluster_pos(cs, k2);
                }
            }
        }
        if k2 == k {
            lemma_remove_all_no_duplicates(cs[k].windows, w);
        } else {
            assert(cs2[k2] == cs[k2]);
        }
        lemma_clean_from_list(s2, k2);
    }
    assert forall|i1: int, i2: int| 0 <= i1 < ws2.len() && 0 <= i2 < ws2.len() && i1 != i2 implies #[trigger] ws2[i1].id != #[trigger] ws2[i2].id by {
        let j1 = if i1 < i { i1 } else { i1 + 1 };
        let j2 = if i2 < i { i2 } else { i2 + 1 };
        assert(ws[j1].id != ws[j2].id);
    }
    assert forall|k2: int, i2: int|
        0 <= k2 < cs2.len() && 0 <= i2 < ws2.len() && #[trigger] cs2[k2].windows.contains(
            #[trigger] ws2[i2].id,
        ) implies ws2[i2].cluster_id == Some(cs2[k2].id) by {
        let j = if i2 < i { i2 } else { i2 + 1 };
        assert(ws2[i2] == ws[j]);
        assert(ws[j].id != ws[i].id);
        if k2 == k {
            lemma_remove_all_contains(cs[k].windows, w, ws[j].id);
            assert(cs[k].windows.contains(ws[j].id));
        } else {
            assert(cs2[k2] == cs[k2]);
            assert(cs[k2].windows.contains(ws[j].id));
        }
    }
    lemma_invariant_error_none(s2, a);
}


proof fn lemma_drain<P>(m0: ModelView<P>, existing: Seq<WindowId>, fb: ClusterId, id: ClusterId, j: int)
    requires
        model_ok(m0),
        tidy(m0.state),
        has_cluster(m0.state.clusters, id),
        existing == m0.state.clusters[cluster_pos(m0.state.clusters, id)].windows,
        fb != id,
        has_cluster(m0.state.clusters, fb),
        0 <= j <= existing.len(),
    ensures
        ({
            let r = reassign_all(m0, existing.take(j), fb);
            &&& r.1 is None
            &&& model_ok(r.0)
            &&& tidy(r.0.state)
            &&& same_ids(m0.state.clusters, r.0.state.clusters)
            &&& r.0.active_cluster == m0.active_cluster
            &&& r.0.state.clusters[cluster_pos(m0.state.clusters, id)].windows == existing.subrange(
                j,
                existing.len() as int,
            )
        }),
    decreases j,
{
    let cs0 = m0.state.clusters;
    lemma_has_cluster_pos(cs0, id);
    let idx = cluster_pos(cs0, id);
    if j == 0 {
        assert(existing.take(0) =~= Seq::<u64>::empty());
        assert(existing.subrange(0, existing.len() as int) =~= existing);
        assert(same_ids(cs0, cs0));
    } else {
        lemma_drain(m0, existing, fb, id, j - 1);
        let t = existing.take(j);
        assert(t.drop_last() =~= existing.take(j - 1));
        assert(t.last() == existing[j - 1]);
        let prev = reassign_all(m0, existing.take(j - 1), fb);
        let mj = prev.0;
        let sj = mj.state;
        let csj = sj.clusters;
        let w = existing[j - 1];
        let rest = existing.subrange(j - 1, existing.len() as int);
        assert(csj[idx].windows == rest);
        assert(rest[0] == w);
        assert(cluster_clean(sj, idx));
        lemma_list_from_clean(sj, idx);
        assert(rest.contains(w));
        assert(has_window(sj.windows, w));
        lemma_same_ids(cs0, csj, fb);
        lemma_same_ids(cs0, csj, id);
        law_reassign_keeps_model(mj, w, fb, false);
        lemma_reassign_keeps_ids(mj, w, fb, false);
        let o = reassign_outcome(mj, w, fb, false);
        assert(reassign_all(m0, t, fb) == (o.0, None::<crate::model::ModelError>));
        // the window belongs to cluster `id`
        lemma_has_window_pos(sj.windows, w);
        let i = window_pos(sj.windows, w);
        assert(csj[idx].windows.contains(sj.windows[i].id));
        assert(sj.windows[i].cluster_id == Some(id));
        lemma_has_cluster_pos(csj, fb);
        let k2 = cluster_pos(csj, fb);
        assert(k2 != idx);
        let cs1 = csj.update(idx, detach_window(csj[idx], w));
        assert(o.0.state.clusters == cs1.update(k2, attach_window(cs1[k2], w)));
        assert(o.0.state.clusters[idx] == detach_window(csj[idx], w));
        assert(!rest.drop_first().contains(w)) by {
            if rest.drop_first().contains(w) {
                let q = choose|q: int| 0 <= q < rest.drop_first().len() && rest.drop_first()[q] == w;
                assert(rest[q + 1] == rest[0]);
            }
        }
        lemma_remove_all_first(rest, w);
        assert(rest.drop_first() =~= existing.subrange(j, existing.len() as int));
        assert(same_ids(cs0, o.0.state.clusters)) by {
            assert forall|k: int| 0 <= k < cs0.len() implies #[trigger] cs0[k].id == o.0.state.clusters[k].id by {
                assert(csj[k].id == cs0[k].id);
            }
        }
    }
}

/// Removing an emptied cluster from a tidy, consistent model keeps it tidy
/// and consistent, unless it was the last cluster and the active one.
proof fn lemma_remove_empty_cluster<P>(m: ModelView<P>, id: ClusterId)
    requires
        model_ok(m),
        tidy(m.state),
        has_cluster(m.state.clusters, id),
        m.state.clusters[cluster_pos(m.state.clusters, id)].windows.len() == 0,
        !(m.active_cluster == id && m.state.clusters.len() == 1),
    ensures
        model_ok(remove_cluster_at(m, cluster_pos(m.state.clusters, id), id)),
        tidy(remove_cluster_at(m, cluster_pos(m.state.clusters, id), id).state),
{
    let s = m.state;
    let cs = s.clusters;
    let ws = s.windows;
    lemma_has_cluster_pos(cs, id);
    let idx = cluster_pos(cs, id);
    let m2 = remove_cluster_at(m, idx, id);
    let s2 = m2.state;
    let cs2 = s2.clusters;
    assert(cs2 == cs.remove(idx));
    assert(s2.windows == ws);
    assert forall|k: int| 0 <= k < cs2.len() implies #[trigger] cs2[k] == cs[if k < idx { k } else { k + 1 }] by {
    }
    assert forall|a: int, b: int| 0 <= a < cs2.len() && 0 <= b < cs2.len() && a != b implies #[trigger] cs2[a].id != #[trigger] cs2[b].id by {
        let a1 = if a < idx { a } else { a + 1 };
        let b1 = if b < idx { b } else { b + 1 };
        assert(cs[a1].id != cs[b1].id);
    }
    // a cluster other than `id` keeps its place, shifted
    assert forall|p: int| 0 <= p < cs.len() && p != idx implies has_cluster(cs2, #[trigger] cs[p].id)
        && cluster_pos(cs2, cs[p].id) == (if p < idx { p } else { p - 1 }) by {
        let q = if p < idx { p } else { p - 1 };
        assert(cs2[q] == cs[p]);
        lemma_unique_cluster_pos(cs2, q);
    }
    // the active cluster survives
    lemma_has_cluster_pos(cs, m.active_cluster);
    if m.active_cluster == id {
        assert(cs2.len() > 0);
        assert(m2.active_cluster == cs2[0].id);
        assert(has_cluster(cs2, cs2[0].id));
    } else {
        let pa = cluster_pos(cs, m.active_cluster);
        assert(pa != idx);
        assert(has_cluster(cs2, cs[pa].id));
    }
    assert forall|i: int| 0 <= i < s2.windows.len() implies #[trigger] window_violation(s2, i) is None by {
        assert(window_violation(s, i) is None);
        let d = ws[i].cluster_id->0;
        lemma_has_cluster_pos(cs, d);
        let p = cluster_pos(cs, d);
        assert(cs[p].windows.contains(ws[i].id));
        assert(p != idx);
        assert(has_cluster(cs2, cs[p].id));
    }
    assert forall|k: int| 0 <= k < cs2.len() implies #[trigger] cluster_clean(s2, k) by {
        let k1 = if k < idx { k } else { k + 1 };
        assert(cluster_clean(s, k1));
        lemma_list_from_clean(s, k1);
        lemma_clean_from_list(s2, k);
    }
    assert forall|k: int, i2: int|
        0 <= k < cs2.len() && 0 <= i2 < ws.len() && #[trigger] cs2[k].windows.contains(
            #[trigger] s2.windows[i2].id,
        ) implies s2.windows[i2].cluster_id == Some(cs2[k].id) by {
        let k1 = if k < idx { k } else { k + 1 };
        assert(cs[k1].windows.contains(ws[i2].id));
    }
    lemma_invariant_error_none(s2, m2.active_cluster);
}

/// Deleting a cluster succeeds in a tidy, consistent model when the
/// deletion mode allows it and the cluster is not the only, active one; the
/// model stays tidy and consistent.
pub proof fn law_delete_keeps_model<P>(m: ModelView<P>, id: ClusterId, mode: DeleteClusterMode)
    requires
        model_ok(m),
        tidy(m.state),
        has_cluster(m.state.clusters, id),
        match mode {
            DeleteClusterMode::BlockIfNonEmpty => m.state.clusters[cluster_pos(
                m.state.clusters,
                id,
            )].windows.len() == 0,
            DeleteClusterMode::ReassignTo { fallback_cluster } => fallback_cluster != id
                && has_cluster(m.state.clusters, fallback_cluster),
        },
        !(m.active_cluster == id && m.state.clusters.len() == 1),
    ensures
        delete_outcome(m, id, mode).1 is Ok,
        model_ok(delete_outcome(m, id, mode).0),
        tidy(delete_outcome(m, id, mode).0.state),
{
    let cs = m.state.clusters;
    lemma_has_cluster_pos(cs, id);
    let idx = cluster_pos(cs, id);
    let existing = cs[idx].windows;
    match mode {
        DeleteClusterMode::BlockIfNonEmpty => {
            lemma_remove_empty_cluster(m, id);
            let m2 = remove_cluster_at(m, idx, id);
            lemma_invariant_error_none(m2.state, m2.active_cluster);
        },
        DeleteClusterMode::ReassignTo { fallback_cluster } => {
            lemma_drain(m, existing, fallback_cluster, id, existing.len() as int);
            assert(existing.take(existing.len() as int) =~= existing);
            let mv = reassign_all(m, existing, fallback_cluster).0;
            lemma_same_ids(cs, mv.state.clusters, id);
            assert(mv.state.clusters[idx].windows =~= Seq::<u64>::empty());
            lemma_remove_empty_cluster(mv, id);
            let m2 = remove_cluster_at(mv, idx, id);
            lemma_invariant_error_none(m2.state, m2.active_cluster);
        },
    }
}

/// Creating a cluster under a new id keeps the model tidy: the new cluster
/// lists no window.
pub proof fn law_create_keeps_tidy<P>(m: ModelView<P>, id: ClusterId, name: Seq<char>, x: P, y: P)
    requires
        tidy(m.state),
        !has_cluster(m.state.clusters, id),
    ensures
        tidy(with_clusters(m, m.state.clusters.push(fresh_cluster(id, name, x, y))).state),
{
    let cs = m.state.clusters;
    let cs2 = cs.push(fresh_cluster(id, name, x, y));
    assert forall|a: int, b: int|
        0 <= a < cs2.len() && 0 <= b < cs2.len() && a != b implies #[trigger] cs2[a].id
            != #[trigger] cs2[b].id by {
        if a == cs.len() {
            assert(cs[b].id != id);
        } else if b == cs.len() {
            assert(cs[a].id != id);
        } else {
            assert(cs[a].id != cs[b].id);
        }
    }
}

/// Renaming or moving a cluster changes no id and no window list, so the
/// model stays tidy.
pub proof fn law_cluster_edit_keeps_tidy<P>(m: ModelView<P>, k: int, nc: ClusterView<P>)
    requires
        tidy(m.state),
        0 <= k < m.state.clusters.len(),
        nc.id == m.state.clusters[k].id,
        nc.windows == m.state.clusters[k].windows,
    ensures
        tidy(with_clusters(m, m.state.clusters.update(k, nc)).state),
{
    let cs = m.state.clusters;
    let cs2 = cs.update(k, nc);
    assert forall|a: int, b: int|
        0 <= a < cs2.len() && 0 <= b < cs2.len() && a != b implies #[trigger] cs2[a].id
            != #[trigger] cs2[b].id by {
        assert(cs[a].id != cs[b].id);
    }
    let s2 = with_clusters(m, cs2).state;
    assert forall|j: int, i: int|
        0 <= j < cs2.len() && 0 <= i < s2.windows.len() && #[trigger] cs2[j].windows.contains(
            #[trigger] s2.windows[i].id,
        ) implies s2.windows[i].cluster_id == Some(cs2[j].id) by {
        assert(cs[j].windows.contains(m.state.windows[i].id));
    }
}


/// A mutation of the canvas model that carries its own outcome.
pub enum ModelMutation {
    Reassign { window: WindowId, cluster: ClusterId, manual: bool },
    Open { window: Window, policy: OpenAssignPolicy },
    Close { window: WindowId },
    Focus { window: WindowId },
    Delete { cluster: ClusterId, mode: DeleteClusterMode },
}

/// The model and result a mutation gives.
pub open spec fn mutation_outcome<P>(m: ModelView<P>, op: ModelMutation) -> (
    ModelView<P>,
    Result<crate::model::MutationResult<P>, crate::model::ModelError>,
) {
    match op {
        ModelMutation::Reassign { window, cluster, manual } => reassign_outcome(m, window, cluster, manual),
        ModelMutation::Open { window, policy } => open_outcome(m, window, policy),
        ModelMutation::Close { window } => close_outcome(m, window),
        ModelMutation::Focus { window } => focus_outcome(m, window),
        ModelMutation::Delete { cluster, mode } => delete_outcome(m, cluster, mode),
    }
}

/// Starting from a consistent model, every mutation that succeeds leaves a
/// consistent model: `check_invariants` answers `Ok` after it.
pub proof fn law_mutations_keep_model<P>(m: ModelView<P>, op: ModelMutation)
    requires
        model_ok(m),
    ensures
        mutation_outcome(m, op).1 is Ok ==> model_ok(mutation_outcome(m, op).0),
{
    let m2 = mutation_outcome(m, op).0;
    lemma_invariant_error_none(m2.state, m2.active_cluster);
}

/// The cluster left by its last-focused window `w` refocuses on the most
/// recently focused window that remains.
proof fn lemma_detach_refocus<P>(c: ClusterView<P>, w: WindowId)
    requires
        c.last_focus == Some(w),
    ensures
        ({
            let d = detach_window(c, w);
            &&& d.id == c.id
            &&& d.recency.len() > 0 ==> d.last_focus == Some(d.recency[0])
            &&& d.recency.len() == 0 ==> d.last_focus is None
            &&& forall|j: int|
                0 <= j < c.recency.len() && c.recency[j] != w && (forall|i: int|
                    0 <= i < j ==> c.recency[i] == w) ==> d.last_focus == Some(#[trigger] c.recency[j])
        }),
{
    let d = detach_window(c, w);
    assert forall|j: int|
        0 <= j < c.recency.len() && c.recency[j] != w && (forall|i: int| 0 <= i < j ==> c.recency[i] == w)
        implies d.last_focus == Some(#[trigger] c.recency[j]) by {
        lemma_remove_all_head(c.recency, w, j);
    }
}

/// Closing the last-focused window of a cluster leaves the cluster focused
/// on the most recently focused window that remains: the first entry of
/// its new recency list, which is the first entry of the old list other
/// than the closed window; with no window left in that list, it has no last
/// focus.
pub proof fn law_close_refocuses_most_recent<P>(m: ModelView<P>, w: WindowId, c: ClusterId)
    requires
        has_window(m.state.windows, w),
        m.state.windows[window_pos(m.state.windows, w)].cluster_id == Some(c),
        has_cluster(m.state.clusters, c),
        m.state.clusters[cluster_pos(m.state.clusters, c)].last_focus == Some(w),
    ensures
        ({
            let k = cluster_pos(m.state.clusters, c);
            let before = m.state.clusters[k];
            let after = close_outcome(m, w).0.state.clusters[k];
            &&& after.id == c
            &&& after.recency.len() > 0 ==> after.last_focus == Some(after.recency[0])
            &&& after.recency.len() == 0 ==> after.last_focus is None
            &&& forall|j: int|
                0 <= j < before.recency.len() && before.recency[j] != w && (forall|i: int|
                    0 <= i < j ==> before.recency[i] == w) ==> after.last_focus == Some(
                    #[trigger] before.recency[j],
                )
        }),
{
    let cs = m.state.clusters;
    lemma_has_cluster_pos(cs, c);
    let k = cluster_pos(cs, c);
    lemma_detach_refocus(cs[k], w);
    assert(close_outcome(m, w).0.state.clusters[k] == detach_window(cs[k], w));
}

/// Moving the last-focused window of a cluster into another cluster leaves
/// the cluster it came from focused on the most recently focused window
/// that remains there, as closing it would.
pub proof fn law_move_refocuses_most_recent<P>(
    m: ModelView<P>,
    w: WindowId,
    cur: ClusterId,
    c: ClusterId,
    manual: bool,
)
    requires
        has_window(m.state.windows, w),
        m.state.windows[window_pos(m.state.windows, w)].cluster_id == Some(cur),
        cur != c,
        has_cluster(m.state.clusters, cur),
        has_cluster(m.state.clusters, c),
        m.state.clusters[cluster_pos(m.state.clusters, cur)].last_focus == Some(w),
    ensures
        ({
            let k = cluster_pos(m.state.clusters, cur);
            let before = m.state.clusters[k];
            let after = reassign_outcome(m, w, c, manual).0.state.clusters[k];
            &&& after.id == cur
            &&& after.recency.len() > 0 ==> after.last_focus == Some(after.recency[0])
            &&& after.recency.len() == 0 ==> after.last_focus is None
            &&& forall|j: int|
                0 <= j < before.recency.len() && before.recency[j] != w && (forall|i: int|
                    0 <= i < j ==> before.recency[i] == w) ==> after.last_focus == Some(
                    #[trigger] before.recency[j],
                )
        }),
{
    let cs = m.state.clusters;
    lemma_has_cluster_pos(cs, cur);
    lemma_has_cluster_pos(cs, c);
    let k = cluster_pos(cs, cur);
    let k2 = cluster_pos(cs, c);
    assert(k != k2);
    lemma_detach_refocus(cs[k], w);
    let cs1 = cs.update(k, detach_window(cs[k], w));
    let cs2 = cs1.update(k2, attach_window(cs1[k2], w));
    assert(cs2[k] == detach_window(cs[k], w));
    assert(reassign_outcome(m, w, c, manual).0.state.clusters == cs2);
}

} // verus!
