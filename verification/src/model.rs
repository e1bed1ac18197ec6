//! The canvas model: clusters, windows and the active cluster, with the
//! consistency rules that every mutation is checked against.

use vstd::prelude::*;

use crate::contracts::{
    CanvasState, CanvasView, Cluster, ClusterId, ClusterView, Window, WindowId, ZoomLevel,
};
use crate::seq_util::{
    dedupe, move_to_front, remove_all, vec_contains, vec_copy, vec_dedupe, vec_move_to_front,
    vec_without,
};

verus! {

broadcast use vstd::seq_lib::group_seq_properties;

#[derive(Debug, Clone, PartialEq, Eq)]
pub enum DeleteClusterMode {
    BlockIfNonEmpty,
    ReassignTo { fallback_cluster: ClusterId },
}

#[derive(Debug, Clone, PartialEq, Eq)]
pub enum OpenAssignPolicy {
    ActiveCluster,
    FallbackCluster(ClusterId),
}

#[derive(Debug, Clone, PartialEq, Eq)]
pub enum ModelInvariantError {
    WindowMissingCluster(WindowId),
    WindowReferencesUnknownCluster { window: WindowId, cluster: ClusterId },
    WindowMissingFromCluster { window: WindowId, cluster: ClusterId },
    UnknownWindowInCluster { window: WindowId, cluster: ClusterId },
    DuplicateWindowInCluster { window: WindowId, cluster: ClusterId },
    ActiveClusterDoesNotExist(ClusterId),
}

#[derive(Debug, Clone, PartialEq, Eq)]
pub enum ModelError {
    ClusterAlreadyExists(ClusterId),
    ClusterNameConflict(String),
    ClusterNotFound(ClusterId),
    WindowNotFound(WindowId),
    WindowAlreadyTracked(WindowId),
    ClusterNotEmpty { cluster: ClusterId, window_count: usize },
    InvalidFallbackCluster(ClusterId),
    ActiveClusterMissing,
    InvariantViolation(ModelInvariantError),
}

#[derive(Debug, Clone, PartialEq)]
pub enum MutationResult<P> {
    CreatedCluster(ClusterId),
    RenamedCluster { cluster: ClusterId, old_name: String, new_name: String },
    MovedCluster { cluster: ClusterId, old_x: P, old_y: P, new_x: P, new_y: P },
    DeletedCluster { cluster: ClusterId, reassigned_windows: usize },
    WindowAssignmentChanged {
        window: WindowId,
        old_cluster: ClusterId,
        new_cluster: ClusterId,
        manual_override: bool,
    },
    WindowAssignmentUnchanged { window: WindowId, cluster: ClusterId, manual_override: bool },
    WindowOpened { window: WindowId, cluster: ClusterId },
    WindowClosed { window: WindowId, cluster: ClusterId },
    WindowCloseNoop(WindowId),
    FocusUpdated { window: WindowId, cluster: ClusterId },
    FocusNoop(WindowId),
}

// ---------------------------------------------------------------------------
// Lookup by id: the first cluster (window) carrying a given id.
// ---------------------------------------------------------------------------

pub open spec fn has_cluster<P>(cs: Seq<ClusterView<P>>, id: ClusterId) -> bool {
    exists|k: int| 0 <= k < cs.len() && cs[k].id == id
}

pub open spec fn first_cluster<P>(cs: Seq<ClusterView<P>>, id: ClusterId, k: int) -> bool {
    &&& 0 <= k < cs.len()
    &&& cs[k].id == id
    &&& forall|j: int| 0 <= j < k ==> cs[j].id != id
}

/// Index of the first cluster with id `id` (meaningful when `has_cluster`).
pub open spec fn cluster_pos<P>(cs: Seq<ClusterView<P>>, id: ClusterId) -> int {
    choose|k: int| first_cluster(cs, id, k)
}

pub open spec fn has_window(ws: Seq<Window>, id: WindowId) -> bool {
    exists|i: int| 0 <= i < ws.len() && ws[i].id == id
}

pub open spec fn first_window(ws: Seq<Window>, id: WindowId, i: int) -> bool {
    &&& 0 <= i < ws.len()
    &&& ws[i].id == id
    &&& forall|j: int| 0 <= j < i ==> ws[j].id != id
}

/// Index of the first window with id `id` (meaningful when `has_window`).
pub open spec fn window_pos(ws: Seq<Window>, id: WindowId) -> int {
    choose|i: int| first_window(ws, id, i)
}

pub proof fn lemma_cluster_pos<P>(cs: Seq<ClusterView<P>>, id: ClusterId, k: int)
    requires
        first_cluster(cs, id, k),
    ensures
        cluster_pos(cs, id) == k,
        has_cluster(cs, id),
{
}

pub proof fn lemma_has_cluster_pos<P>(cs: Seq<ClusterView<P>>, id: ClusterId)
    requires
        has_cluster(cs, id),
    ensures
        first_cluster(cs, id, cluster_pos(cs, id)),
    decreases cs.len(),
{
    let k = choose|k: int| 0 <= k < cs.len() && cs[k].id == id;
    if exists|j: int| 0 <= j < k && cs[j].id == id {
        let j = choose|j: int| 0 <= j < k && cs[j].id == id;
        let t = cs.take(k);
        assert(t[j].id == id);
        lemma_has_cluster_pos(t, id);
        let f = cluster_pos(t, id);
        assert forall|i: int| 0 <= i < f implies cs[i].id != id by {
            assert(t[i] == cs[i]);
        }
        assert(t[f] == cs[f]);
        assert(first_cluster(cs, id, f));
    } else {
        assert(first_cluster(cs, id, k));
    }
}

pub proof fn lemma_window_pos(ws: Seq<Window>, id: WindowId, i: int)
    requires
        first_window(ws, id, i),
    ensures
        window_pos(ws, id) == i,
        has_window(ws, id),
{
}

pub proof fn lemma_has_window_pos(ws: Seq<Window>, id: WindowId)
    requires
        has_window(ws, id),
    ensures
        first_window(ws, id, window_pos(ws, id)),
    decreases ws.len(),
{
    let k = choose|k: int| 0 <= k < ws.len() && ws[k].id == id;
    if exists|j: int| 0 <= j < k && ws[j].id == id {
        let j = choose|j: int| 0 <= j < k && ws[j].id == id;
        let t = ws.take(k);
        assert(t[j].id == id);
        lemma_has_window_pos(t, id);
        let f = window_pos(t, id);
        assert forall|i: int| 0 <= i < f implies ws[i].id != id by {
            assert(t[i] == ws[i]);
        }
        assert(t[f] == ws[f]);
        assert(first_window(ws, id, f));
    } else {
        assert(first_window(ws, id, k));
    }
}

/// Two cluster sequences that carry the same ids at the same places.
pub open spec fn same_ids<P>(a: Seq<ClusterView<P>>, b: Seq<ClusterView<P>>) -> bool {
    &&& a.len() == b.len()
    &&& forall|k: int| 0 <= k < a.len() ==> #[trigger] a[k].id == b[k].id
}

pub proof fn lemma_same_ids<P>(a: Seq<ClusterView<P>>, b: Seq<ClusterView<P>>, id: ClusterId)
    requires
        same_ids(a, b),
    ensures
        has_cluster(a, id) == has_cluster(b, id),
        has_cluster(a, id) ==> cluster_pos(a, id) == cluster_pos(b, id),
{
    if has_cluster(a, id) {
        lemma_has_cluster_pos(a, id);
        let k = cluster_pos(a, id);
        assert(b[k].id == id);
        assert forall|j: int| 0 <= j < k implies b[j].id != id by {
            assert(a[j].id == b[j].id);
        }
        assert(first_cluster(b, id, k));
        lemma_cluster_pos(b, id, k);
    }
    if has_cluster(b, id) {
        let k = choose|k: int| 0 <= k < b.len() && b[k].id == id;
        assert(a[k].id == id);
    }
}

/// Two window sequences that carry the same ids at the same places.
pub open spec fn same_window_ids(a: Seq<Window>, b: Seq<Window>) -> bool {
    &&& a.len() == b.len()
    &&& forall|i: int| 0 <= i < a.len() ==> #[trigger] a[i].id == b[i].id
}

pub proof fn lemma_same_window_ids(a: Seq<Window>, b: Seq<Window>, id: WindowId)
    requires
        same_window_ids(a, b),
    ensures
        has_window(a, id) == has_window(b, id),
        has_window(a, id) ==> window_pos(a, id) == window_pos(b, id),
{
    if has_window(a, id) {
        lemma_has_window_pos(a, id);
        let k = window_pos(a, id);
        assert(b[k].id == id);
        assert forall|j: int| 0 <= j < k implies b[j].id != id by {
            assert(a[j].id == b[j].id);
        }
        assert(first_window(b, id, k));
        lemma_window_pos(b, id, k);
    }
    if has_window(b, id) {
        let k = choose|k: int| 0 <= k < b.len() && b[k].id == id;
        assert(a[k].id == id);
    }
}

// ---------------------------------------------------------------------------
// The consistency rules.
// ---------------------------------------------------------------------------

/// What is wrong with window `i`, if anything.
pub open spec fn window_violation<P>(s: CanvasView<P>, i: int) -> Option<ModelInvariantError> {
    let w = s.windows[i];
    match w.cluster_id {
        None => Some(ModelInvariantError::WindowMissingCluster(w.id)),
        Some(c) => if !has_cluster(s.clusters, c) {
            Some(ModelInvariantError::WindowReferencesUnknownCluster { window: w.id, cluster: c })
        } else if !s.clusters[cluster_pos(s.clusters, c)].windows.contains(w.id) {
            Some(ModelInvariantError::WindowMissingFromCluster { window: w.id, cluster: c })
        } else {
            None
        },
    }
}

/// What is wrong with entry `j` of cluster `k`'s window list, if anything.
pub open spec fn entry_violation<P>(s: CanvasView<P>, k: int, j: int) -> Option<
    ModelInvariantError,
> {
    let c = s.clusters[k];
    let id = c.windows[j];
    if !has_window(s.windows, id) {
        Some(ModelInvariantError::UnknownWindowInCluster { window: id, cluster: c.id })
    } else if c.windows.take(j).contains(id) {
        Some(ModelInvariantError::DuplicateWindowInCluster { window: id, cluster: c.id })
    } else {
        None
    }
}

pub open spec fn windows_clean_upto<P>(s: CanvasView<P>, n: int) -> bool {
    forall|i: int| 0 <= i < n ==> #[trigger] window_violation(s, i) is None
}

pub open spec fn cluster_clean_upto<P>(s: CanvasView<P>, k: int, n: int) -> bool {
    forall|j: int| 0 <= j < n ==> #[trigger] entry_violation(s, k, j) is None
}

pub open spec fn cluster_clean<P>(s: CanvasView<P>, k: int) -> bool {
    cluster_clean_upto(s, k, s.clusters[k].windows.len() as int)
}

pub open spec fn clusters_clean_upto<P>(s: CanvasView<P>, n: int) -> bool {
    forall|k: int| 0 <= k < n ==> #[trigger] cluster_clean(s, k)
}

pub open spec fn first_bad_window<P>(s: CanvasView<P>, i: int) -> bool {
    0 <= i < s.windows.len() && window_violation(s, i) is Some && windows_clean_upto(s, i)
}

pub open spec fn first_bad_entry<P>(s: CanvasView<P>, k: int, j: int) -> bool {
    &&& 0 <= k < s.clusters.len()
    &&& clusters_clean_upto(s, k)
    &&& 0 <= j < s.clusters[k].windows.len()
    &&& entry_violation(s, k, j) is Some
    &&& cluster_clean_upto(s, k, j)
}

/// The error `check_invariants` reports for state `s` with active cluster
/// `active`: the active cluster first, then the windows in order, then the
/// clusters' window lists in order; `None` when every rule holds.
pub open spec fn invariant_error<P>(s: CanvasView<P>, active: ClusterId) -> Option<
    ModelInvariantError,
> {
    if !has_cluster(s.clusters, active) {
        Some(ModelInvariantError::ActiveClusterDoesNotExist(active))
    } else if exists|i: int| first_bad_window(s, i) {
        window_violation(s, choose|i: int| first_bad_window(s, i))
    } else if exists|k: int, j: int| first_bad_entry(s, k, j) {
        let (k, j) = choose|k: int, j: int| first_bad_entry(s, k, j);
        entry_violation(s, k, j)
    } else {
        None
    }
}

/// Every rule holds: the active cluster exists, every window belongs to an
/// existing cluster that lists it, and every cluster lists known windows
/// without repetition.
pub open spec fn well_formed<P>(s: CanvasView<P>, active: ClusterId) -> bool {
    &&& has_cluster(s.clusters, active)
    &&& windows_clean_upto(s, s.windows.len() as int)
    &&& clusters_clean_upto(s, s.clusters.len() as int)
}

pub proof fn lemma_invariant_error_none<P>(s: CanvasView<P>, active: ClusterId)
    ensures
        invariant_error(s, active) is None <==> well_formed(s, active),
{
    if has_cluster(s.clusters, active) {
        if !windows_clean_upto(s, s.windows.len() as int) {
            let i = choose|i: int| 0 <= i < s.windows.len() && window_violation(s, i) is Some;
            lemma_first_bad_window(s, i);
        } else if !clusters_clean_upto(s, s.clusters.len() as int) {
            let k = choose|k: int| 0 <= k < s.clusters.len() && !cluster_clean(s, k);
            lemma_first_bad_entry(s, k);
        }
        if exists|i: int| first_bad_window(s, i) {
            let i = choose|i: int| first_bad_window(s, i);
            assert(!windows_clean_upto(s, s.windows.len() as int));
        }
        if exists|k: int, j: int| first_bad_entry(s, k, j) {
            let (k, j) = choose|k: int, j: int| first_bad_entry(s, k, j);
            assert(!cluster_clean(s, k));
        }
    }
}

proof fn lemma_first_bad_window<P>(s: CanvasView<P>, i: int)
    requires
        0 <= i < s.windows.len(),
        window_violation(s, i) is Some,
    ensures
        exists|i2: int| first_bad_window(s, i2),
    decreases i,
{
    if !windows_clean_upto(s, i) {
        let i2 = choose|i2: int| 0 <= i2 < i && window_violation(s, i2) is Some;
        lemma_first_bad_window(s, i2);
    } else {
        assert(first_bad_window(s, i));
    }
}

proof fn lemma_first_bad_entry<P>(s: CanvasView<P>, k: int)
    requires
        0 <= k < s.clusters.len(),
        !cluster_clean(s, k),
    ensures
        exists|k2: int, j2: int| first_bad_entry(s, k2, j2),
    decreases k,
{
    if !clusters_clean_upto(s, k) {
        let k2 = choose|k2: int| 0 <= k2 < k && !cluster_clean(s, k2);
        lemma_first_bad_entry(s, k2);
    } else {
        let j = choose|j: int|
            0 <= j < s.clusters[k].windows.len() && entry_violation(s, k, j) is Some;
        lemma_first_bad_entry_in(s, k, j);
    }
}

proof fn lemma_first_bad_entry_in<P>(s: CanvasView<P>, k: int, j: int)
    requires
        0 <= k < s.clusters.len(),
        clusters_clean_upto(s, k),
        0 <= j < s.clusters[k].windows.len(),
        entry_violation(s, k, j) is Some,
    ensures
        exists|k2: int, j2: int| first_bad_entry(s, k2, j2),
    decreases j,
{
    if !cluster_clean_upto(s, k, j) {
        let j2 = choose|j2: int| 0 <= j2 < j && entry_violation(s, k, j2) is Some;
        lemma_first_bad_entry_in(s, k, j2);
    } else {
        assert(first_bad_entry(s, k, j));
    }
}

/// Outcome of a mutation that produced `result` and left state `s`: the
/// state is checked again and an inconsistency turns into an error.
pub open spec fn validated<P>(s: CanvasView<P>, active: ClusterId, result: MutationResult<P>) -> Result<
    MutationResult<P>,
    ModelError,
> {
    match invariant_error(s, active) {
        Some(e) => Err(ModelError::InvariantViolation(e)),
        None => Ok(result),
    }
}

// ---------------------------------------------------------------------------
// Executable lookups.
// ---------------------------------------------------------------------------

pub(crate) fn find_cluster<P>(clusters: &Vec<Cluster<P>>, id: ClusterId) -> (r: Option<usize>)
    ensures
        match r {
            Some(k) => {
                &&& first_cluster(clusters@.map_values(|c: Cluster<P>| c@), id, k as int)
                &&& k == cluster_pos(clusters@.map_values(|c: Cluster<P>| c@), id)
                &&& has_cluster(clusters@.map_values(|c: Cluster<P>| c@), id)
            },
            None => !has_cluster(clusters@.map_values(|c: Cluster<P>| c@), id),
        },
{
    let ghost cs = clusters@.map_values(|c: Cluster<P>| c@);
    let mut k: usize = 0;
    while k < clusters.len()
        invariant
            k <= clusters.len(),
            cs == clusters@.map_values(|c: Cluster<P>| c@),
            forall|j: int| 0 <= j < k ==> cs[j].id != id,
        decreases clusters.len() - k,
    {
        if clusters[k].id == id {
            proof {
                lemma_cluster_pos(cs, id, k as int);
            }
            return Some(k);
        }
        k += 1;
    }
    None
}

pub(crate) fn find_window(windows: &Vec<Window>, id: WindowId) -> (r: Option<usize>)
    ensures
        match r {
            Some(i) => {
                &&& first_window(windows@, id, i as int)
                &&& i == window_pos(windows@, id)
                &&& has_window(windows@, id)
            },
            None => !has_window(windows@, id),
        },
{
    let mut i: usize = 0;
    while i < windows.len()
        invariant
            i <= windows.len(),
            forall|j: int| 0 <= j < i ==> windows@[j].id != id,
        decreases windows.len() - i,
    {
        if windows[i].id == id {
            proof {
                lemma_window_pos(windows@, id, i as int);
            }
            return Some(i);
        }
        i += 1;
    }
    None
}

/// The rules of the model, as `check_invariants` checks them.
pub fn check_canvas<P>(state: &CanvasState<P>, active_cluster: ClusterId) -> (r: Result<
    (),
    ModelInvariantError,
>)
    ensures
        match r {
            Ok(()) => invariant_error(state@, active_cluster) is None,
            Err(e) => invariant_error(state@, active_cluster) == Some(e),
        },
{
    let ghost s = state@;
    if find_cluster(&state.clusters, active_cluster).is_none() {
        return Err(ModelInvariantError::ActiveClusterDoesNotExist(active_cluster));
    }
    let mut i: usize = 0;
    while i < state.windows.len()
        invariant
            s == state@,
            has_cluster(s.clusters, active_cluster),
            i <= state.windows.len(),
            windows_clean_upto(s, i as int),
        decreases state.windows.len() - i,
    {
        let window = &state.windows[i];
        let bad = match window.cluster_id {
            None => Some(ModelInvariantError::WindowMissingCluster(window.id)),
            Some(cluster) => match find_cluster(&state.clusters, cluster) {
                None => Some(
                    ModelInvariantError::WindowReferencesUnknownCluster {
                        window: window.id,
                        cluster,
                    },
                ),
                Some(k) => {
                    if !vec_contains(&state.clusters[k].windows, window.id) {
                        Some(
                            ModelInvariantError::WindowMissingFromCluster {
                                window: window.id,
                                cluster,
                            },
                        )
                    } else {
                        None
                    }
                },
            },
        };
        assert(bad == window_violation(s, i as int));
        if let Some(e) = bad {
            proof {
                assert(first_bad_window(s, i as int));
            }
            return Err(e);
        }
        i += 1;
    }
    let mut k: usize = 0;
    while k < state.clusters.len()
        invariant
            s == state@,
            has_cluster(s.clusters, active_cluster),
            windows_clean_upto(s, s.windows.len() as int),
            k <= state.clusters.len(),
            clusters_clean_upto(s, k as int),
        decreases state.clusters.len() - k,
    {
        let cluster = &state.clusters[k];
        let mut j: usize = 0;
        while j < cluster.windows.len()
            invariant
                s == state@,
                has_cluster(s.clusters, active_cluster),
                windows_clean_upto(s, s.windows.len() as int),
                k < state.clusters.len(),
                cluster == &state.clusters@[k as int],
                clusters_clean_upto(s, k as int),
                j <= cluster.windows.len(),
                cluster_clean_upto(s, k as int, j as int),
            decreases cluster.windows.len() - j,
        {
            let window_id = cluster.windows[j];
            let bad = if find_window(&state.windows, window_id).is_none() {
                Some(ModelInvariantError::UnknownWindowInCluster { window: window_id, cluster: cluster.id })
            } else {
                let mut seen = false;
                let mut m: usize = 0;
                while m < j
                    invariant
                        j < cluster.windows.len(),
                        m <= j,
                        seen == cluster.windows@.take(m as int).contains(window_id),
                    decreases j - m,
                {
                    if cluster.windows[m] == window_id {
                        seen = true;
                    }
                    assert(cluster.windows@.take(m as int + 1) =~= cluster.windows@.take(
                        m as int,
                    ).push(cluster.windows@[m as int]));
                    m += 1;
                }
                assert(cluster.windows@.take(j as int) =~= cluster.windows@.take(m as int));
                if seen {
                    Some(
                        ModelInvariantError::DuplicateWindowInCluster {
                            window: window_id,
                            cluster: cluster.id,
                        },
                    )
                } else {
                    None
                }
            };
            assert(bad == entry_violation(s, k as int, j as int));
            if let Some(e) = bad {
                proof {
                    assert(first_bad_entry(s, k as int, j as int));
                    assert(!exists|i: int| first_bad_window(s, i));
                    let (k2, j2) = choose|k2: int, j2: int| first_bad_entry(s, k2, j2);
                    if k2 < k {
                        assert(cluster_clean(s, k2));
                    } else if k2 > k {
                        assert(cluster_clean(s, k as int));
                    } else if j2 < j {
                    } else if j2 > j {
                    }
                    assert(k2 == k && j2 == j);
                }
                return Err(e);
            }
            j += 1;
        }
        k += 1;
    }
    proof {
        lemma_invariant_error_none(s, active_cluster);
    }
    Ok(())
}


// ---------------------------------------------------------------------------
// What the mutations do to a cluster.
// ---------------------------------------------------------------------------

/// `w` leaves cluster `c`: it drops out of the window list and the recency
/// order, and a last focus on `w` falls back to the most recent remaining
/// window.
pub open spec fn detach_window<P>(c: ClusterView<P>, w: WindowId) -> ClusterView<P> {
    let recency = remove_all(c.recency, w);
    ClusterView {
        windows: remove_all(c.windows, w),
        recency: recency,
        last_focus: if c.last_focus == Some(w) {
            if recency.len() > 0 {
                Some(recency[0])
            } else {
                None
            }
        } else {
            c.last_focus
        },
        ..c
    }
}

/// `w` is focused inside cluster `c`: most recent and last focused.
pub open spec fn focus_in_cluster<P>(c: ClusterView<P>, w: WindowId) -> ClusterView<P> {
    ClusterView { last_focus: Some(w), recency: move_to_front(c.recency, w), ..c }
}

/// `w` joins cluster `c` (at the end, if not listed yet) and is focused there.
pub open spec fn attach_window<P>(c: ClusterView<P>, w: WindowId) -> ClusterView<P> {
    ClusterView {
        windows: if c.windows.contains(w) {
            c.windows
        } else {
            c.windows.push(w)
        },
        ..focus_in_cluster(c, w)
    }
}

/// Elements of `s` that are non-zero and listed in `pool`, in order.
pub open spec fn known_nonzero(s: Seq<u64>, pool: Seq<u64>) -> Seq<u64>
    decreases s.len(),
{
    if s.len() == 0 {
        s
    } else {
        let r = known_nonzero(s.drop_last(), pool);
        if s.last() != 0 && pool.contains(s.last()) {
            r.push(s.last())
        } else {
            r
        }
    }
}

/// Appends the elements of `ws` missing from `r`, starting from the end of
/// `ws`.
pub open spec fn append_missing_rev(r: Seq<u64>, ws: Seq<u64>) -> Seq<u64>
    decreases ws.len(),
{
    if ws.len() == 0 {
        r
    } else {
        let r1 = if r.contains(ws.last()) {
            r
        } else {
            r.push(ws.last())
        };
        append_missing_rev(r1, ws.drop_last())
    }
}

/// The metadata defaults a cluster gets when a model is built: repeated
/// windows are dropped, the recency order keeps only listed non-zero ids and
/// is completed with the remaining windows from the last one backwards, and
/// a missing last focus becomes the most recent window.
pub open spec fn normalize_cluster<P>(c: ClusterView<P>) -> ClusterView<P> {
    let windows = dedupe(c.windows);
    let recency = append_missing_rev(known_nonzero(c.recency, windows), windows);
    ClusterView {
        windows: windows,
        recency: recency,
        last_focus: if c.last_focus is None {
            if recency.len() > 0 {
                Some(recency[0])
            } else {
                None
            }
        } else {
            c.last_focus
        },
        ..c
    }
}

pub open spec fn normalize_canvas<P>(s: CanvasView<P>) -> CanvasView<P> {
    CanvasView { clusters: s.clusters.map_values(|c: ClusterView<P>| normalize_cluster(c)), ..s }
}

pub proof fn lemma_reinsert<P>(before: Seq<Cluster<P>>, k: int, c: Cluster<P>)
    requires
        0 <= k < before.len(),
    ensures
        before.remove(k).insert(k, c).map_values(|x: Cluster<P>| x@) == before.map_values(
            |x: Cluster<P>| x@,
        ).update(k, c@),
{
    assert(before.remove(k).insert(k, c).map_values(|x: Cluster<P>| x@) =~= before.map_values(
        |x: Cluster<P>| x@,
    ).update(k, c@));
}

pub proof fn lemma_reinsert_window(before: Seq<Window>, i: int, w: Window)
    requires
        0 <= i < before.len(),
    ensures
        before.remove(i).insert(i, w) == before.update(i, w),
{
    assert(before.remove(i).insert(i, w) =~= before.update(i, w));
}

fn normalize_cluster_exec<P>(c: &mut Cluster<P>)
    ensures
        final(c)@ == normalize_cluster(old(c)@),
{
    let windows = vec_dedupe(&c.windows);
    let mut recency: Vec<WindowId> = Vec::new();
    let mut i: usize = 0;
    while i < c.recency.len()
        invariant
            i <= c.recency.len(),
            recency@ == known_nonzero(c.recency@.take(i as int), windows@),
        decreases c.recency.len() - i,
    {
        assert(c.recency@.take(i as int + 1).drop_last() =~= c.recency@.take(i as int));
        let id = c.recency[i];
        if id != 0 && vec_contains(&windows, id) {
            recency.push(id);
        }
        i += 1;
    }
    assert(c.recency@.take(c.recency.len() as int) =~= c.recency@);
    let ghost kept = recency@;
    let mut idx: usize = windows.len();
    while idx > 0
        invariant
            idx <= windows.len(),
            append_missing_rev(recency@, windows@.take(idx as int)) == append_missing_rev(
                kept,
                windows@,
            ),
        decreases idx,
    {
        assert(windows@.take(idx as int).drop_last() =~= windows@.take(idx as int - 1));
        idx -= 1;
        let id = windows[idx];
        if !vec_contains(&recency, id) {
            recency.push(id);
        }
    }
    assert(windows@.take(0) =~= Seq::<u64>::empty());
    if c.last_focus.is_none() {
        c.last_focus = if recency.len() > 0 {
            Some(recency[0])
        } else {
            None
        };
    }
    c.windows = windows;
    c.recency = recency;
}

fn normalize_canvas_exec<P>(state: &mut CanvasState<P>)
    ensures
        final(state)@ == normalize_canvas(old(state)@),
{
    let ghost start = state@;
    let mut k: usize = 0;
    while k < state.clusters.len()
        invariant
            k <= state.clusters.len(),
            state@.clusters.len() == start.clusters.len(),
            state@.state_revision == start.state_revision,
            state@.zoom == start.zoom,
            state@.windows == start.windows,
            forall|j: int| 0 <= j < k ==> state@.clusters[j] == normalize_cluster(start.clusters[j]),
            forall|j: int| k <= j < state@.clusters.len() ==> state@.clusters[j] == start.clusters[j],
        decreases state.clusters.len() - k,
    {
        let ghost before = state.clusters@;
        let mut c = state.clusters.remove(k);
        normalize_cluster_exec(&mut c);
        state.clusters.insert(k, c);
        proof {
            lemma_reinsert(before, k as int, c);
        }
        k += 1;
    }
    assert(state@.clusters =~= normalize_canvas(start).clusters);
}


// ---------------------------------------------------------------------------
// The model.
// ---------------------------------------------------------------------------

/// Cluster and window bookkeeping of the canvas, together with the active
/// cluster. Every mutation re-checks the consistency rules.
#[derive(Debug, Clone)]
pub struct CanvasModel<P> {
    state: CanvasState<P>,
    active_cluster: ClusterId,
}

/// Mathematical view of a model.
pub struct ModelView<P> {
    pub state: CanvasView<P>,
    pub active_cluster: ClusterId,
}

impl<P> View for CanvasModel<P> {
    type V = ModelView<P>;

    closed spec fn view(&self) -> ModelView<P> {
        ModelView { state: self.state@, active_cluster: self.active_cluster }
    }
}

pub open spec fn name_taken<P>(cs: Seq<ClusterView<P>>, name: Seq<char>) -> bool {
    exists|k: int| 0 <= k < cs.len() && cs[k].name == name
}

pub open spec fn name_taken_by_other<P>(cs: Seq<ClusterView<P>>, id: ClusterId, name: Seq<char>) -> bool {
    exists|k: int| 0 <= k < cs.len() && cs[k].id != id && cs[k].name == name
}

pub open spec fn fresh_cluster<P>(id: ClusterId, name: Seq<char>, x: P, y: P) -> ClusterView<P> {
    ClusterView {
        id: id,
        name: name,
        x: x,
        y: y,
        enabled: true,
        windows: Seq::empty(),
        last_focus: None,
        recency: Seq::empty(),
    }
}

pub open spec fn with_clusters<P>(m: ModelView<P>, cs: Seq<ClusterView<P>>) -> ModelView<P> {
    ModelView { state: CanvasView { clusters: cs, ..m.state }, ..m }
}

pub open spec fn with_windows<P>(m: ModelView<P>, ws: Seq<Window>) -> ModelView<P> {
    ModelView { state: CanvasView { windows: ws, ..m.state }, ..m }
}

pub open spec fn model_ok<P>(m: ModelView<P>) -> bool {
    well_formed(m.state, m.active_cluster)
}

pub open spec fn model_checked<P>(m: ModelView<P>, r: MutationResult<P>) -> Result<
    MutationResult<P>,
    ModelError,
> {
    validated(m.state, m.active_cluster, r)
}


/// What reassigning window `w` to cluster `c` does: the new model and the
/// result.
pub open spec fn reassign_outcome<P>(m: ModelView<P>, w: WindowId, c: ClusterId, manual: bool) -> (
    ModelView<P>,
    Result<MutationResult<P>, ModelError>,
) {
    let cs = m.state.clusters;
    let ws = m.state.windows;
    if !has_cluster(cs, c) {
        (m, Err(ModelError::ClusterNotFound(c)))
    } else if !has_window(ws, w) {
        (m, Err(ModelError::WindowNotFound(w)))
    } else {
        let i = window_pos(ws, w);
        let win = ws[i];
        match win.cluster_id {
            None => (
                m,
                Err(ModelError::InvariantViolation(ModelInvariantError::WindowMissingCluster(w))),
            ),
            Some(cur) => if cur == c {
                let m2 = with_windows(
                    m,
                    ws.update(i, Window { manual_cluster_override: manual, ..win }),
                );
                (
                    m2,
                    model_checked(
                        m2,
                        MutationResult::WindowAssignmentUnchanged {
                            window: w,
                            cluster: c,
                            manual_override: manual,
                        },
                    ),
                )
            } else {
                let cs1 = if has_cluster(cs, cur) {
                    cs.update(cluster_pos(cs, cur), detach_window(cs[cluster_pos(cs, cur)], w))
                } else {
                    cs
                };
                let k2 = cluster_pos(cs, c);
                let cs2 = cs1.update(k2, attach_window(cs1[k2], w));
                let m2 = with_windows(
                    with_clusters(m, cs2),
                    ws.update(i, Window { cluster_id: Some(c), manual_cluster_override: manual, ..win }),
                );
                (
                    m2,
                    model_checked(
                        m2,
                        MutationResult::WindowAssignmentChanged {
                            window: w,
                            old_cluster: cur,
                            new_cluster: c,
                            manual_override: manual,
                        },
                    ),
                )
            },
        }
    }
}

/// Reassigns the windows `ws` to cluster `fb` one after the other, stopping
/// at the first error.
pub open spec fn reassign_all<P>(m: ModelView<P>, ws: Seq<WindowId>, fb: ClusterId) -> (
    ModelView<P>,
    Option<ModelError>,
)
    decreases ws.len(),
{
    if ws.len() == 0 {
        (m, None)
    } else {
        let prev = reassign_all(m, ws.drop_last(), fb);
        if prev.1 is Some {
            prev
        } else {
            let step = reassign_outcome(prev.0, ws.last(), fb, false);
            match step.1 {
                Ok(_) => (step.0, None),
                Err(e) => (step.0, Some(e)),
            }
        }
    }
}


/// The model once cluster `idx` is removed after its windows were moved
/// away: when it was active, the first remaining cluster becomes active and
/// is zoomed into.
pub open spec fn remove_cluster_at<P>(m: ModelView<P>, idx: int, id: ClusterId) -> ModelView<P> {
    let cs2 = m.state.clusters.remove(idx);
    if m.active_cluster == id && cs2.len() > 0 {
        ModelView {
            state: CanvasView { clusters: cs2, zoom: ZoomLevel::Cluster(cs2[0].id), ..m.state },
            active_cluster: cs2[0].id,
        }
    } else {
        with_clusters(m, cs2)
    }
}

/// What deleting cluster `id` does: the new model and the result.
pub open spec fn delete_outcome<P>(m: ModelView<P>, id: ClusterId, mode: DeleteClusterMode) -> (
    ModelView<P>,
    Result<MutationResult<P>, ModelError>,
) {
    let cs = m.state.clusters;
    if !has_cluster(cs, id) {
        (m, Err(ModelError::ClusterNotFound(id)))
    } else {
        let idx = cluster_pos(cs, id);
        let existing = cs[idx].windows;
        let n = existing.len() as usize;
        let moved: (ModelView<P>, Option<ModelError>) = match mode {
            DeleteClusterMode::BlockIfNonEmpty => if existing.len() > 0 {
                (m, Some(ModelError::ClusterNotEmpty { cluster: id, window_count: n }))
            } else {
                (m, None)
            },
            DeleteClusterMode::ReassignTo { fallback_cluster } => if fallback_cluster == id
                || !has_cluster(cs, fallback_cluster) {
                (m, Some(ModelError::InvalidFallbackCluster(fallback_cluster)))
            } else {
                reassign_all(m, existing, fallback_cluster)
            },
        };
        if moved.1 is Some {
            (moved.0, Err(moved.1->0))
        } else {
            let m2 = remove_cluster_at(moved.0, idx, id);
            if m.active_cluster == id && m2.state.clusters.len() == 0 {
                (m2, Err(ModelError::ActiveClusterMissing))
            } else {
                (
                    m2,
                    model_checked(
                        m2,
                        MutationResult::DeletedCluster { cluster: id, reassigned_windows: n },
                    ),
                )
            }
        }
    }
}

pub proof fn lemma_reassign_keeps_ids<P>(m: ModelView<P>, w: WindowId, c: ClusterId, manual: bool)
    ensures
        same_ids(m.state.clusters, reassign_outcome(m, w, c, manual).0.state.clusters),
        reassign_outcome(m, w, c, manual).0.active_cluster == m.active_cluster,
{
    let cs = m.state.clusters;
    let ws = m.state.windows;
    if has_cluster(cs, c) && has_window(ws, w) {
        let win = ws[window_pos(ws, w)];
        if let Some(cur) = win.cluster_id {
            if cur != c {
                lemma_has_cluster_pos(cs, c);
                if has_cluster(cs, cur) {
                    lemma_has_cluster_pos(cs, cur);
                }
                let cs1 = if has_cluster(cs, cur) {
                    cs.update(cluster_pos(cs, cur), detach_window(cs[cluster_pos(cs, cur)], w))
                } else {
                    cs
                };
                let k2 = cluster_pos(cs, c);
                let cs2 = cs1.update(k2, attach_window(cs1[k2], w));
                assert forall|k: int| 0 <= k < cs.len() implies #[trigger] cs[k].id == cs2[k].id by {
                    assert(cs1[k].id == cs[k].id);
                }
            }
        }
    }
}

pub proof fn lemma_reassign_all_stops<P>(m: ModelView<P>, ws: Seq<WindowId>, fb: ClusterId, j: int)
    requires
        0 <= j <= ws.len(),
        reassign_all(m, ws.take(j), fb).1 is Some,
    ensures
        reassign_all(m, ws, fb) == reassign_all(m, ws.take(j), fb),
    decreases ws.len() - j,
{
    if j < ws.len() {
        assert(ws.take(j + 1).drop_last() =~= ws.take(j));
        lemma_reassign_all_stops(m, ws, fb, j + 1);
    } else {
        assert(ws.take(j) =~= ws);
    }
}

pub proof fn lemma_reassign_all_keeps_ids<P>(m: ModelView<P>, ws: Seq<WindowId>, fb: ClusterId)
    ensures
        same_ids(m.state.clusters, reassign_all(m, ws, fb).0.state.clusters),
        reassign_all(m, ws, fb).0.active_cluster == m.active_cluster,
    decreases ws.len(),
{
    if ws.len() > 0 {
        lemma_reassign_all_keeps_ids(m, ws.drop_last(), fb);
        let prev = reassign_all(m, ws.drop_last(), fb);
        lemma_reassign_keeps_ids(prev.0, ws.last(), fb, false);
    }
}


/// What tracking a newly opened window does: the new model and the result.
pub open spec fn open_outcome<P>(m: ModelView<P>, window: Window, policy: OpenAssignPolicy) -> (
    ModelView<P>,
    Result<MutationResult<P>, ModelError>,
) {
    let target = match policy {
        OpenAssignPolicy::ActiveCluster => m.active_cluster,
        OpenAssignPolicy::FallbackCluster(c) => c,
    };
    if has_window(m.state.windows, window.id) {
        (m, Err(ModelError::WindowAlreadyTracked(window.id)))
    } else if !has_cluster(m.state.clusters, target) {
        (m, Err(ModelError::ClusterNotFound(target)))
    } else {
        let k = cluster_pos(m.state.clusters, target);
        let m2 = with_windows(
            with_clusters(m, m.state.clusters.update(k, attach_window(m.state.clusters[k], window.id))),
            m.state.windows.push(
                Window { cluster_id: Some(target), manual_cluster_override: false, ..window },
            ),
        );
        (m2, model_checked(m2, MutationResult::WindowOpened { window: window.id, cluster: target }))
    }
}

/// What forgetting a closed window does: the new model and the result.
pub open spec fn close_outcome<P>(m: ModelView<P>, window_id: WindowId) -> (
    ModelView<P>,
    Result<MutationResult<P>, ModelError>,
) {
    let ws = m.state.windows;
    if !has_window(ws, window_id) {
        (m, Ok(MutationResult::WindowCloseNoop(window_id)))
    } else {
        let i = window_pos(ws, window_id);
        let m1 = with_windows(m, ws.remove(i));
        match ws[i].cluster_id {
            None => (
                m1,
                Err(
                    ModelError::InvariantViolation(
                        ModelInvariantError::WindowMissingCluster(window_id),
                    ),
                ),
            ),
            Some(c) => if !has_cluster(m.state.clusters, c) {
                (m1, Err(ModelError::ClusterNotFound(c)))
            } else {
                let k = cluster_pos(m.state.clusters, c);
                let m2 = with_clusters(
                    m1,
                    m.state.clusters.update(k, detach_window(m.state.clusters[k], window_id)),
                );
                (m2, model_checked(m2, MutationResult::WindowClosed { window: window_id, cluster: c }))
            },
        }
    }
}

/// What a focus change does: the new model and the result.
pub open spec fn focus_outcome<P>(m: ModelView<P>, window_id: WindowId) -> (
    ModelView<P>,
    Result<MutationResult<P>, ModelError>,
) {
    let ws = m.state.windows;
    if !has_window(ws, window_id) {
        (m, Err(ModelError::WindowNotFound(window_id)))
    } else {
        match ws[window_pos(ws, window_id)].cluster_id {
            None => (
                m,
                Err(
                    ModelError::InvariantViolation(
                        ModelInvariantError::WindowMissingCluster(window_id),
                    ),
                ),
            ),
            Some(c) => if !has_cluster(m.state.clusters, c) {
                (m, Err(ModelError::ClusterNotFound(c)))
            } else {
                let k = cluster_pos(m.state.clusters, c);
                let m2 = ModelView {
                    active_cluster: c,
                    ..with_clusters(
                        m,
                        m.state.clusters.update(k, focus_in_cluster(m.state.clusters[k], window_id)),
                    )
                };
                (
                    m2,
                    model_checked(
                        m2,
                        if m.state.clusters[k].last_focus == Some(window_id) {
                            MutationResult::FocusNoop(window_id)
                        } else {
                            MutationResult::FocusUpdated { window: window_id, cluster: c }
                        },
                    ),
                )
            },
        }
    }
}

impl<P: Copy> CanvasModel<P> {
    /// Builds a model from a snapshot after filling in the cluster metadata
    /// defaults; fails when the result breaks a consistency rule.
    pub fn new(state: CanvasState<P>, active_cluster: ClusterId) -> (r: Result<Self, ModelError>)
        ensures
            match r {
                Ok(m) => {
                    &&& m@ == ModelView { state: normalize_canvas(state@), active_cluster }
                    &&& model_ok(m@)
                },
                Err(e) => invariant_error(normalize_canvas(state@), active_cluster) matches Some(
                    ie,
                ) && e == ModelError::InvariantViolation(ie),
            },
    {
        let mut state = state;
        normalize_canvas_exec(&mut state);
        let model = CanvasModel { state, active_cluster };
        match check_canvas(&model.state, active_cluster) {
            Ok(()) => {
                proof {
                    lemma_invariant_error_none(model.state@, active_cluster);
                }
                Ok(model)
            },
            Err(e) => Err(ModelError::InvariantViolation(e)),
        }
    }

    pub fn state(&self) -> (r: &CanvasState<P>)
        ensures
            r@ == self@.state,
    {
        &self.state
    }

    pub fn active_cluster(&self) -> (r: ClusterId)
        ensures
            r == self@.active_cluster,
    {
        self.active_cluster
    }

    /// Checks the consistency rules on the current state.
    pub fn check_invariants(&self) -> (r: Result<(), ModelInvariantError>)
        ensures
            match r {
                Ok(()) => invariant_error(self@.state, self@.active_cluster) is None,
                Err(e) => invariant_error(self@.state, self@.active_cluster) == Some(e),
            },
            r is Ok <==> model_ok(self@),
    {
        proof {
            lemma_invariant_error_none(self.state@, self.active_cluster);
        }
        check_canvas(&self.state, self.active_cluster)
    }

    fn validate_after(&self, result: MutationResult<P>) -> (r: Result<MutationResult<P>, ModelError>)
        ensures
            r == model_checked(self@, result),
            r is Ok <==> model_ok(self@),
    {
        proof {
            lemma_invariant_error_none(self.state@, self.active_cluster);
        }
        match check_canvas(&self.state, self.active_cluster) {
            Ok(()) => Ok(result),
            Err(e) => Err(ModelError::InvariantViolation(e)),
        }
    }

    fn name_in_use(&self, skip: Option<ClusterId>, name: &String) -> (r: bool)
        ensures
            r == match skip {
                None => name_taken(self@.state.clusters, name@),
                Some(id) => name_taken_by_other(self@.state.clusters, id, name@),
            },
    {
        let ghost cs = self.state@.clusters;
        let mut k: usize = 0;
        while k < self.state.clusters.len()
            invariant
                k <= self.state.clusters.len(),
                cs == self.state@.clusters,
                forall|j: int|
                    0 <= j < k ==> !(cs[j].name == name@ && match skip {
                        None => true,
                        Some(id) => cs[j].id != id,
                    }),
            decreases self.state.clusters.len() - k,
        {
            let c = &self.state.clusters[k];
            let other = match skip {
                None => true,
                Some(id) => c.id != id,
            };
            if other && c.name == *name {
                assert(cs[k as int] == self.state.clusters@[k as int]@);
                return true;
            }
            k += 1;
        }
        false
    }


    fn detach_at(&mut self, k: usize, w: WindowId)
        requires
            k < old(self)@.state.clusters.len(),
        ensures
            final(self)@ == with_clusters(
                old(self)@,
                old(self)@.state.clusters.update(k as int, detach_window(old(self)@.state.clusters[k as int], w)),
            ),
    {
        let ghost before = self.state.clusters@;
        let mut cluster = self.state.clusters.remove(k);
        cluster.windows = vec_without(&cluster.windows, w);
        cluster.recency = vec_without(&cluster.recency, w);
        if cluster.last_focus == Some(w) {
            cluster.last_focus = if cluster.recency.len() > 0 {
                Some(cluster.recency[0])
            } else {
                None
            };
        }
        self.state.clusters.insert(k, cluster);
        proof {
            lemma_reinsert(before, k as int, cluster);
        }
    }

    fn focus_at(&mut self, k: usize, w: WindowId, attach: bool)
        requires
            k < old(self)@.state.clusters.len(),
        ensures
            final(self)@ == with_clusters(
                old(self)@,
                old(self)@.state.clusters.update(
                    k as int,
                    if attach {
                        attach_window(old(self)@.state.clusters[k as int], w)
                    } else {
                        focus_in_cluster(old(self)@.state.clusters[k as int], w)
                    },
                ),
            ),
    {
        let ghost before = self.state.clusters@;
        let mut cluster = self.state.clusters.remove(k);
        if attach && !vec_contains(&cluster.windows, w) {
            cluster.windows.push(w);
        }
        cluster.recency = vec_move_to_front(&cluster.recency, w);
        cluster.last_focus = Some(w);
        self.state.clusters.insert(k, cluster);
        proof {
            lemma_reinsert(before, k as int, cluster);
        }
    }

    fn push_window_to_cluster(&mut self, cluster_id: ClusterId, window_id: WindowId)
        ensures
            has_cluster(old(self)@.state.clusters, cluster_id) ==> final(self)@ == with_clusters(
                old(self)@,
                old(self)@.state.clusters.update(
                    cluster_pos(old(self)@.state.clusters, cluster_id),
                    attach_window(
                        old(self)@.state.clusters[cluster_pos(old(self)@.state.clusters, cluster_id)],
                        window_id,
                    ),
                ),
            ),
            !has_cluster(old(self)@.state.clusters, cluster_id) ==> final(self)@ == old(self)@,
    {
        if let Some(k) = find_cluster(&self.state.clusters, cluster_id) {
            self.focus_at(k, window_id, true);
        }
    }

    fn set_window_assignment(&mut self, i: usize, cluster_id: Option<ClusterId>, manual: bool)
        requires
            i < old(self)@.state.windows.len(),
        ensures
            final(self)@ == with_windows(
                old(self)@,
                old(self)@.state.windows.update(
                    i as int,
                    Window {
                        cluster_id: cluster_id,
                        manual_cluster_override: manual,
                        ..old(self)@.state.windows[i as int]
                    },
                ),
            ),
    {
        let ghost before = self.state.windows@;
        let mut window = self.state.windows.remove(i);
        window.cluster_id = cluster_id;
        window.manual_cluster_override = manual;
        self.state.windows.insert(i, window);
        proof {
            lemma_reinsert_window(before, i as int, window);
        }
    }


    fn reassign_window(&mut self, window_id: WindowId, cluster_id: ClusterId, manual_override: bool) -> (r: Result<
        MutationResult<P>,
        ModelError,
    >)
        ensures
            (final(self)@, r) == reassign_outcome(old(self)@, window_id, cluster_id, manual_override),
    {
        let ghost m = self@;
        if find_cluster(&self.state.clusters, cluster_id).is_none() {
            return Err(ModelError::ClusterNotFound(cluster_id));
        }
        let i = match find_window(&self.state.windows, window_id) {
            Some(i) => i,
            None => {
                return Err(ModelError::WindowNotFound(window_id));
            },
        };
        let current_cluster = match self.state.windows[i].cluster_id {
            Some(c) => c,
            None => {
                return Err(
                    ModelError::InvariantViolation(
                        ModelInvariantError::WindowMissingCluster(window_id),
                    ),
                );
            },
        };
        if current_cluster == cluster_id {
            let keep = self.state.windows[i].cluster_id;
            self.set_window_assignment(i, keep, manual_override);
            return self.validate_after(
                MutationResult::WindowAssignmentUnchanged {
                    window: window_id,
                    cluster: cluster_id,
                    manual_override,
                },
            );
        }
        self.set_window_assignment(i, Some(cluster_id), manual_override);
        let ghost m1 = self@;
        if let Some(k) = find_cluster(&self.state.clusters, current_cluster) {
            self.detach_at(k, window_id);
        }
        let ghost m2 = self@;
        proof {
            let cs = m.state.clusters;
            lemma_same_ids(cs, m2.state.clusters, cluster_id);
            if has_cluster(cs, current_cluster) {
                lemma_has_cluster_pos(cs, current_cluster);
            }
        }
        self.push_window_to_cluster(cluster_id, window_id);
        proof {
            let cs = m.state.clusters;
            let o = reassign_outcome(m, window_id, cluster_id, manual_override).0;
            assert(self@.state.clusters == o.state.clusters);
            assert(self@.state.windows == o.state.windows);
        }
        self.validate_after(
            MutationResult::WindowAssignmentChanged {
                window: window_id,
                old_cluster: current_cluster,
                new_cluster: cluster_id,
                manual_override,
            },
        )
    }

    /// Moves a window into a cluster by the user's explicit choice.
    pub fn assign_window_to_cluster_manual(&mut self, window_id: WindowId, cluster_id: ClusterId) -> (r:
        Result<MutationResult<P>, ModelError>)
        ensures
            (final(self)@, r) == reassign_outcome(old(self)@, window_id, cluster_id, true),
            r is Ok ==> model_ok(final(self)@),
    {
        let r = self.reassign_window(window_id, cluster_id, true);
        proof {
            lemma_outcome_ok(old(self)@, window_id, cluster_id, true);
        }
        r
    }

    /// Tracks a newly opened window in the active cluster or the given one.
    pub fn on_window_open(&mut self, window: Window, policy: OpenAssignPolicy) -> (r: Result<
        MutationResult<P>,
        ModelError,
    >)
        ensures
            (final(self)@, r) == open_outcome(old(self)@, window, policy),
            r is Ok ==> model_ok(final(self)@),
    {
        let ghost m = self@;
        if find_window(&self.state.windows, window.id).is_some() {
            return Err(ModelError::WindowAlreadyTracked(window.id));
        }
        let target_cluster = match policy {
            OpenAssignPolicy::ActiveCluster => self.active_cluster,
            OpenAssignPolicy::FallbackCluster(cluster_id) => cluster_id,
        };
        if find_cluster(&self.state.clusters, target_cluster).is_none() {
            return Err(ModelError::ClusterNotFound(target_cluster));
        }
        let window_id = window.id;
        let mut window = window;
        window.cluster_id = Some(target_cluster);
        window.manual_cluster_override = false;
        self.state.windows.push(window);
        self.push_window_to_cluster(target_cluster, window_id);
        self.validate_after(MutationResult::WindowOpened { window: window_id, cluster: target_cluster })
    }

    /// Forgets a closed window; closing an unknown window changes nothing.
    pub fn on_window_close(&mut self, window_id: WindowId) -> (r: Result<MutationResult<P>, ModelError>)
        ensures
            (final(self)@, r) == close_outcome(old(self)@, window_id),
            r is Ok ==> model_ok(final(self)@) || r == Ok::<MutationResult<P>, ModelError>(
                MutationResult::WindowCloseNoop(window_id),
            ),
    {
        let position = match find_window(&self.state.windows, window_id) {
            Some(i) => i,
            None => {
                return Ok(MutationResult::WindowCloseNoop(window_id));
            },
        };
        let closed = self.state.windows.remove(position);
        let cluster_id = match closed.cluster_id {
            Some(c) => c,
            None => {
                return Err(
                    ModelError::InvariantViolation(
                        ModelInvariantError::WindowMissingCluster(window_id),
                    ),
                );
            },
        };
        let k = match find_cluster(&self.state.clusters, cluster_id) {
            Some(k) => k,
            None => {
                return Err(ModelError::ClusterNotFound(cluster_id));
            },
        };
        self.detach_at(k, window_id);
        self.validate_after(MutationResult::WindowClosed { window: window_id, cluster: cluster_id })
    }

    /// Records that `window_id` got the focus: it becomes the most recent
    /// and last focused window of its cluster, which becomes active.
    pub fn on_focus_change(&mut self, window_id: WindowId) -> (r: Result<MutationResult<P>, ModelError>)
        ensures
            (final(self)@, r) == focus_outcome(old(self)@, window_id),
            r is Ok ==> model_ok(final(self)@),
    {
        let i = match find_window(&self.state.windows, window_id) {
            Some(i) => i,
            None => {
                return Err(ModelError::WindowNotFound(window_id));
            },
        };
        let cluster_id = match self.state.windows[i].cluster_id {
            Some(c) => c,
            None => {
                return Err(
                    ModelError::InvariantViolation(
                        ModelInvariantError::WindowMissingCluster(window_id),
                    ),
                );
            },
        };
        let k = match find_cluster(&self.state.clusters, cluster_id) {
            Some(k) => k,
            None => {
                return Err(ModelError::ClusterNotFound(cluster_id));
            },
        };
        let previous = self.state.clusters[k].last_focus;
        self.focus_at(k, window_id, false);
        self.active_cluster = cluster_id;
        if previous == Some(window_id) {
            self.validate_after(MutationResult::FocusNoop(window_id))
        } else {
            self.validate_after(MutationResult::FocusUpdated { window: window_id, cluster: cluster_id })
        }
    }


    /// Deletes cluster `id`. An occupied cluster is refused, or its windows
    /// are first moved to the fallback cluster; deleting the active cluster
    /// activates the first remaining one.
    pub fn delete_cluster(&mut self, id: ClusterId, mode: DeleteClusterMode) -> (r: Result<
        MutationResult<P>,
        ModelError,
    >)
        ensures
            (final(self)@, r) == delete_outcome(old(self)@, id, mode),
            r is Ok ==> model_ok(final(self)@),
    {
        let ghost m = self@;
        let idx = match find_cluster(&self.state.clusters, id) {
            Some(k) => k,
            None => {
                return Err(ModelError::ClusterNotFound(id));
            },
        };
        let existing_windows = vec_copy(&self.state.clusters[idx].windows);
        assert(existing_windows@ == m.state.clusters[idx as int].windows);
        let reassigned_windows = existing_windows.len();
        match mode {
            DeleteClusterMode::BlockIfNonEmpty => {
                if existing_windows.len() > 0 {
                    return Err(
                        ModelError::ClusterNotEmpty {
                            cluster: id,
                            window_count: existing_windows.len(),
                        },
                    );
                }
            },
            DeleteClusterMode::ReassignTo { fallback_cluster } => {
                if fallback_cluster == id {
                    return Err(ModelError::InvalidFallbackCluster(fallback_cluster));
                }
                if find_cluster(&self.state.clusters, fallback_cluster).is_none() {
                    return Err(ModelError::InvalidFallbackCluster(fallback_cluster));
                }
                let mut i: usize = 0;
                while i < existing_windows.len()
                    invariant
                        i <= existing_windows.len(),
                        reassign_all(m, existing_windows@.take(i as int), fallback_cluster)
                            == (self@, None::<ModelError>),
                        m == old(self)@,
                        has_cluster(m.state.clusters, id),
                        idx == cluster_pos(m.state.clusters, id),
                        existing_windows@ == m.state.clusters[idx as int].windows,
                        mode == (DeleteClusterMode::ReassignTo { fallback_cluster }),
                        fallback_cluster != id,
                        has_cluster(m.state.clusters, fallback_cluster),
                    decreases existing_windows.len() - i,
                {
                    assert(existing_windows@.take(i as int + 1).drop_last() =~= existing_windows@.take(
                        i as int,
                    ));
                    assert(existing_windows@.take(i as int + 1).last() == existing_windows@[i as int]);
                    let ghost before_step = self@;
                    let step = self.reassign_window(existing_windows[i], fallback_cluster, false);
                    if let Err(e) = step {
                        proof {
                            let t = existing_windows@.take(i as int + 1);
                            assert(reassign_all(m, t.drop_last(), fallback_cluster) == (before_step, None::<ModelError>));
                            assert(reassign_all(m, t, fallback_cluster) == (self@, Some(e)));
                            lemma_reassign_all_stops(m, existing_windows@, fallback_cluster, i as int + 1);
                            assert(reassign_all(m, existing_windows@, fallback_cluster) == (self@, Some(e)));

                        }
                        return Err(e);
                    }
                    i += 1;
                }
                assert(existing_windows@.take(existing_windows.len() as int) =~= existing_windows@);
                proof {
                    lemma_reassign_all_keeps_ids(m, existing_windows@, fallback_cluster);
                }
            },
        }
        let ghost moved = self@;
        proof {
            assert(self.state.clusters.len() == m.state.clusters.len());
        }
        let _removed = self.state.clusters.remove(idx);
        proof {
            assert(self@.state.clusters =~= moved.state.clusters.remove(idx as int));
        }
        if self.active_cluster == id {
            if self.state.clusters.len() == 0 {
                return Err(ModelError::ActiveClusterMissing);
            }
            self.active_cluster = self.state.clusters[0].id;
            self.state.zoom = ZoomLevel::Cluster(self.active_cluster);
        }
        self.validate_after(MutationResult::DeletedCluster { cluster: id, reassigned_windows })
    }

    /// Adds an empty cluster at `(x, y)`; ids and names must be unique.
    pub fn create_cluster(&mut self, id: ClusterId, name: String, x: P, y: P) -> (r: Result<
        MutationResult<P>,
        ModelError,
    >)
        ensures
            has_cluster(old(self)@.state.clusters, id) ==> {
                &&& r == Err::<MutationResult<P>, ModelError>(ModelError::ClusterAlreadyExists(id))
                &&& final(self)@ == old(self)@
            },
            !has_cluster(old(self)@.state.clusters, id) && name_taken(
                old(self)@.state.clusters,
                name@,
            ) ==> {
                &&& r == Err::<MutationResult<P>, ModelError>(ModelError::ClusterNameConflict(name))
                &&& final(self)@ == old(self)@
            },
            !has_cluster(old(self)@.state.clusters, id) && !name_taken(
                old(self)@.state.clusters,
                name@,
            ) ==> {
                &&& final(self)@ == with_clusters(
                    old(self)@,
                    old(self)@.state.clusters.push(fresh_cluster(id, name@, x, y)),
                )
                &&& r == model_checked(final(self)@, MutationResult::CreatedCluster(id))
            },
            r is Ok ==> model_ok(final(self)@),
            model_ok(old(self)@) ==> (r is Ok <==> (!has_cluster(old(self)@.state.clusters, id)
                && !name_taken(old(self)@.state.clusters, name@))),
    {
        if find_cluster(&self.state.clusters, id).is_some() {
            return Err(ModelError::ClusterAlreadyExists(id));
        }
        if self.name_in_use(None, &name) {
            return Err(ModelError::ClusterNameConflict(name));
        }
        let ghost before = self@;
        let ghost view_name = name@;
        self.state.clusters.push(
            Cluster {
                id,
                name,
                x,
                y,
                enabled: true,
                windows: Vec::new(),
                last_focus: None,
                recency: Vec::new(),
            },
        );
        proof {
            assert(self@.state.clusters =~= before.state.clusters.push(
                fresh_cluster(id, view_name, x, y),
            ));
            if model_ok(before) {
                lemma_create_keeps_rules(before, id, view_name, x, y);
            }
        }
        self.validate_after(MutationResult::CreatedCluster(id))
    }

    /// Gives cluster `id` a new name that no other cluster carries.
    pub fn rename_cluster(&mut self, id: ClusterId, new_name: String) -> (r: Result<
        MutationResult<P>,
        ModelError,
    >)
        ensures
            name_taken_by_other(old(self)@.state.clusters, id, new_name@) ==> {
                &&& r == Err::<MutationResult<P>, ModelError>(
                    ModelError::ClusterNameConflict(new_name),
                )
                &&& final(self)@ == old(self)@
            },
            !name_taken_by_other(old(self)@.state.clusters, id, new_name@) && !has_cluster(
                old(self)@.state.clusters,
                id,
            ) ==> {
                &&& r == Err::<MutationResult<P>, ModelError>(ModelError::ClusterNotFound(id))
                &&& final(self)@ == old(self)@
            },
            !name_taken_by_other(old(self)@.state.clusters, id, new_name@) && has_cluster(
                old(self)@.state.clusters,
                id,
            ) ==> {
                let cs = old(self)@.state.clusters;
                let k = cluster_pos(cs, id);
                &&& final(self)@ == with_clusters(
                    old(self)@,
                    cs.update(k, ClusterView { name: new_name@, ..cs[k] }),
                )
                &&& match r {
                    Ok(MutationResult::RenamedCluster { cluster, old_name, new_name: n }) => {
                        &&& cluster == id
                        &&& old_name@ == cs[k].name
                        &&& n == new_name
                        &&& model_ok(final(self)@)
                    },
                    Ok(_) => false,
                    Err(e) => invariant_error(final(self)@.state, final(self)@.active_cluster) matches Some(ie)
                        && e == ModelError::InvariantViolation(ie),
                }
            },
            r is Ok ==> model_ok(final(self)@),
            model_ok(old(self)@) ==> (r is Ok <==> (!name_taken_by_other(
                old(self)@.state.clusters,
                id,
                new_name@,
            ) && has_cluster(old(self)@.state.clusters, id))),
    {
        if self.name_in_use(Some(id), &new_name) {
            return Err(ModelError::ClusterNameConflict(new_name));
        }
        let k = match find_cluster(&self.state.clusters, id) {
            Some(k) => k,
            None => {
                return Err(ModelError::ClusterNotFound(id));
            },
        };
        let ghost before = self@;
        let ghost before_vec = self.state.clusters@;
        let mut cluster = self.state.clusters.remove(k);
        let old_name = cluster.name;
        cluster.name = new_name.clone();
        self.state.clusters.insert(k, cluster);
        proof {
            lemma_reinsert(before_vec, k as int, cluster);
            let cs = before.state.clusters;
            assert(self@.state.clusters == cs.update(k as int, ClusterView { name: new_name@, ..cs[k as int] }));
            if model_ok(before) {
                lemma_cluster_fields_keep_rules(before, k as int, ClusterView { name: new_name@, ..cs[k as int] });
            }
        }
        self.validate_after(MutationResult::RenamedCluster { cluster: id, old_name, new_name })
    }

    /// Moves cluster `id` to `(new_x, new_y)`.
    pub fn move_cluster(&mut self, id: ClusterId, new_x: P, new_y: P) -> (r: Result<
        MutationResult<P>,
        ModelError,
    >)
        ensures
            !has_cluster(old(self)@.state.clusters, id) ==> {
                &&& r == Err::<MutationResult<P>, ModelError>(ModelError::ClusterNotFound(id))
                &&& final(self)@ == old(self)@
            },
            has_cluster(old(self)@.state.clusters, id) ==> {
                let cs = old(self)@.state.clusters;
                let k = cluster_pos(cs, id);
                &&& final(self)@ == with_clusters(
                    old(self)@,
                    cs.update(k, ClusterView { x: new_x, y: new_y, ..cs[k] }),
                )
                &&& r == model_checked(
                    final(self)@,
                    MutationResult::MovedCluster {
                        cluster: id,
                        old_x: cs[k].x,
                        old_y: cs[k].y,
                        new_x,
                        new_y,
                    },
                )
            },
            r is Ok ==> model_ok(final(self)@),
            model_ok(old(self)@) ==> (r is Ok <==> has_cluster(old(self)@.state.clusters, id)),
    {
        let k = match find_cluster(&self.state.clusters, id) {
            Some(k) => k,
            None => {
                return Err(ModelError::ClusterNotFound(id));
            },
        };
        let ghost before = self@;
        let ghost before_vec = self.state.clusters@;
        let mut cluster = self.state.clusters.remove(k);
        let old_x = cluster.x;
        let old_y = cluster.y;
        cluster.x = new_x;
        cluster.y = new_y;
        let ghost nc = cluster@;
        self.state.clusters.insert(k, cluster);
        proof {
            lemma_reinsert(before_vec, k as int, cluster);
            if model_ok(before) {
                lemma_cluster_fields_keep_rules(before, k as int, nc);
            }
        }
        self.validate_after(MutationResult::MovedCluster { cluster: id, old_x, old_y, new_x, new_y })
    }
}


// ---------------------------------------------------------------------------
// Proofs that mutations keep the rules.
// ---------------------------------------------------------------------------

/// Cluster lists with the same ids and window lists, and windows with the
/// same ids and assignments: the rules give the same verdicts.
pub proof fn lemma_same_shape<P>(s: CanvasView<P>, s2: CanvasView<P>, active: ClusterId)
    requires
        same_ids(s.clusters, s2.clusters),
        forall|k: int| 0 <= k < s.clusters.len() ==> #[trigger] s2.clusters[k].windows == s.clusters[k].windows,
        same_window_ids(s.windows, s2.windows),
        forall|i: int| 0 <= i < s.windows.len() ==> #[trigger] s2.windows[i].cluster_id == s.windows[i].cluster_id,
    ensures
        forall|i: int| 0 <= i < s.windows.len() ==> #[trigger] window_violation(s2, i) == window_violation(s, i),
        forall|k: int, j: int|
            0 <= k < s.clusters.len() && 0 <= j < s.clusters[k].windows.len() ==> #[trigger] entry_violation(s2, k, j)
                == entry_violation(s, k, j),
        well_formed(s2, active) == well_formed(s, active),
{
    assert forall|i: int| 0 <= i < s.windows.len() implies #[trigger] window_violation(s2, i) == window_violation(s, i) by {
        assert(s2.windows[i].id == s.windows[i].id);
        let w = s.windows[i];
        if let Some(c) = w.cluster_id {
            lemma_same_ids(s.clusters, s2.clusters, c);
            if has_cluster(s.clusters, c) {
                lemma_has_cluster_pos(s.clusters, c);
            }
        }
    }
    assert forall|k: int, j: int|
        0 <= k < s.clusters.len() && 0 <= j < s.clusters[k].windows.len() implies #[trigger] entry_violation(s2, k, j)
            == entry_violation(s, k, j) by {
        assert(s2.clusters[k].id == s.clusters[k].id);
        lemma_same_window_ids(s.windows, s2.windows, s.clusters[k].windows[j]);
    }
    lemma_same_ids(s.clusters, s2.clusters, active);
    if well_formed(s, active) {
        assert forall|i: int| 0 <= i < s2.windows.len() implies #[trigger] window_violation(s2, i) is None by {
            assert(window_violation(s, i) is None);
        }
        assert forall|k: int| 0 <= k < s2.clusters.len() implies #[trigger] cluster_clean(s2, k) by {
            assert(cluster_clean(s, k));
            assert forall|j: int| 0 <= j < s2.clusters[k].windows.len() implies #[trigger] entry_violation(s2, k, j) is None by {
                assert(entry_violation(s, k, j) is None);
            }
        }
    }
    if well_formed(s2, active) {
        assert forall|i: int| 0 <= i < s.windows.len() implies #[trigger] window_violation(s, i) is None by {
            assert(window_violation(s2, i) is None);
        }
        assert forall|k: int| 0 <= k < s.clusters.len() implies #[trigger] cluster_clean(s, k) by {
            assert(cluster_clean(s2, k));
            assert forall|j: int| 0 <= j < s.clusters[k].windows.len() implies #[trigger] entry_violation(s, k, j) is None by {
                assert(entry_violation(s2, k, j) is None);
            }
        }
    }
}

pub proof fn lemma_cluster_fields_keep_rules<P>(m: ModelView<P>, k: int, nc: ClusterView<P>)
    requires
        0 <= k < m.state.clusters.len(),
        nc.id == m.state.clusters[k].id,
        nc.windows == m.state.clusters[k].windows,
    ensures
        model_ok(with_clusters(m, m.state.clusters.update(k, nc))) == model_ok(m),
{
    let s2 = with_clusters(m, m.state.clusters.update(k, nc)).state;
    lemma_same_shape(m.state, s2, m.active_cluster);
}

/// A cluster with a fresh id and no windows can be added to a consistent
/// model.
pub proof fn lemma_create_keeps_rules<P>(m: ModelView<P>, id: ClusterId, name: Seq<char>, x: P, y: P)
    requires
        model_ok(m),
        !has_cluster(m.state.clusters, id),
    ensures
        model_ok(with_clusters(m, m.state.clusters.push(fresh_cluster(id, name, x, y)))),
{
    let s = m.state;
    let cs = s.clusters;
    let cs2 = cs.push(fresh_cluster(id, name, x, y));
    let s2 = with_clusters(m, cs2).state;
    assert forall|c: ClusterId| has_cluster(cs, c) implies has_cluster(cs2, c) && cluster_pos(cs2, c) == cluster_pos(cs, c) by {
        lemma_has_cluster_pos(cs, c);
        let p = cluster_pos(cs, c);
        assert(cs2[p] == cs[p]);
        assert(first_cluster(cs2, c, p));
        lemma_cluster_pos(cs2, c, p);
    }
    assert(has_cluster(cs, m.active_cluster));
    assert forall|i: int| 0 <= i < s2.windows.len() implies #[trigger] window_violation(s2, i) is None by {
        assert(window_violation(s, i) is None);
        let c = s.windows[i].cluster_id->0;
        assert(has_cluster(cs, c));
        lemma_has_cluster_pos(cs, c);
        let p = cluster_pos(cs, c);
        assert(cs2[p] == cs[p]);
        assert(first_cluster(cs2, c, p));
        lemma_cluster_pos(cs2, c, p);
    }
    assert forall|k: int| 0 <= k < cs2.len() implies #[trigger] cluster_clean(s2, k) by {
        if k < cs.len() {
            assert(cluster_clean(s, k));
            assert(cs2[k] == cs[k]);
            assert forall|j: int| 0 <= j < cs2[k].windows.len() implies #[trigger] entry_violation(s2, k, j) is None by {
                assert(entry_violation(s, k, j) is None);
            }
        }
    }
}


pub proof fn lemma_outcome_ok<P>(m: ModelView<P>, w: WindowId, c: ClusterId, manual: bool)
    ensures
        reassign_outcome(m, w, c, manual).1 is Ok ==> model_ok(reassign_outcome(m, w, c, manual).0),
{
    let o = reassign_outcome(m, w, c, manual);
    lemma_invariant_error_none(o.0.state, o.0.active_cluster);
}

} // verus!
