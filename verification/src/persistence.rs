//! The part of the overview canvas that survives a restart: where each
//! cluster sits and what it is called, which windows the user placed by
//! hand, and which cluster was zoomed into.

use std::collections::BTreeMap;

use vstd::prelude::*;

use crate::seq_util::vec_copy;
use crate::contracts::{CanvasState, CanvasView, Cluster, ClusterId, ClusterView, Window, WindowId, ZoomLevel};

verus! {

broadcast use {vstd::std_specs::btree::group_btree_axioms, vstd::laws_cmp::group_laws_cmp};

/// A cluster as it is saved: identity, name and canvas position.
#[derive(Debug, Clone)]
pub struct PersistedCluster<P> {
    pub id: ClusterId,
    pub name: String,
    pub x: P,
    pub y: P,
}

pub struct PersistedClusterView<P> {
    pub id: ClusterId,
    pub name: Seq<char>,
    pub x: P,
    pub y: P,
}

impl<P> View for PersistedCluster<P> {
    type V = PersistedClusterView<P>;

    open spec fn view(&self) -> PersistedClusterView<P> {
        PersistedClusterView { id: self.id, name: self.name@, x: self.x, y: self.y }
    }
}

/// The saved overview state.
#[derive(Debug, Clone)]
pub struct PersistedOverviewState<P> {
    pub clusters: Vec<PersistedCluster<P>>,
    /// Windows the user assigned by hand, and the cluster of each.
    pub manual_window_assignments: BTreeMap<WindowId, ClusterId>,
    /// The cluster that was zoomed into, if any.
    pub active_cluster: Option<ClusterId>,
    /// Most recently visited clusters, most recent first.
    pub cluster_history: Vec<ClusterId>,
}

pub struct PersistedView<P> {
    pub clusters: Seq<PersistedClusterView<P>>,
    pub assignments: Map<WindowId, ClusterId>,
    pub active: Option<ClusterId>,
    pub history: Seq<ClusterId>,
}

impl<P> View for PersistedOverviewState<P> {
    type V = PersistedView<P>;

    open spec fn view(&self) -> PersistedView<P> {
        PersistedView {
            clusters: self.clusters@.map_values(|c: PersistedCluster<P>| c@),
            assignments: self.manual_window_assignments@,
            active: self.active_cluster,
            history: self.cluster_history@,
        }
    }
}

impl<P> Default for PersistedOverviewState<P> {
    fn default() -> (r: Self)
        ensures
            r@.clusters.len() == 0,
            r@.assignments == Map::<WindowId, ClusterId>::empty(),
            r@.active is None,
            r@.history.len() == 0,
    {
        PersistedOverviewState {
            clusters: Vec::new(),
            manual_window_assignments: BTreeMap::new(),
            active_cluster: None,
            cluster_history: Vec::new(),
        }
    }
}

pub open spec fn persisted_cluster<P>(c: ClusterView<P>) -> PersistedClusterView<P> {
    PersistedClusterView { id: c.id, name: c.name, x: c.x, y: c.y }
}

/// The hand-made assignments among `ws`: each window marked as placed by
/// hand that has a cluster; a later window wins over an earlier one with
/// the same id.
pub open spec fn manual_assignments(ws: Seq<Window>) -> Map<WindowId, ClusterId>
    decreases ws.len(),
{
    if ws.len() == 0 {
        Map::empty()
    } else {
        let m = manual_assignments(ws.drop_last());
        let w = ws.last();
        match w.cluster_id {
            Some(c) => if w.manual_cluster_override {
                m.insert(w.id, c)
            } else {
                m
            },
            None => m,
        }
    }
}

/// The cluster zoomed into at zoom level `z`.
pub open spec fn zoomed_cluster(z: ZoomLevel) -> Option<ClusterId> {
    match z {
        ZoomLevel::Cluster(id) => Some(id),
        _ => None,
    }
}

/// What is saved of canvas `s`; the visit history is left empty.
pub open spec fn snapshot_of<P>(s: CanvasView<P>) -> PersistedView<P> {
    PersistedView {
        clusters: s.clusters.map_values(|c: ClusterView<P>| persisted_cluster(c)),
        assignments: manual_assignments(s.windows),
        active: zoomed_cluster(s.zoom),
        history: Seq::empty(),
    }
}

impl<P: Copy> PersistedOverviewState<P> {
    /// What is saved of `state`.
    pub fn from_canvas(state: &CanvasState<P>) -> (r: Self)
        ensures
            r@ == snapshot_of(state@),
    {
        let mut clusters: Vec<PersistedCluster<P>> = Vec::new();
        let mut i: usize = 0;
        while i < state.clusters.len()
            invariant
                i <= state.clusters@.len(),
                clusters@.len() == i,
                forall|k: int| 0 <= k < i ==> (#[trigger] clusters@[k])@ == persisted_cluster(state.clusters@[k]@),
            decreases state.clusters.len() - i,
        {
            let c = &state.clusters[i];
            clusters.push(PersistedCluster { id: c.id, name: c.name.clone(), x: c.x, y: c.y });
            i += 1;
        }
        let mut assignments: BTreeMap<WindowId, ClusterId> = BTreeMap::new();
        let mut j: usize = 0;
        while j < state.windows.len()
            invariant
                j <= state.windows@.len(),
                assignments@ == manual_assignments(state.windows@.take(j as int)),
            decreases state.windows.len() - j,
        {
            let w = &state.windows[j];
            assert(state.windows@.take(j + 1).drop_last() =~= state.windows@.take(j as int));
            if w.manual_cluster_override {
                if let Some(c) = w.cluster_id {
                    assignments.insert(w.id, c);
                }
            }
            j += 1;
        }
        assert(state.windows@.take(state.windows@.len() as int) =~= state.windows@);
        let active_cluster = match state.zoom {
            ZoomLevel::Cluster(id) => Some(id),
            _ => None,
        };
        let r = PersistedOverviewState {
            clusters,
            manual_window_assignments: assignments,
            active_cluster,
            cluster_history: Vec::new(),
        };
        assert(r@.clusters =~= snapshot_of(state@).clusters);
        r
    }
}

/// A saved cluster brought back as an empty, enabled cluster.
pub open spec fn seeded_cluster<P>(c: PersistedClusterView<P>) -> ClusterView<P> {
    ClusterView {
        id: c.id,
        name: c.name,
        x: c.x,
        y: c.y,
        enabled: true,
        windows: Seq::empty(),
        last_focus: None,
        recency: Seq::empty(),
    }
}

/// Canvas `s` seeded from saved state `p` at start-up: the saved clusters,
/// empty, replace the live ones, and the saved zoomed-into cluster is
/// zoomed into again.
pub open spec fn seeded<P>(p: PersistedView<P>, s: CanvasView<P>) -> CanvasView<P> {
    CanvasView {
        clusters: p.clusters.map_values(|c: PersistedClusterView<P>| seeded_cluster(c)),
        zoom: match p.active {
            Some(id) => ZoomLevel::Cluster(id),
            None => s.zoom,
        },
        ..s
    }
}

/// Saved positions by cluster id; a later saved cluster wins over an
/// earlier one with the same id.
pub open spec fn coords_of<P>(cs: Seq<PersistedClusterView<P>>) -> Map<ClusterId, (P, P)>
    decreases cs.len(),
{
    if cs.len() == 0 {
        Map::empty()
    } else {
        coords_of(cs.drop_last()).insert(cs.last().id, (cs.last().x, cs.last().y))
    }
}

/// Whether a cluster before position `k` has the id of the one at `k`.
pub open spec fn id_seen_before<P>(cs: Seq<ClusterView<P>>, k: int) -> bool {
    exists|j: int| 0 <= j < k && (#[trigger] cs[j]).id == cs[k].id
}

/// Live cluster `k` after a merge: the first live cluster with a saved
/// id takes the saved position, unless it is the `excluded` one.
pub open spec fn merged_cluster<P>(
    cs: Seq<ClusterView<P>>,
    coords: Map<ClusterId, (P, P)>,
    excluded: Option<ClusterId>,
    k: int,
) -> ClusterView<P> {
    let c = cs[k];
    if excluded != Some(c.id) && !id_seen_before(cs, k) && coords.contains_key(c.id) {
        ClusterView { x: coords[c.id].0, y: coords[c.id].1, ..c }
    } else {
        c
    }
}

/// A live window after a merge: a saved hand-made assignment is put back.
pub open spec fn merged_window(w: Window, a: Map<WindowId, ClusterId>) -> Window {
    if a.contains_key(w.id) {
        Window { cluster_id: Some(a[w.id]), manual_cluster_override: true, ..w }
    } else {
        w
    }
}

/// Live canvas `s` after saved state `p` is merged in: positions and
/// hand-made assignments come back, and an overview zooms into the saved
/// cluster.
pub open spec fn merged<P>(p: PersistedView<P>, s: CanvasView<P>) -> CanvasView<P> {
    merged_except(p, s, None)
}

/// As `merged`, but the cluster `excluded` (one being moved) keeps its
/// live position.
pub open spec fn merged_except<P>(p: PersistedView<P>, s: CanvasView<P>, excluded: Option<ClusterId>) -> CanvasView<P> {
    CanvasView {
        clusters: Seq::new(s.clusters.len(), |k: int| merged_cluster(s.clusters, coords_of(p.clusters), excluded, k)),
        windows: s.windows.map_values(|w: Window| merged_window(w, p.assignments)),
        zoom: match p.active {
            Some(id) => if s.zoom == ZoomLevel::Overview {
                ZoomLevel::Cluster(id)
            } else {
                s.zoom
            },
            None => s.zoom,
        },
        ..s
    }
}

impl<P: Copy> PersistedOverviewState<P> {
    /// Seeds `state` at start-up: the saved clusters replace the live ones
    /// and the saved zoomed-into cluster is zoomed into again.
    pub fn apply_to_canvas_seed(&self, state: &mut CanvasState<P>)
        ensures
            final(state)@ == seeded(self@, old(state)@),
    {
        let mut clusters: Vec<Cluster<P>> = Vec::new();
        let mut i: usize = 0;
        while i < self.clusters.len()
            invariant
                i <= self.clusters@.len(),
                clusters@.len() == i,
                forall|k: int| 0 <= k < i ==> (#[trigger] clusters@[k])@ == seeded_cluster(self.clusters@[k]@),
            decreases self.clusters.len() - i,
        {
            let c = &self.clusters[i];
            clusters.push(
                Cluster {
                    id: c.id,
                    name: c.name.clone(),
                    x: c.x,
                    y: c.y,
                    enabled: true,
                    windows: Vec::new(),
                    last_focus: None,
                    recency: Vec::new(),
                },
            );
            i += 1;
        }
        state.clusters = clusters;
        if let Some(cluster_id) = self.active_cluster {
            state.zoom = ZoomLevel::Cluster(cluster_id);
        }
        assert(state@.clusters =~= seeded(self@, old(state)@).clusters);
    }

    /// The saved positions by cluster id.
    fn coords(&self) -> (r: BTreeMap<ClusterId, (P, P)>)
        ensures
            r@ == coords_of(self@.clusters),
    {
        let mut coords: BTreeMap<ClusterId, (P, P)> = BTreeMap::new();
        let mut i: usize = 0;
        while i < self.clusters.len()
            invariant
                i <= self.clusters@.len(),
                coords@ == coords_of(self@.clusters.take(i as int)),
            decreases self.clusters.len() - i,
        {
            assert(self@.clusters.take(i + 1).drop_last() =~= self@.clusters.take(i as int));
            coords.insert(self.clusters[i].id, (self.clusters[i].x, self.clusters[i].y));
            i += 1;
        }
        assert(self@.clusters.take(self@.clusters.len() as int) =~= self@.clusters);
        coords
    }

    /// Merges the saved state into the live canvas: saved positions and
    /// hand-made assignments come back, and an overview zooms into the
    /// saved cluster.
    pub fn merge_into_live_canvas(&self, state: &mut CanvasState<P>)
        ensures
            final(state)@ == merged(self@, old(state)@),
    {
        self.merge_into_live_canvas_excluding(state, None);
    }

    /// As `merge_into_live_canvas`, but cluster `excluded` (one whose move
    /// is in flight) keeps its live position.
    pub fn merge_into_live_canvas_excluding(&self, state: &mut CanvasState<P>, excluded: Option<ClusterId>)
        ensures
            final(state)@ == merged_except(self@, old(state)@, excluded),
    {
        let ghost s0 = state@;
        let ghost all = coords_of(self@.clusters);
        let mut coords = self.coords();
        let mut i: usize = 0;
        while i < state.clusters.len()
            invariant
                i <= state.clusters@.len(),
                state@.clusters.len() == s0.clusters.len(),
                state@.windows == s0.windows,
                state@.zoom == s0.zoom,
                state@.state_revision == s0.state_revision,
                all == coords_of(self@.clusters),
                forall|k: int| 0 <= k < i ==> (#[trigger] state@.clusters[k]) == merged_cluster(s0.clusters, all, excluded, k),
                forall|k: int| i <= k < s0.clusters.len() ==> (#[trigger] state@.clusters[k]) == s0.clusters[k],
                forall|id: ClusterId| #[trigger] coords@.contains_key(id) <==> all.contains_key(id)
                    && (excluded == Some(id) || !(exists|j: int| 0 <= j < i && (#[trigger] s0.clusters[j]).id == id)),
                forall|id: ClusterId| #[trigger] coords@.contains_key(id) ==> coords@[id] == all[id],
            decreases state.clusters.len() - i,
        {
            let id = state.clusters[i].id;
            let ghost before = coords@;
            assert(s0.clusters[i as int] == state@.clusters[i as int]);
            let skip = match excluded {
                Some(e) => e == id,
                None => false,
            };
            if skip {
                i += 1;
                continue;
            }
            assert(coords@.contains_key(id) <==> all.contains_key(id) && !id_seen_before(s0.clusters, i as int));
            match coords.remove(&id) {
                Some(xy) => {
                    let live = &state.clusters[i];
                    let c = Cluster {
                        id: live.id,
                        name: live.name.clone(),
                        x: xy.0,
                        y: xy.1,
                        enabled: live.enabled,
                        windows: vec_copy(&live.windows),
                        last_focus: live.last_focus,
                        recency: vec_copy(&live.recency),
                    };
                    let ghost cs_before = state@.clusters;
                    state.clusters.set(i, c);
                    proof {
                        assert(state@.clusters =~= cs_before.update(i as int, c@));
                        assert(state@.clusters[i as int] == merged_cluster(s0.clusters, all, excluded, i as int));
                    }
                },
                None => {
                    assert(state@.clusters[i as int] == merged_cluster(s0.clusters, all, excluded, i as int));
                },
            }
            proof {
                assert forall|id2: ClusterId| #[trigger] coords@.contains_key(id2) <==> all.contains_key(id2)
                    && (excluded == Some(id2) || !(exists|j: int| 0 <= j < i + 1 && (#[trigger] s0.clusters[j]).id == id2)) by {
                    if id2 == id {
                        assert(s0.clusters[i as int].id == id2);
                    } else {
                        if exists|j: int| 0 <= j < i + 1 && (#[trigger] s0.clusters[j]).id == id2 {
                            let j = choose|j: int| 0 <= j < i + 1 && (#[trigger] s0.clusters[j]).id == id2;
                            assert(j < i);
                        }
                    }
                }
            }
            i += 1;
        }
        assert(state@.clusters =~= merged_except(self@, s0, excluded).clusters);
        let mut j: usize = 0;
        while j < state.windows.len()
            invariant
                j <= state.windows@.len(),
                state@.windows.len() == s0.windows.len(),
                state@.clusters == merged_except(self@, s0, excluded).clusters,
                state@.zoom == s0.zoom,
                state@.state_revision == s0.state_revision,
                forall|k: int| 0 <= k < j ==> (#[trigger] state@.windows[k]) == merged_window(s0.windows[k], self@.assignments),
                forall|k: int| j <= k < s0.windows.len() ==> (#[trigger] state@.windows[k]) == s0.windows[k],
            decreases state.windows.len() - j,
        {
            match self.manual_window_assignments.get(&state.windows[j].id) {
                Some(c) => {
                    let mut w = state.windows[j].duplicate();
                    w.cluster_id = Some(*c);
                    w.manual_cluster_override = true;
                    state.windows.set(j, w);
                },
                None => {},
            }
            j += 1;
        }
        if let Some(cluster_id) = self.active_cluster {
            if state.zoom == ZoomLevel::Overview {
                state.zoom = ZoomLevel::Cluster(cluster_id);
            }
        }
        assert(state@.windows =~= merged_except(self@, s0, excluded).windows);
    }
}

/// Cluster `j` is the last one in `cs` with its id.
pub open spec fn last_of_id<P>(cs: Seq<ClusterView<P>>, j: int) -> bool {
    &&& 0 <= j < cs.len()
    &&& forall|i: int| j < i < cs.len() ==> (#[trigger] cs[i]).id != cs[j].id
}

/// Window `j` is the last one in `ws` with its id.
pub open spec fn last_window_of_id(ws: Seq<Window>, j: int) -> bool {
    &&& 0 <= j < ws.len()
    &&& forall|i: int| j < i < ws.len() ==> (#[trigger] ws[i]).id != ws[j].id
}

proof fn lemma_coords_of_last<P>(cs: Seq<PersistedClusterView<P>>, j: int)
    requires
        0 <= j < cs.len(),
        forall|i: int| j < i < cs.len() ==> (#[trigger] cs[i]).id != cs[j].id,
    ensures
        coords_of(cs).contains_key(cs[j].id),
        coords_of(cs)[cs[j].id] == (cs[j].x, cs[j].y),
    decreases cs.len(),
{
    if j < cs.len() - 1 {
        let rest = cs.drop_last();
        assert(cs.last().id != cs[j].id);
        assert forall|i: int| j < i < rest.len() implies (#[trigger] rest[i]).id != rest[j].id by {
            assert(rest[i] == cs[i]);
        }
        lemma_coords_of_last(rest, j);
    }
}

proof fn lemma_manual_last(ws: Seq<Window>, j: int)
    requires
        last_window_of_id(ws, j),
        ws[j].manual_cluster_override,
        ws[j].cluster_id is Some,
    ensures
        manual_assignments(ws).contains_key(ws[j].id),
        Some(manual_assignments(ws)[ws[j].id]) == ws[j].cluster_id,
    decreases ws.len(),
{
    if j < ws.len() - 1 {
        let rest = ws.drop_last();
        assert(ws.last().id != ws[j].id);
        assert forall|i: int| j < i < rest.len() implies (#[trigger] rest[i]).id != rest[j].id by {
            assert(rest[i] == ws[i]);
        }
        lemma_manual_last(rest, j);
    }
}

/// Saving a canvas and seeding a fresh canvas from what was saved brings
/// back every cluster, in order, with its id, name and position, empty
/// and enabled, and zooms back into the cluster that was zoomed into.
pub proof fn law_seed_restores_clusters<P>(s: CanvasView<P>, fresh: CanvasView<P>)
    ensures
        ({
            let r = seeded(snapshot_of(s), fresh);
            &&& r.clusters.len() == s.clusters.len()
            &&& forall|k: int| 0 <= k < s.clusters.len() ==> {
                let c = #[trigger] r.clusters[k];
                &&& c.id == s.clusters[k].id
                &&& c.name == s.clusters[k].name
                &&& c.x == s.clusters[k].x
                &&& c.y == s.clusters[k].y
                &&& c.enabled
                &&& c.windows.len() == 0
            }
            &&& (s.zoom is Cluster ==> r.zoom == s.zoom)
            &&& r.windows == fresh.windows
        }),
{
}

/// Saving a canvas and merging what was saved into a live canvas puts
/// back each saved cluster's position (on the first live cluster with
/// that id) and each hand-made window assignment, and an overview zooms
/// back into the cluster that was zoomed into.
pub proof fn law_merge_restores_saved<P>(s: CanvasView<P>, live: CanvasView<P>)
    ensures
        ({
            let r = merged(snapshot_of(s), live);
            &&& r.clusters.len() == live.clusters.len()
            &&& forall|k: int, j: int|
                #![trigger r.clusters[k], s.clusters[j]]
                0 <= k < live.clusters.len() && last_of_id(s.clusters, j) && !id_seen_before(live.clusters, k)
                    && live.clusters[k].id == s.clusters[j].id ==> r.clusters[k] == ClusterView {
                    x: s.clusters[j].x,
                    y: s.clusters[j].y,
                    ..live.clusters[k]
                }
            &&& r.windows.len() == live.windows.len()
            &&& forall|k: int, j: int|
                #![trigger r.windows[k], s.windows[j]]
                0 <= k < live.windows.len() && last_window_of_id(s.windows, j)
                    && s.windows[j].manual_cluster_override && s.windows[j].cluster_id is Some
                    && live.windows[k].id == s.windows[j].id ==> r.windows[k] == Window {
                    cluster_id: s.windows[j].cluster_id,
                    manual_cluster_override: true,
                    ..live.windows[k]
                }
            &&& (live.zoom == ZoomLevel::Overview && s.zoom is Cluster ==> r.zoom == s.zoom)
        }),
{
    let p = snapshot_of(s);
    let r = merged(p, live);
    assert forall|k: int, j: int|
        #![trigger r.clusters[k], s.clusters[j]]
        0 <= k < live.clusters.len() && last_of_id(s.clusters, j) && !id_seen_before(live.clusters, k)
            && live.clusters[k].id == s.clusters[j].id implies r.clusters[k] == ClusterView {
            x: s.clusters[j].x,
            y: s.clusters[j].y,
            ..live.clusters[k]
        } by {
        assert forall|i: int| j < i < p.clusters.len() implies (#[trigger] p.clusters[i]).id != p.clusters[j].id by {
            assert(s.clusters[i].id != s.clusters[j].id);
        }
        lemma_coords_of_last(p.clusters, j);
    }
    assert forall|k: int, j: int|
        #![trigger r.windows[k], s.windows[j]]
        0 <= k < live.windows.len() && last_window_of_id(s.windows, j)
            && s.windows[j].manual_cluster_override && s.windows[j].cluster_id is Some
            && live.windows[k].id == s.windows[j].id implies r.windows[k] == Window {
            cluster_id: s.windows[j].cluster_id,
            manual_cluster_override: true,
            ..live.windows[k]
        } by {
        lemma_manual_last(s.windows, j);
    }
}

/// Each window's cluster and hand-made flag by window id; a later window
/// wins over an earlier one with the same id.
pub open spec fn assignment_map(ws: Seq<Window>) -> Map<WindowId, (Option<ClusterId>, bool)>
    decreases ws.len(),
{
    if ws.len() == 0 {
        Map::empty()
    } else {
        assignment_map(ws.drop_last()).insert(ws.last().id, (ws.last().cluster_id, ws.last().manual_cluster_override))
    }
}

proof fn lemma_assignment_map_dom(ws: Seq<Window>, id: WindowId)
    ensures
        assignment_map(ws).contains_key(id) <==> exists|i: int| 0 <= i < ws.len() && (#[trigger] ws[i]).id == id,
    decreases ws.len(),
{
    if ws.len() > 0 {
        let rest = ws.drop_last();
        lemma_assignment_map_dom(rest, id);
        if exists|i: int| 0 <= i < rest.len() && (#[trigger] rest[i]).id == id {
            let i = choose|i: int| 0 <= i < rest.len() && (#[trigger] rest[i]).id == id;
            assert(ws[i] == rest[i]);
        }
        if exists|i: int| 0 <= i < ws.len() && (#[trigger] ws[i]).id == id {
            let i = choose|i: int| 0 <= i < ws.len() && (#[trigger] ws[i]).id == id;
            if i < ws.len() - 1 {
                assert(rest[i] == ws[i]);
            }
        }
    }
}

fn assignment_table(ws: &Vec<Window>) -> (r: BTreeMap<WindowId, (Option<ClusterId>, bool)>)
    ensures
        r@ == assignment_map(ws@),
{
    let mut m: BTreeMap<WindowId, (Option<ClusterId>, bool)> = BTreeMap::new();
    let mut i: usize = 0;
    while i < ws.len()
        invariant
            i <= ws@.len(),
            m@ == assignment_map(ws@.take(i as int)),
        decreases ws.len() - i,
    {
        assert(ws@.take(i + 1).drop_last() =~= ws@.take(i as int));
        m.insert(ws[i].id, (ws[i].cluster_id, ws[i].manual_cluster_override));
        i += 1;
    }
    assert(ws@.take(ws@.len() as int) =~= ws@);
    m
}

fn same_assignment(a: Option<&(Option<ClusterId>, bool)>, b: Option<&(Option<ClusterId>, bool)>) -> (r: bool)
    ensures
        r == (a == b),
{
    match (a, b) {
        (Some(x), Some(y)) => {
            let same_cluster = match (x.0, y.0) {
                (Some(c), Some(d)) => c == d,
                (None, None) => true,
                _ => false,
            };
            same_cluster && x.1 == y.1
        },
        (None, None) => true,
        _ => false,
    }
}

/// Whether any window changed cluster or hand-made flag between two
/// window lists, appeared or disappeared.
pub fn window_assignment_changed(previous: &Vec<Window>, next: &Vec<Window>) -> (r: bool)
    ensures
        r == (assignment_map(previous@) != assignment_map(next@)),
{
    let before = assignment_table(previous);
    let after = assignment_table(next);
    let ghost a = assignment_map(previous@);
    let ghost b = assignment_map(next@);
    let mut i: usize = 0;
    while i < previous.len()
        invariant
            i <= previous@.len(),
            before@ == a,
            after@ == b,
            a == assignment_map(previous@),
            b == assignment_map(next@),
            forall|k: int| 0 <= k < i ==> b.contains_key((#[trigger] previous@[k]).id)
                && b[previous@[k].id] == a[previous@[k].id],
        decreases previous.len() - i,
    {
        let id = previous[i].id;
        proof {
            lemma_assignment_map_dom(previous@, id);
        }
        let x = before.get(&id);
        let y = after.get(&id);
        if !same_assignment(x, y) {
            return true;
        }
        i += 1;
    }
    let mut j: usize = 0;
    while j < next.len()
        invariant
            j <= next@.len(),
            before@ == a,
            after@ == b,
            a == assignment_map(previous@),
            b == assignment_map(next@),
            forall|k: int| 0 <= k < previous@.len() ==> b.contains_key((#[trigger] previous@[k]).id)
                && b[previous@[k].id] == a[previous@[k].id],
            forall|k: int| 0 <= k < j ==> a.contains_key((#[trigger] next@[k]).id),
        decreases next.len() - j,
    {
        let id = next[j].id;
        proof {
            lemma_assignment_map_dom(next@, id);
        }
        if !before.contains_key(&id) {
            return true;
        }
        j += 1;
    }
    proof {
        assert forall|id: WindowId| a.contains_key(id) <==> b.contains_key(id) by {
            lemma_assignment_map_dom(previous@, id);
            lemma_assignment_map_dom(next@, id);
            if a.contains_key(id) {
                let k = choose|k: int| 0 <= k < previous@.len() && (#[trigger] previous@[k]).id == id;
            }
            if b.contains_key(id) {
                let k = choose|k: int| 0 <= k < next@.len() && (#[trigger] next@[k]).id == id;
            }
        }
        assert forall|id: WindowId| #[trigger] a.contains_key(id) implies a[id] == b[id] by {
            lemma_assignment_map_dom(previous@, id);
            let k = choose|k: int| 0 <= k < previous@.len() && (#[trigger] previous@[k]).id == id;
        }
        assert(a =~= b);
    }
    false
}

/// How long a debounced save waits, in milliseconds.
pub const DEFAULT_DEBOUNCE_MS: u64 = 250;

/// When the saved state is due to be written: at once, or once the
/// debounce delay has passed since the last debounced request. It hands
/// out the state to write; the caller writes it.
pub struct OverviewPersistence<P> {
    debounce_ms: u64,
    pending: Option<PersistedOverviewState<P>>,
    pending_deadline_ms: Option<u64>,
}

pub struct ScheduleView<P> {
    pub debounce: u64,
    pub pending: Option<PersistedView<P>>,
    pub deadline: Option<u64>,
}

pub open spec fn opt_view<P>(o: Option<PersistedOverviewState<P>>) -> Option<PersistedView<P>> {
    match o {
        Some(p) => Some(p@),
        None => None,
    }
}

impl<P> View for OverviewPersistence<P> {
    type V = ScheduleView<P>;

    closed spec fn view(&self) -> ScheduleView<P> {
        ScheduleView { debounce: self.debounce_ms, pending: opt_view(self.pending), deadline: self.pending_deadline_ms }
    }
}

/// The schedule after a debounced request for `snap` at time `now`.
pub open spec fn debounced_step<P>(v: ScheduleView<P>, snap: PersistedView<P>, now: u64) -> ScheduleView<P> {
    ScheduleView { pending: Some(snap), deadline: Some((now + v.debounce) as u64), ..v }
}

/// The schedule after the pending state, if any, is handed out.
pub open spec fn cleared<P>(v: ScheduleView<P>) -> ScheduleView<P> {
    ScheduleView { pending: None, deadline: None, ..v }
}

/// Schedule and state to write when asked at time `now` for what is due.
pub open spec fn due_step<P>(v: ScheduleView<P>, now: u64) -> (ScheduleView<P>, Option<PersistedView<P>>) {
    match v.deadline {
        Some(d) => if now < d {
            (v, None)
        } else {
            (cleared(v), v.pending)
        },
        None => (v, None),
    }
}

impl<P: Copy> OverviewPersistence<P> {
    pub fn new() -> (r: Self)
        ensures
            r@ == (ScheduleView::<P> { debounce: DEFAULT_DEBOUNCE_MS, pending: None, deadline: None }),
    {
        Self::with_debounce(DEFAULT_DEBOUNCE_MS)
    }

    pub fn with_debounce(debounce_ms: u64) -> (r: Self)
        ensures
            r@ == (ScheduleView::<P> { debounce: debounce_ms, pending: None, deadline: None }),
    {
        OverviewPersistence { debounce_ms, pending: None, pending_deadline_ms: None }
    }

    pub fn debounce_ms(&self) -> (r: u64)
        ensures
            r == self@.debounce,
    {
        self.debounce_ms
    }

    /// The state to write right away; drops any pending debounced one.
    pub fn persist_immediate(&mut self, state: &CanvasState<P>) -> (r: PersistedOverviewState<P>)
        ensures
            r@ == snapshot_of(state@),
            final(self)@ == cleared(old(self)@),
    {
        let snapshot = PersistedOverviewState::from_canvas(state);
        self.pending = None;
        self.pending_deadline_ms = None;
        snapshot
    }

    /// Keeps `state` to be written once the debounce delay has passed from
    /// `now_ms`, replacing any earlier pending state.
    pub fn persist_debounced(&mut self, state: &CanvasState<P>, now_ms: u64)
        requires
            now_ms + old(self)@.debounce <= u64::MAX,
        ensures
            final(self)@ == debounced_step(old(self)@, snapshot_of(state@), now_ms),
    {
        self.pending = Some(PersistedOverviewState::from_canvas(state));
        self.pending_deadline_ms = Some(now_ms + self.debounce_ms);
    }

    /// At time `now_ms`, the pending state if its delay has passed.
    pub fn flush_due(&mut self, now_ms: u64) -> (r: Option<PersistedOverviewState<P>>)
        ensures
            (final(self)@, opt_view(r)) == due_step(old(self)@, now_ms),
    {
        match self.pending_deadline_ms {
            Some(deadline) => if now_ms < deadline {
                None
            } else {
                self.flush_pending()
            },
            None => None,
        }
    }

    /// The pending state, if any, whatever the time.
    pub fn flush_pending(&mut self) -> (r: Option<PersistedOverviewState<P>>)
        ensures
            opt_view(r) == old(self)@.pending,
            final(self)@ == cleared(old(self)@),
    {
        let pending = self.pending.take();
        self.pending_deadline_ms = None;
        pending
    }
}

impl<P: Copy> Default for OverviewPersistence<P> {
    fn default() -> (r: Self)
        ensures
            r@ == (ScheduleView::<P> { debounce: DEFAULT_DEBOUNCE_MS, pending: None, deadline: None }),
    {
        Self::new()
    }
}

/// What changed in a mutation, as far as saving goes.
#[derive(Debug, Clone, Copy, PartialEq, Eq, Structural)]
pub struct MutationChanges {
    /// A cluster moved, appeared, disappeared or was renamed.
    pub positions: bool,
    /// A window changed cluster or hand-made flag, appeared or disappeared.
    pub assignments: bool,
    pub zoom: bool,
    pub viewport: bool,
}

/// What to write after a mutation.
pub enum PersistStep<P> {
    /// Write this state now; it replaces any pending one.
    Immediate(PersistedOverviewState<P>),
    /// The state was put off; write this one, if any, whose delay passed.
    Debounced(Option<PersistedOverviewState<P>>),
    /// Nothing to save.
    Nothing,
}

/// Whether a mutation with these changes is saved at once: a change of
/// positions, assignments or zoom level is; one of the viewport alone is
/// debounced.
pub open spec fn saved_at_once(c: MutationChanges) -> bool {
    c.positions || c.assignments || c.zoom
}

impl<P: Copy> OverviewPersistence<P> {
    /// Saves after a mutation that left `state`: at once where positions,
    /// assignments or the zoom level changed, debounced at `now_ms` where
    /// only the viewport moved (handing out what has come due), not at all
    /// otherwise.
    pub fn after_mutation(&mut self, state: &CanvasState<P>, changes: MutationChanges, now_ms: u64) -> (r: PersistStep<P>)
        requires
            !saved_at_once(changes) && changes.viewport ==> now_ms + old(self)@.debounce <= u64::MAX,
        ensures
            saved_at_once(changes) ==> (r matches PersistStep::Immediate(s) && s@ == snapshot_of(state@)
                && final(self)@ == cleared(old(self)@)),
            !saved_at_once(changes) && changes.viewport ==> (r matches PersistStep::Debounced(o) && (final(self)@, opt_view(o))
                == due_step(debounced_step(old(self)@, snapshot_of(state@), now_ms), now_ms)),
            !saved_at_once(changes) && !changes.viewport ==> r is Nothing && final(self)@ == old(self)@,
    {
        if changes.positions || changes.assignments || changes.zoom {
            PersistStep::Immediate(self.persist_immediate(state))
        } else if changes.viewport {
            self.persist_debounced(state, now_ms);
            PersistStep::Debounced(self.flush_due(now_ms))
        } else {
            PersistStep::Nothing
        }
    }
}

/// Of several debounced requests, only the last one is written, once its
/// delay has passed, and only once.
pub proof fn law_debounce_writes_latest_once<P>(
    v: ScheduleView<P>,
    first: PersistedView<P>,
    t1: u64,
    second: PersistedView<P>,
    t2: u64,
    now: u64,
)
    requires
        t1 + v.debounce <= u64::MAX,
        t2 + v.debounce <= u64::MAX,
        now >= t2 + v.debounce,
    ensures
        ({
            let (after, written) = due_step(debounced_step(debounced_step(v, first, t1), second, t2), now);
            &&& written == Some(second)
            &&& due_step(after, now).1 is None
        }),
{
}

/// A debounced request is not written before its delay has passed.
pub proof fn law_debounce_waits<P>(v: ScheduleView<P>, snap: PersistedView<P>, t: u64, now: u64)
    requires
        t + v.debounce <= u64::MAX,
        now < t + v.debounce,
    ensures
        due_step(debounced_step(v, snap, t), now) == (debounced_step(v, snap, t), Option::<PersistedView<P>>::None),
{
}

} // verus!
