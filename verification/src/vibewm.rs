//! The compositor's registry of window ids and workspaces (clusters), and
//! the base64 text encoding its control protocol uses for thumbnails.

use vstd::prelude::*;

use crate::contracts::{Cluster, ClusterView};
use crate::seq_util::{remove_all, vec_contains, vec_copy, vec_without};
use crate::text::{chars_eq, chars_of, push_char};

verus! {

broadcast use vstd::seq_lib::group_seq_properties;

pub type ClusterId = u64;

pub type WindowId = u64;

/// A compositor workspace and the windows assigned to it.
#[derive(Debug, Clone)]
pub struct ClusterEntry {
    pub id: ClusterId,
    pub name: String,
    /// Window ids assigned to this cluster, in stable insertion order.
    pub windows: Vec<WindowId>,
}

/// Mathematical view of a workspace entry.
pub struct EntryView {
    pub id: ClusterId,
    pub name: Seq<char>,
    pub windows: Seq<WindowId>,
}

impl View for ClusterEntry {
    type V = EntryView;

    open spec fn view(&self) -> EntryView {
        EntryView { id: self.id, name: self.name@, windows: self.windows@ }
    }
}

pub open spec fn entry_views(cs: Seq<ClusterEntry>) -> Seq<EntryView> {
    cs.map_values(|c: ClusterEntry| c@)
}

/// Assigns stable window ids, tracks which workspace each window is on and
/// which workspace is active, and remembers the previously active one.
pub struct VibewmModel {
    next_window_id: u64,
    next_cluster_id: u64,
    /// Registered window ids, in increasing order.
    pub windows: Vec<WindowId>,
    pub clusters: Vec<ClusterEntry>,
    pub active_cluster: ClusterId,
    /// Previous cluster, used by back-and-forth. None on first boot.
    pub previous_cluster: Option<ClusterId>,
}

/// Mathematical view of the registry.
pub struct RegistryView {
    pub next_window: u64,
    pub last_cluster: u64,
    pub windows: Seq<WindowId>,
    pub clusters: Seq<EntryView>,
    pub active: ClusterId,
    pub previous: Option<ClusterId>,
}

impl View for VibewmModel {
    type V = RegistryView;

    closed spec fn view(&self) -> RegistryView {
        RegistryView {
            next_window: self.next_window_id,
            last_cluster: self.next_cluster_id,
            windows: self.windows@,
            clusters: entry_views(self.clusters@),
            active: self.active_cluster,
            previous: self.previous_cluster,
        }
    }
}

/// The first workspace with id `id`.
pub open spec fn first_entry(cs: Seq<EntryView>, id: ClusterId, k: int) -> bool {
    &&& 0 <= k < cs.len()
    &&& cs[k].id == id
    &&& forall|j: int| 0 <= j < k ==> (#[trigger] cs[j]).id != id
}

pub open spec fn has_entry(cs: Seq<EntryView>, id: ClusterId) -> bool {
    exists|k: int| 0 <= k < cs.len() && (#[trigger] cs[k]).id == id
}

/// Active and previous workspace after a back-and-forth.
pub open spec fn swap_step(active: ClusterId, previous: Option<ClusterId>) -> (ClusterId, Option<ClusterId>) {
    match previous {
        Some(prev) => (prev, Some(active)),
        None => (active, None),
    }
}

impl VibewmModel {
    /// A registry with one workspace named `1`, active, and no windows.
    pub fn new() -> (r: Self)
        ensures
            r@.clusters.len() == 1,
            r@.clusters[0].id == 1,
            r@.clusters[0].name == "1"@,
            r@.clusters[0].windows.len() == 0,
            r@.active == 1,
            r@.previous is None,
            r@.windows.len() == 0,
            r@.next_window == 1,
            r@.last_cluster == 1,
    {
        let mut model = VibewmModel {
            next_window_id: 1,
            next_cluster_id: 0,
            windows: Vec::new(),
            clusters: Vec::new(),
            active_cluster: 0,
            previous_cluster: None,
        };
        let default_id = model.create_cluster("1".to_owned());
        model.active_cluster = default_id;
        model
    }

    /// Registers a new window under a fresh id and assigns it to the active
    /// workspace.
    pub fn register_window(&mut self) -> (id: WindowId)
        requires
            old(self)@.next_window < u64::MAX,
        ensures
            id == old(self)@.next_window,
            final(self)@.next_window == id + 1,
            final(self)@.last_cluster == old(self)@.last_cluster,
            final(self)@.windows == old(self)@.windows.push(id),
            final(self)@.active == old(self)@.active,
            final(self)@.previous == old(self)@.previous,
            final(self)@.clusters.len() == old(self)@.clusters.len(),
            forall|k: int| 0 <= k < final(self)@.clusters.len() ==> {
                let before = #[trigger] old(self)@.clusters[k];
                let after = final(self)@.clusters[k];
                &&& after.id == before.id
                &&& after.name == before.name
                &&& after.windows == if first_entry(old(self)@.clusters, old(self)@.active, k) {
                    before.windows.push(id)
                } else {
                    before.windows
                }
            },
    {
        let id = self.next_window_id;
        self.next_window_id = self.next_window_id + 1;
        self.windows.push(id);
        let ghost cs0 = self.clusters@;
        let mut k: usize = 0;
        while k < self.clusters.len()
            invariant
                k <= self.clusters@.len(),
                self.clusters@ == cs0,
                cs0 == old(self).clusters@,
                id == old(self).next_window_id,
                self.next_window_id == id + 1,
                self.next_cluster_id == old(self).next_cluster_id,
                self.windows@ == old(self).windows@.push(id),
                self.active_cluster == old(self).active_cluster,
                self.previous_cluster == old(self).previous_cluster,
                forall|j: int| 0 <= j < k ==> (#[trigger] cs0[j]).id != self.active_cluster,
            decreases self.clusters.len() - k,
        {
            if self.clusters[k].id == self.active_cluster {
                let mut c = self.clusters.remove(k);
                c.windows.push(id);
                self.clusters.insert(k, c);
                assert(first_entry(entry_views(cs0), self.active_cluster, k as int));
                assert forall|j: int| 0 <= j < self.clusters@.len() && j != k implies self.clusters@[j] == cs0[j] by {}
                assert forall|j: int| 0 <= j < self.clusters@.len() && j != k implies !first_entry(entry_views(cs0), self.active_cluster, j) by {
                    if j > k {
                        assert(entry_views(cs0)[k as int].id == self.active_cluster);
                    }
                }
                return id;
            }
            k += 1;
        }
        assert forall|j: int| 0 <= j < cs0.len() implies !first_entry(entry_views(cs0), self.active_cluster, j) by {
            assert(cs0[j].id != self.active_cluster);
        }
        id
    }

    /// Forgets window `id` everywhere.
    pub fn unregister_window(&mut self, id: WindowId)
        ensures
            final(self)@.next_window == old(self)@.next_window,
            final(self)@.last_cluster == old(self)@.last_cluster,
            final(self)@.windows == remove_all(old(self)@.windows, id),
            final(self)@.active == old(self)@.active,
            final(self)@.previous == old(self)@.previous,
            final(self)@.clusters.len() == old(self)@.clusters.len(),
            forall|k: int| 0 <= k < final(self)@.clusters.len() ==> {
                let before = #[trigger] old(self)@.clusters[k];
                let after = final(self)@.clusters[k];
                &&& after.id == before.id
                &&& after.name == before.name
                &&& after.windows == remove_all(before.windows, id)
            },
    {
        self.windows = vec_without(&self.windows, id);
        let ghost cs0 = self.clusters@;
        let mut k: usize = 0;
        while k < self.clusters.len()
            invariant
                k <= self.clusters@.len(),
                self.clusters@.len() == cs0.len(),
                self.windows@ == remove_all(old(self).windows@, id),
                self@.next_window == old(self)@.next_window,
                self@.last_cluster == old(self)@.last_cluster,
                self.active_cluster == old(self).active_cluster,
                self.previous_cluster == old(self).previous_cluster,
                cs0 == old(self).clusters@,
                forall|j: int| 0 <= j < k ==> {
                    let before = #[trigger] cs0[j];
                    let after = self.clusters@[j];
                    &&& after.id == before.id
                    &&& after.name == before.name
                    &&& after.windows@ == remove_all(before.windows@, id)
                },
                forall|j: int| k <= j < cs0.len() ==> #[trigger] self.clusters@[j] == cs0[j],
            decreases self.clusters.len() - k,
        {
            let mut c = self.clusters.remove(k);
            c.windows = vec_without(&c.windows, id);
            self.clusters.insert(k, c);
            k += 1;
        }
    }

    /// Forgets every window of `dead`.
    pub fn prune_dead(&mut self, dead: &[WindowId])
        ensures
            final(self)@.active == old(self)@.active,
            final(self)@.previous == old(self)@.previous,
            final(self)@.clusters.len() == old(self)@.clusters.len(),
            forall|i: int, w: WindowId| 0 <= i < dead@.len() && w == dead@[i] ==> !final(self)@.windows.contains(w),
    {
        let mut i: usize = 0;
        while i < dead.len()
            invariant
                i <= dead@.len(),
                self.active_cluster == old(self).active_cluster,
                self.previous_cluster == old(self).previous_cluster,
                self.clusters@.len() == old(self).clusters@.len(),
                forall|q: int, w: WindowId| 0 <= q < i && w == dead@[q] ==> !self.windows@.contains(w),
            decreases dead.len() - i,
        {
            let ghost before = self.windows@;
            self.unregister_window(dead[i]);
            proof {
                assert forall|q: int, w: WindowId| 0 <= q < i + 1 && w == dead@[q] implies !self.windows@.contains(w) by {
                    crate::seq_util::lemma_remove_all_contains(before, dead@[i as int], w);
                }
            }
            i += 1;
        }
    }

    /// Creates an empty workspace named `name` under the next id.
    pub fn create_cluster(&mut self, name: String) -> (id: ClusterId)
        requires
            old(self)@.last_cluster < u64::MAX,
        ensures
            id == old(self)@.last_cluster + 1,
            final(self)@.last_cluster == id,
            final(self)@.next_window == old(self)@.next_window,
            final(self)@.windows == old(self)@.windows,
            final(self)@.active == old(self)@.active,
            final(self)@.previous == old(self)@.previous,
            final(self)@.clusters == old(self)@.clusters.push(
                EntryView { id: id, name: name@, windows: Seq::empty() },
            ),
    {
        self.next_cluster_id = self.next_cluster_id + 1;
        let id = self.next_cluster_id;
        self.clusters.push(ClusterEntry { id, name, windows: Vec::new() });
        assert(entry_views(self.clusters@) =~= entry_views(old(self).clusters@).push(
            EntryView { id: id, name: name@, windows: Seq::empty() },
        ));
        id
    }

    /// The id of the first workspace named `name`.
    pub fn find_cluster_by_name(&self, name: &str) -> (r: Option<ClusterId>)
        ensures
            match r {
                Some(id) => exists|k: int| 0 <= k < self@.clusters.len() && (#[trigger] self@.clusters[k]).name == name@
                    && self@.clusters[k].id == id && forall|j: int| 0 <= j < k ==> self@.clusters[j].name != name@,
                None => forall|k: int| 0 <= k < self@.clusters.len() ==> (#[trigger] self@.clusters[k]).name != name@,
            },
    {
        let name_chars = chars_of(name);
        let mut k: usize = 0;
        while k < self.clusters.len()
            invariant
                k <= self.clusters@.len(),
                name_chars@ == name@,
                forall|j: int| 0 <= j < k ==> (#[trigger] self.clusters@[j]).name@ != name@,
            decreases self.clusters.len() - k,
        {
            if chars_eq(&chars_of(self.clusters[k].name.as_str()), &name_chars) {
                assert(self@.clusters[k as int] == self.clusters@[k as int]@);
                assert forall|j: int| 0 <= j < k implies self@.clusters[j].name != name@ by {
                    assert(self@.clusters[j] == self.clusters@[j]@);
                }
                return Some(self.clusters[k].id);
            }
            k += 1;
        }
        assert forall|j: int| 0 <= j < self@.clusters.len() implies (#[trigger] self@.clusters[j]).name != name@ by {
            assert(self@.clusters[j] == self.clusters@[j]@);
        }
        None
    }

    /// Activates workspace `id`, remembering the previous one when it
    /// changes; `false` when no workspace has that id.
    pub fn activate_cluster(&mut self, id: ClusterId) -> (r: bool)
        ensures
            r == has_entry(old(self)@.clusters, id),
            final(self)@.clusters == old(self)@.clusters,
            final(self)@.windows == old(self)@.windows,
            final(self)@.next_window == old(self)@.next_window,
            final(self)@.last_cluster == old(self)@.last_cluster,
            !r || old(self)@.active == id ==> final(self)@.active == old(self)@.active
                && final(self)@.previous == old(self)@.previous,
            r && old(self)@.active != id ==> final(self)@.active == id
                && final(self)@.previous == Some(old(self)@.active),
    {
        let mut found = false;
        let mut k: usize = 0;
        while k < self.clusters.len()
            invariant
                k <= self.clusters@.len(),
                found == exists|j: int| 0 <= j < k && (#[trigger] self.clusters@[j]).id == id,
            decreases self.clusters.len() - k,
        {
            if self.clusters[k].id == id {
                found = true;
            }
            k += 1;
        }
        assert(found == has_entry(entry_views(self.clusters@), id)) by {
            if found {
                let j = choose|j: int| 0 <= j < self.clusters@.len() && (#[trigger] self.clusters@[j]).id == id;
                assert(entry_views(self.clusters@)[j].id == id);
            }
            if has_entry(entry_views(self.clusters@), id) {
                let j = choose|j: int| 0 <= j < self.clusters@.len() && (#[trigger] entry_views(self.clusters@)[j]).id == id;
                assert(self.clusters@[j].id == id);
            }
        }
        if !found {
            return false;
        }
        if self.active_cluster != id {
            self.previous_cluster = Some(self.active_cluster);
            self.active_cluster = id;
        }
        true
    }

    /// Swaps the active and the previous workspace; `false` when there is
    /// no previous one.
    pub fn back_and_forth(&mut self) -> (r: bool)
        ensures
            r == old(self)@.previous is Some,
            final(self)@.clusters == old(self)@.clusters,
            final(self)@.windows == old(self)@.windows,
            final(self)@.next_window == old(self)@.next_window,
            final(self)@.last_cluster == old(self)@.last_cluster,
            (final(self)@.active, final(self)@.previous) == swap_step(
                old(self)@.active,
                old(self)@.previous,
            ),
    {
        match self.previous_cluster {
            Some(prev) => {
                let cur = self.active_cluster;
                self.active_cluster = prev;
                self.previous_cluster = Some(cur);
                true
            },
            None => false,
        }
    }
}

/// Going back and forth twice returns to where it started.
pub proof fn law_back_and_forth_twice(active: ClusterId, previous: Option<ClusterId>)
    ensures
        ({
            let once = swap_step(active, previous);
            swap_step(once.0, once.1) == (active, previous)
        }),
{
}

/// Activating another workspace and going back returns to the workspace
/// that was active.
pub proof fn law_activate_then_back(active: ClusterId, previous: Option<ClusterId>, id: ClusterId)
    requires
        id != active,
    ensures
        swap_step(id, Some(active)).0 == active,
{
}

// ---------------------------------------------------------------------------
// Workspace requests of the control protocol.
// ---------------------------------------------------------------------------

/// The control-protocol requests that act on the workspace registry.
#[derive(Debug, Clone)]
pub enum WorkspaceRequest {
    /// Switch to the workspace with this id.
    ActivateCluster { cluster: ClusterId },
    /// Switch to the workspace with this name, creating it when missing.
    CreateNamedWorkspace { name: String },
    /// Switch back to the previously active workspace.
    BackAndForthWorkspace,
}

/// What the compositor does after the registry handled a workspace request.
#[derive(Debug, Clone, Copy, PartialEq, Eq)]
pub struct WorkspaceEffects {
    /// Re-sync window visibility with the active workspace.
    pub sync_visibility: bool,
    /// Tell subscribers that the workspace or focused window changed.
    pub broadcast_workspace: bool,
    /// Tell subscribers that this workspace is now mapped.
    pub cluster_mapped: Option<ClusterId>,
    /// The reply: acknowledged, or the id of a workspace that was not found.
    pub reply: Result<(), ClusterId>,
}

/// `k` is the first workspace named `name`.
pub open spec fn named_first(cs: Seq<EntryView>, name: Seq<char>, k: int) -> bool {
    &&& 0 <= k < cs.len()
    &&& cs[k].name == name
    &&& forall|j: int| 0 <= j < k ==> (#[trigger] cs[j]).name != name
}

pub open spec fn has_named(cs: Seq<EntryView>, name: Seq<char>) -> bool {
    exists|k: int| 0 <= k < cs.len() && (#[trigger] cs[k]).name == name
}

pub open spec fn named_index(cs: Seq<EntryView>, name: Seq<char>) -> int {
    choose|k: int| named_first(cs, name, k)
}

/// The registry after activating `id`.
pub open spec fn activated(v: RegistryView, id: ClusterId) -> RegistryView {
    if has_entry(v.clusters, id) && v.active != id {
        RegistryView { active: id, previous: Some(v.active), ..v }
    } else {
        v
    }
}

/// The registry after a back-and-forth.
pub open spec fn switched_back(v: RegistryView) -> RegistryView {
    RegistryView { active: swap_step(v.active, v.previous).0, previous: swap_step(v.active, v.previous).1, ..v }
}

/// The registry and workspace id that a request for the workspace named
/// `name` lands on: the first one of that name, or a new one.
pub open spec fn named_target(v: RegistryView, name: Seq<char>) -> (RegistryView, ClusterId) {
    if has_named(v.clusters, name) {
        (v, v.clusters[named_index(v.clusters, name)].id)
    } else {
        let id = (v.last_cluster + 1) as u64;
        (
            RegistryView {
                last_cluster: id,
                clusters: v.clusters.push(EntryView { id: id, name: name, windows: Seq::empty() }),
                ..v
            },
            id,
        )
    }
}

pub open spec fn switched_effects(id: ClusterId) -> WorkspaceEffects {
    WorkspaceEffects { sync_visibility: true, broadcast_workspace: true, cluster_mapped: Some(id), reply: Ok(()) }
}

pub open spec fn quiet_effects(reply: Result<(), ClusterId>) -> WorkspaceEffects {
    WorkspaceEffects { sync_visibility: false, broadcast_workspace: false, cluster_mapped: None, reply: reply }
}

/// Registry and effects of a workspace request.
pub open spec fn workspace_outcome(v: RegistryView, req: WorkspaceRequest) -> (RegistryView, WorkspaceEffects) {
    match req {
        WorkspaceRequest::ActivateCluster { cluster } => if has_entry(v.clusters, cluster) {
            (activated(v, cluster), switched_effects(cluster))
        } else {
            (v, quiet_effects(Err(cluster)))
        },
        WorkspaceRequest::CreateNamedWorkspace { name } => {
            let (v1, id) = named_target(v, name@);
            (activated(v1, id), switched_effects(id))
        },
        WorkspaceRequest::BackAndForthWorkspace => match v.previous {
            Some(_) => (switched_back(v), switched_effects(switched_back(v).active)),
            None => (v, quiet_effects(Ok(()))),
        },
    }
}

/// Whether a request can be served without running out of workspace ids.
pub open spec fn request_fits(v: RegistryView, req: WorkspaceRequest) -> bool {
    match req {
        WorkspaceRequest::CreateNamedWorkspace { name } => has_named(v.clusters, name@) || v.last_cluster < u64::MAX,
        _ => true,
    }
}

proof fn lemma_named_first_unique(cs: Seq<EntryView>, name: Seq<char>, k: int)
    requires
        named_first(cs, name, k),
    ensures
        named_index(cs, name) == k,
{
    let c = named_index(cs, name);
    assert(named_first(cs, name, c));
    if c < k {
        assert(cs[c].name != name);
    }
    if k < c {
        assert(cs[k].name != name);
    }
}

proof fn lemma_named_first_exists(cs: Seq<EntryView>, name: Seq<char>, k: int)
    requires
        0 <= k < cs.len(),
        cs[k].name == name,
    ensures
        named_first(cs, name, named_index(cs, name)),
    decreases k,
{
    if exists|j: int| 0 <= j < k && (#[trigger] cs[j]).name == name {
        let j = choose|j: int| 0 <= j < k && (#[trigger] cs[j]).name == name;
        lemma_named_first_exists(cs, name, j);
    } else {
        assert(named_first(cs, name, k));
    }
}

/// Asking twice in a row for the workspace named `name` creates it at most
/// once: the second request lands on the workspace the first one switched
/// to and leaves the registry as it was.
pub proof fn law_named_workspace_reused(v: RegistryView, name: Seq<char>)
    requires
        has_named(v.clusters, name) || v.last_cluster < u64::MAX,
    ensures
        ({
            let (v1, id) = named_target(v, name);
            let first = activated(v1, id);
            let (v2, id2) = named_target(first, name);
            &&& first.active == id
            &&& id2 == id
            &&& activated(v2, id2) == first
        }),
{
    let (v1, id) = named_target(v, name);
    if has_named(v.clusters, name) {
        let k = choose|k: int| 0 <= k < v.clusters.len() && (#[trigger] v.clusters[k]).name == name;
        lemma_named_first_exists(v.clusters, name, k);
        assert(has_entry(v1.clusters, id));
    } else {
        let last = v1.clusters.len() - 1;
        assert(v1.clusters[last].name == name);
        assert(named_first(v1.clusters, name, last));
        lemma_named_first_unique(v1.clusters, name, last);
        assert(has_entry(v1.clusters, id));
    }
    let first = activated(v1, id);
    assert(has_named(first.clusters, name)) by {
        let f = named_index(v1.clusters, name);
        if has_named(v.clusters, name) {
            assert(first.clusters[f].name == name);
        } else {
            assert(first.clusters[v1.clusters.len() - 1].name == name);
        }
    }
}

impl VibewmModel {
    /// Serves a workspace request of the control protocol: updates the
    /// registry and says which follow-up work the compositor owes.
    pub fn dispatch_workspace_request(&mut self, req: WorkspaceRequest) -> (r: WorkspaceEffects)
        requires
            request_fits(old(self)@, req),
        ensures
            (final(self)@, r) == workspace_outcome(old(self)@, req),
    {
        let ghost v0 = self@;
        match req {
            WorkspaceRequest::ActivateCluster { cluster } => {
                if self.activate_cluster(cluster) {
                    WorkspaceEffects {
                        sync_visibility: true,
                        broadcast_workspace: true,
                        cluster_mapped: Some(cluster),
                        reply: Ok(()),
                    }
                } else {
                    WorkspaceEffects {
                        sync_visibility: false,
                        broadcast_workspace: false,
                        cluster_mapped: None,
                        reply: Err(cluster),
                    }
                }
            },
            WorkspaceRequest::CreateNamedWorkspace { name } => {
                let ghost n = name@;
                let id = match self.find_cluster_by_name(name.as_str()) {
                    Some(found) => {
                        proof {
                            let k = choose|k: int| 0 <= k < v0.clusters.len() && (#[trigger] v0.clusters[k]).name == n
                                && v0.clusters[k].id == found && forall|j: int| 0 <= j < k ==> v0.clusters[j].name != n;
                            assert(named_first(v0.clusters, n, k));
                            lemma_named_first_unique(v0.clusters, n, k);
                        }
                        found
                    },
                    None => {
                        assert(!has_named(v0.clusters, n));
                        self.create_cluster(name)
                    },
                };
                let ghost v1 = self@;
                assert(has_entry(v1.clusters, id)) by {
                    if has_named(v0.clusters, n) {
                        let k = named_index(v0.clusters, n);
                        assert(v1.clusters[k].id == id);
                    } else {
                        assert(v1.clusters[v1.clusters.len() - 1].id == id);
                    }
                }
                self.activate_cluster(id);
                WorkspaceEffects {
                    sync_visibility: true,
                    broadcast_workspace: true,
                    cluster_mapped: Some(id),
                    reply: Ok(()),
                }
            },
            WorkspaceRequest::BackAndForthWorkspace => {
                if self.back_and_forth() {
                    WorkspaceEffects {
                        sync_visibility: true,
                        broadcast_workspace: true,
                        cluster_mapped: Some(self.active_cluster),
                        reply: Ok(()),
                    }
                } else {
                    WorkspaceEffects {
                        sync_visibility: false,
                        broadcast_workspace: false,
                        cluster_mapped: None,
                        reply: Ok(()),
                    }
                }
            },
        }
    }
}

// ---------------------------------------------------------------------------
// Snapshot facts.
// ---------------------------------------------------------------------------

/// How a workspace is reported in a snapshot: the compositor keeps no canvas
/// coordinates, so both are `origin`; it is enabled when active; its last
/// window counts as its last focus and its windows in order as its recency.
pub open spec fn entry_fact<P>(e: EntryView, active: ClusterId, origin: P) -> ClusterView<P> {
    ClusterView {
        id: e.id,
        name: e.name,
        x: origin,
        y: origin,
        enabled: e.id == active,
        windows: e.windows,
        last_focus: if e.windows.len() == 0 { None } else { Some(e.windows.last()) },
        recency: e.windows,
    }
}

/// The first workspace that holds window `w`.
pub open spec fn holder_index(cs: Seq<EntryView>, w: WindowId, k: int) -> bool {
    &&& 0 <= k < cs.len()
    &&& cs[k].windows.contains(w)
    &&& forall|j: int| 0 <= j < k ==> !(#[trigger] cs[j]).windows.contains(w)
}

impl VibewmModel {
    /// The workspaces as snapshot facts, in registry order.
    pub fn cluster_facts<P: Copy>(&self, origin: P) -> (r: Vec<Cluster<P>>)
        ensures
            r@.len() == self@.clusters.len(),
            forall|i: int| 0 <= i < r@.len() ==> (#[trigger] r@[i])@ == entry_fact(self@.clusters[i], self@.active, origin),
    {
        let mut out: Vec<Cluster<P>> = Vec::new();
        let mut i: usize = 0;
        while i < self.clusters.len()
            invariant
                i <= self.clusters@.len(),
                out@.len() == i,
                forall|k: int| 0 <= k < i ==> (#[trigger] out@[k])@ == entry_fact(self@.clusters[k], self@.active, origin),
            decreases self.clusters.len() - i,
        {
            let entry = &self.clusters[i];
            let windows = vec_copy(&entry.windows);
            let last_focus = if entry.windows.len() == 0 {
                None
            } else {
                Some(entry.windows[entry.windows.len() - 1])
            };
            let fact = Cluster {
                id: entry.id,
                name: entry.name.clone(),
                x: origin,
                y: origin,
                enabled: entry.id == self.active_cluster,
                windows: vec_copy(&entry.windows),
                last_focus,
                recency: windows,
            };
            proof {
                assert(self@.clusters[i as int] == self.clusters@[i as int]@);
            }
            out.push(fact);
            i += 1;
        }
        out
    }

    /// The id of the first workspace holding window `w`.
    pub fn cluster_of_window(&self, w: WindowId) -> (r: Option<ClusterId>)
        ensures
            match r {
                Some(id) => exists|k: int| holder_index(self@.clusters, w, k) && self@.clusters[k].id == id,
                None => forall|k: int| 0 <= k < self@.clusters.len() ==> !(#[trigger] self@.clusters[k]).windows.contains(w),
            },
    {
        let mut k: usize = 0;
        while k < self.clusters.len()
            invariant
                k <= self.clusters@.len(),
                forall|j: int| 0 <= j < k ==> !(#[trigger] self@.clusters[j]).windows.contains(w),
            decreases self.clusters.len() - k,
        {
            proof {
                assert(self@.clusters[k as int] == self.clusters@[k as int]@);
            }
            if vec_contains(&self.clusters[k].windows, w) {
                assert(holder_index(self@.clusters, w, k as int));
                return Some(self.clusters[k].id);
            }
            k += 1;
        }
        None
    }
}

// ---------------------------------------------------------------------------
// Window position animations.
// ---------------------------------------------------------------------------

/// Where a position animation of a window at `current` towards `target`
/// starts: none is needed when the window is there already; otherwise from
/// where a running animation has it now (`running`), else from `current`.
pub fn animation_start(current: (i32, i32), target: (i32, i32), running: Option<(i32, i32)>) -> (r: Option<(i32, i32)>)
    ensures
        r == (if current == target {
            None
        } else {
            Some(
                match running {
                    Some(p) => p,
                    None => current,
                },
            )
        }),
{
    if current.0 == target.0 && current.1 == target.1 {
        None
    } else {
        match running {
            Some(p) => Some(p),
            None => Some(current),
        }
    }
}

// ---------------------------------------------------------------------------
// Base64.
// ---------------------------------------------------------------------------

/// The base64 alphabet character for a sextet `v < 64`.
pub open spec fn b64_char(v: int) -> char {
    if v < 26 {
        (65 + v) as char
    } else if v < 52 {
        (97 + (v - 26)) as char
    } else if v < 62 {
        (48 + (v - 52)) as char
    } else if v == 62 {
        '+'
    } else {
        '/'
    }
}

/// Base64 text of `s`, padded with `=`.
pub open spec fn base64(s: Seq<u8>) -> Seq<char>
    decreases s.len(),
{
    if s.len() == 0 {
        Seq::empty()
    } else {
        let b0 = s[0] as int;
        let b1 = if s.len() >= 2 { s[1] as int } else { 0 };
        let b2 = if s.len() >= 3 { s[2] as int } else { 0 };
        let head = seq![
            b64_char(b0 / 4),
            b64_char((b0 % 4) * 16 + b1 / 16),
            if s.len() >= 2 { b64_char((b1 % 16) * 4 + b2 / 64) } else { '=' },
            if s.len() >= 3 { b64_char(b2 % 64) } else { '=' },
        ];
        if s.len() >= 3 {
            head + base64(s.skip(3))
        } else {
            head
        }
    }
}

fn sextet_char(v: u8) -> (c: char)
    requires
        v < 64,
    ensures
        c == b64_char(v as int),
{
    if v < 26 {
        (65 + v) as char
    } else if v < 52 {
        (97 + (v - 26)) as char
    } else if v < 62 {
        (48 + (v - 52)) as char
    } else if v == 62 {
        '+'
    } else {
        '/'
    }
}

/// Standard base64 of `input`, with `=` padding.
pub fn base64_encode(input: &[u8]) -> (r: String)
    ensures
        r@ == base64(input@),
{
    let mut out = String::new();
    let mut i: usize = 0;
    while i < input.len()
        invariant
            i <= input@.len(),
            out@ + base64(input@.skip(i as int)) == base64(input@),
        decreases input.len() - i,
    {
        let rest = Ghost(input@.skip(i as int));
        let n = input.len() - i;
        let b0 = input[i];
        let b1: u8 = if n >= 2 { input[i + 1] } else { 0 };
        let b2: u8 = if n >= 3 { input[i + 2] } else { 0 };
        assert(rest@[0] == b0);
        assert(n >= 2 ==> rest@[1] == b1);
        assert(n >= 3 ==> rest@[2] == b2);
        let ghost before = out@;
        push_char(&mut out, sextet_char(b0 / 4));
        push_char(&mut out, sextet_char((b0 % 4) * 16 + b1 / 16));
        if n >= 2 {
            push_char(&mut out, sextet_char((b1 % 16) * 4 + b2 / 64));
        } else {
            push_char(&mut out, '=');
        }
        if n >= 3 {
            push_char(&mut out, sextet_char(b2 % 64));
        } else {
            push_char(&mut out, '=');
        }
        if n >= 3 {
            assert(rest@.skip(3) =~= input@.skip(i + 3));
            i = i + 3;
        } else {
            assert(input@.skip(input@.len() as int) =~= Seq::<u8>::empty());
            i = input.len();
        }
        assert(out@ + base64(input@.skip(i as int)) =~= base64(input@));
    }
    assert(input@.skip(i as int) =~= Seq::<u8>::empty());
    out
}

} // verus!
