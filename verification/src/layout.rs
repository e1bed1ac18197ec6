//! Sway-side layout pipeline: moving a cluster's windows onto the continuum
//! workspace and back, the tiling layout of a cluster, the diff against the
//! current geometry, and the debounced frame pipeline that batches it all
//! into one sway command.

use std::collections::{HashMap, HashSet};
use vstd::prelude::*;
use vstd::std_specs::hash::{spec_hash_map_iter, spec_keys_iter};
use vstd::std_specs::iter::IteratorSpec;

use crate::seq_util::{dedupe, lemma_dedupe};
use crate::text::{
    escape_quotes, push_escaped_quotes, push_signed_decimal, push_str, signed_decimal,
};

verus! {

broadcast use {vstd::std_specs::hash::group_hash_axioms, vstd::seq_lib::group_seq_properties};

pub type ClusterId = i64;

pub type WindowId = i64;

/// Where a window lived before it was pulled onto the continuum workspace.
#[derive(Debug, Clone, PartialEq, Eq)]
pub struct WorkspaceMetadata {
    pub id: Option<i64>,
    pub num: Option<i32>,
    pub name: String,
}

impl WorkspaceMetadata {
    /// A field-by-field copy.
    pub fn duplicate(&self) -> (r: Self)
        ensures
            r == *self,
    {
        WorkspaceMetadata { id: self.id, num: self.num, name: self.name.clone() }
    }
}

/// `[con_id=<w>] move container to workspace "<name>"`, quotes escaped.
pub open spec fn named_move_command(w: int, name: Seq<char>) -> Seq<char> {
    "[con_id="@ + signed_decimal(w) + "] move container to workspace \""@ + escape_quotes(name)
        + "\""@
}

/// `[con_id=<w>] move container to workspace number <num>`.
pub open spec fn numbered_move_command(w: int, num: int) -> Seq<char> {
    "[con_id="@ + signed_decimal(w) + "] move container to workspace number "@ + signed_decimal(num)
}

/// The command that sends window `w` back to the workspace it came from:
/// by number when the workspace has one, by name otherwise.
pub open spec fn restore_command(w: int, md: WorkspaceMetadata) -> Seq<char> {
    match md.num {
        Some(n) => numbered_move_command(w, n as int),
        None => named_move_command(w, md.name@),
    }
}

/// Commands that move the windows of `targets` with known workspaces onto
/// the continuum workspace `cont`, skipping those already there.
pub open spec fn zoom_commands(cont: Seq<char>, targets: Seq<i64>, wsm: Map<i64, WorkspaceMetadata>) -> Seq<
    Seq<char>,
>
    decreases targets.len(),
{
    if targets.len() == 0 {
        Seq::empty()
    } else {
        let prev = zoom_commands(cont, targets.drop_last(), wsm);
        let w = targets.last();
        if wsm.contains_key(w) && wsm[w].name@ != cont {
            prev.push(named_move_command(w as int, cont))
        } else {
            prev
        }
    }
}

/// The remembered origins after a zoom into `targets`: an origin already
/// remembered is kept, otherwise the current workspace of a target is recorded.
pub open spec fn zoom_tracked(
    origins: Map<i64, WorkspaceMetadata>,
    targets: Seq<i64>,
    wsm: Map<i64, WorkspaceMetadata>,
) -> Map<i64, WorkspaceMetadata> {
    Map::new(
        |k: i64| origins.contains_key(k) || (targets.contains(k) && wsm.contains_key(k)),
        |k: i64|
            if origins.contains_key(k) {
                origins[k]
            } else {
                wsm[k]
            },
    )
}

/// Walks `ids` in order: a window that is gone loses its recorded origin; a
/// live window with a recorded origin is sent back and forgets it.
pub open spec fn restore_steps(origins: Map<i64, WorkspaceMetadata>, ids: Seq<i64>, live: Set<i64>) -> (
    Map<i64, WorkspaceMetadata>,
    Seq<Seq<char>>,
)
    decreases ids.len(),
{
    if ids.len() == 0 {
        (origins, Seq::empty())
    } else {
        let prev = restore_steps(origins, ids.drop_last(), live);
        let w = ids.last();
        if !live.contains(w) {
            (prev.0.remove(w), prev.1)
        } else if prev.0.contains_key(w) {
            (prev.0.remove(w), prev.1.push(restore_command(w as int, prev.0[w])))
        } else {
            prev
        }
    }
}

/// Mathematical view of a transition controller.
pub struct TransitionView {
    pub continuum: Seq<char>,
    pub origins: Map<i64, WorkspaceMetadata>,
}

/// Remembers the workspace each window came from while it sits on the
/// continuum workspace, and builds the sway commands for both moves.
#[derive(Debug, Clone)]
pub struct WorkspaceTransitionController {
    continuum_workspace: String,
    original_workspace_by_window: HashMap<WindowId, WorkspaceMetadata>,
}

impl View for WorkspaceTransitionController {
    type V = TransitionView;

    closed spec fn view(&self) -> TransitionView {
        TransitionView {
            continuum: self.continuum_workspace@,
            origins: self.original_workspace_by_window@,
        }
    }
}

/// The character sequences of a list of strings.
pub open spec fn texts(v: Seq<String>) -> Seq<Seq<char>> {
    v.map_values(|s: String| s@)
}

impl WorkspaceTransitionController {
    pub fn new(continuum_workspace: &str) -> (r: Self)
        ensures
            r@.continuum == continuum_workspace@,
            r@.origins == Map::<i64, WorkspaceMetadata>::empty(),
    {
        WorkspaceTransitionController {
            continuum_workspace: continuum_workspace.to_owned(),
            original_workspace_by_window: HashMap::new(),
        }
    }

    fn move_to_continuum(&self, window_id: WindowId, workspace: &WorkspaceMetadata) -> (r: Option<
        String,
    >)
        ensures
            workspace.name@ == self@.continuum ==> r is None,
            workspace.name@ != self@.continuum ==> (r matches Some(c) && c@ == named_move_command(
                window_id as int,
                self@.continuum,
            )),
    {
        if workspace.name == self.continuum_workspace {
            return None;
        }
        let mut c = String::new();
        push_str(&mut c, "[con_id=");
        push_signed_decimal(&mut c, window_id);
        push_str(&mut c, "] move container to workspace \"");
        push_escaped_quotes(&mut c, self.continuum_workspace.as_str());
        push_str(&mut c, "\"");
        Some(c)
    }

    /// Moves the windows of `target_windows` whose workspace is known onto
    /// the continuum workspace, remembering where each came from unless an
    /// origin is already recorded.
    pub fn enter_cluster_zoom(
        &mut self,
        target_windows: &[WindowId],
        workspace_by_window: &HashMap<WindowId, WorkspaceMetadata>,
    ) -> (r: Vec<String>)
        ensures
            final(self)@.continuum == old(self)@.continuum,
            final(self)@.origins == zoom_tracked(
                old(self)@.origins,
                target_windows@,
                workspace_by_window@,
            ),
            texts(r@) == zoom_commands(old(self)@.continuum, target_windows@, workspace_by_window@),
    {
        let ghost t0 = self@.origins;
        let ghost wsm = workspace_by_window@;
        let mut commands: Vec<String> = Vec::new();
        let mut i: usize = 0;
        while i < target_windows.len()
            invariant
                i <= target_windows@.len(),
                wsm == workspace_by_window@,
                self@.continuum == old(self)@.continuum,
                t0 == old(self)@.origins,
                self@.origins == zoom_tracked(t0, target_windows@.take(i as int), wsm),
                texts(commands@) == zoom_commands(self@.continuum, target_windows@.take(i as int), wsm),
            decreases target_windows.len() - i,
        {
            let window_id = target_windows[i];
            let ghost before = self@.origins;
            assert(target_windows@.take(i as int + 1).drop_last() =~= target_windows@.take(i as int));
            assert(target_windows@.take(i as int + 1).last() == window_id);
            match workspace_by_window.get(&window_id) {
                None => {},
                Some(workspace) => {
                    if !self.original_workspace_by_window.contains_key(&window_id) {
                        self.original_workspace_by_window.insert(window_id, workspace.duplicate());
                    }
                    match self.move_to_continuum(window_id, workspace) {
                        Some(c) => {
                            commands.push(c);
                        },
                        None => {},
                    }
                },
            }
            i += 1;
            assert(self@.origins =~= zoom_tracked(t0, target_windows@.take(i as int), wsm));
            assert(texts(commands@) =~= zoom_commands(self@.continuum, target_windows@.take(i as int), wsm));
        }
        assert(target_windows@.take(i as int) =~= target_windows@);
        commands
    }

    /// Sends the live windows of `window_ids` back to their recorded
    /// workspaces and forgets their origins; origins of windows that are
    /// gone are dropped, whether requested or not.
    pub fn restore_workspace(&mut self, window_ids: &[WindowId], live_windows: &HashSet<WindowId>) -> (r:
        Vec<String>)
        ensures
            final(self)@.continuum == old(self)@.continuum,
            final(self)@.origins == restore_steps(
                old(self)@.origins,
                window_ids@,
                live_windows@,
            ).0.restrict(live_windows@),
            texts(r@) == restore_steps(old(self)@.origins, window_ids@, live_windows@).1,
    {
        let ghost t0 = self@.origins;
        let mut commands: Vec<String> = Vec::new();
        let mut i: usize = 0;
        while i < window_ids.len()
            invariant
                i <= window_ids@.len(),
                self@.continuum == old(self)@.continuum,
                t0 == old(self)@.origins,
                self@.origins == restore_steps(t0, window_ids@.take(i as int), live_windows@).0,
                texts(commands@) == restore_steps(t0, window_ids@.take(i as int), live_windows@).1,
            decreases window_ids.len() - i,
        {
            let window_id = window_ids[i];
            assert(window_ids@.take(i as int + 1).drop_last() =~= window_ids@.take(i as int));
            assert(window_ids@.take(i as int + 1).last() == window_id);
            if !live_windows.contains(&window_id) {
                self.original_workspace_by_window.remove(&window_id);
            } else {
                match self.original_workspace_by_window.remove(&window_id) {
                    None => {},
                    Some(original) => {
                        let mut c = String::new();
                        push_str(&mut c, "[con_id=");
                        push_signed_decimal(&mut c, window_id);
                        match original.num {
                            Some(num) => {
                                push_str(&mut c, "] move container to workspace number ");
                                push_signed_decimal(&mut c, num as i64);
                            },
                            None => {
                                push_str(&mut c, "] move container to workspace \"");
                                push_escaped_quotes(&mut c, original.name.as_str());
                                push_str(&mut c, "\"");
                            },
                        }
                        commands.push(c);
                    },
                }
            }
            i += 1;
            assert(self@.origins =~= restore_steps(t0, window_ids@.take(i as int), live_windows@).0);
            assert(texts(commands@) =~= restore_steps(t0, window_ids@.take(i as int), live_windows@).1);
        }
        assert(window_ids@.take(i as int) =~= window_ids@);
        self.prune_stale_entries(live_windows);
        commands
    }

    /// Forgets the origin of every window that is no longer live.
    pub fn prune_stale_entries(&mut self, live_windows: &HashSet<WindowId>)
        ensures
            final(self)@.continuum == old(self)@.continuum,
            final(self)@.origins == old(self)@.origins.restrict(live_windows@),
    {
        let ghost ks = spec_keys_iter(&self.original_workspace_by_window).remaining();
        let mut stale: Vec<WindowId> = Vec::new();
        for k in it: self.original_workspace_by_window.keys()
            invariant
                it.seq() == ks,
                forall|j: int| 0 <= j < stale@.len() ==> !live_windows@.contains(#[trigger] stale@[j]),
                forall|j: int| 0 <= j < it.index() && !live_windows@.contains(*it.seq()[j])
                    ==> #[trigger] stale@.contains(*it.seq()[j]),
        {
            if !live_windows.contains(k) {
                stale.push(*k);
            }
        }
        let ghost t0 = self@.origins;
        let mut j: usize = 0;
        while j < stale.len()
            invariant
                j <= stale@.len(),
                self@.continuum == old(self)@.continuum,
                t0 == old(self)@.origins,
                forall|q: int| 0 <= q < stale@.len() ==> !live_windows@.contains(#[trigger] stale@[q]),
                forall|k: i64| t0.contains_key(k) && !live_windows@.contains(k) ==> #[trigger] stale@.contains(k),
                self@.origins == t0.remove_keys(stale@.take(j as int).to_set()),
            decreases stale.len() - j,
        {
            self.original_workspace_by_window.remove(&stale[j]);
            j += 1;
            assert(self@.origins =~= t0.remove_keys(stale@.take(j as int).to_set()));
        }
        assert(stale@.take(j as int) =~= stale@);
        assert(self@.origins =~= t0.restrict(live_windows@));
    }

    /// The origin recorded for each window currently on the continuum
    /// workspace.
    pub fn tracked_windows(&self) -> (r: &HashMap<WindowId, WorkspaceMetadata>)
        ensures
            r@ == self@.origins,
    {
        &self.original_workspace_by_window
    }
}

// ---------------------------------------------------------------------------
// Window order inside a cluster.
// ---------------------------------------------------------------------------

/// A rectangle in output pixels.
#[derive(Debug, Clone, Copy, PartialEq, Eq, Structural)]
pub struct Rect {
    pub x: i32,
    pub y: i32,
    pub width: i32,
    pub height: i32,
}

/// What the layout engine needs to tile one cluster.
#[derive(Debug, Clone, PartialEq, Eq)]
pub struct ClusterLayoutInput {
    pub cluster_id: ClusterId,
    pub area: Rect,
    /// Canonical cluster-local order (persistent model order), not WM tree order.
    pub windows: Vec<WindowId>,
    /// Fallback ordering key for windows not present in `windows`.
    pub first_seen_at: HashMap<WindowId, u64>,
}

impl ClusterLayoutInput {
    /// A field-by-field copy.
    pub fn duplicate(&self) -> (r: Self)
        ensures
            r@ == self@,
    {
        ClusterLayoutInput {
            cluster_id: self.cluster_id,
            area: self.area,
            windows: self.windows.clone(),
            first_seen_at: self.first_seen_at.clone(),
        }
    }
}

/// Mathematical view of a layout input.
pub struct ClusterInputView {
    pub cluster_id: ClusterId,
    pub area: Rect,
    pub windows: Seq<WindowId>,
    pub first_seen: Map<WindowId, u64>,
}

impl View for ClusterLayoutInput {
    type V = ClusterInputView;

    open spec fn view(&self) -> ClusterInputView {
        ClusterInputView {
            cluster_id: self.cluster_id,
            area: self.area,
            windows: self.windows@,
            first_seen: self.first_seen_at@,
        }
    }
}

/// Window `a` was first seen before window `b`; ties go to the smaller id.
pub open spec fn seen_before(fs: Map<i64, u64>, a: i64, b: i64) -> bool {
    fs[a] < fs[b] || (fs[a] == fs[b] && a < b)
}

/// Strictly increasing by first sighting.
pub open spec fn sorted_by_sighting(fs: Map<i64, u64>, s: Seq<i64>) -> bool {
    forall|i: int, j: int| 0 <= i < j < s.len() ==> seen_before(fs, #[trigger] s[i], #[trigger] s[j])
}

/// Windows with a first sighting that the explicit order does not list.
pub open spec fn fallback_windows(c: ClusterInputView) -> Set<i64> {
    c.first_seen.dom().filter(|w: i64| !c.windows.contains(w))
}

pub open spec fn is_fallback_order(c: ClusterInputView, s: Seq<i64>) -> bool {
    s.to_set() == fallback_windows(c) && sorted_by_sighting(c.first_seen, s)
}

/// The fallback windows ordered by first sighting.
pub open spec fn fallback_order(c: ClusterInputView) -> Seq<i64> {
    choose|s: Seq<i64>| is_fallback_order(c, s)
}

/// The canonical window order of a cluster: the explicit order without
/// repeats, then the other sighted windows by first sighting.
pub open spec fn canonical_order(c: ClusterInputView) -> Seq<i64> {
    dedupe(c.windows) + fallback_order(c)
}

proof fn lemma_sorted_distinct(fs: Map<i64, u64>, s: Seq<i64>)
    requires
        sorted_by_sighting(fs, s),
    ensures
        s.no_duplicates(),
{
    assert forall|i: int, j: int| 0 <= i < s.len() && 0 <= j < s.len() && i != j implies s[i] != s[j] by {
        if i < j {
            assert(seen_before(fs, s[i], s[j]));
        } else {
            assert(seen_before(fs, s[j], s[i]));
        }
    }
}

/// Two orders sorted by first sighting over the same windows are equal.
proof fn lemma_sorted_unique(fs: Map<i64, u64>, s1: Seq<i64>, s2: Seq<i64>)
    requires
        sorted_by_sighting(fs, s1),
        sorted_by_sighting(fs, s2),
        s1.to_set() == s2.to_set(),
    ensures
        s1 == s2,
    decreases s1.len(),
{
    if s1.len() == 0 {
        if s2.len() > 0 {
            assert(s2.to_set().contains(s2[0]));
        }
        assert(s1 =~= s2);
    } else {
        assert(s1.to_set().contains(s1[0]));
        assert(s2.len() > 0);
        assert(s2.to_set().contains(s2[0]));
        let j = choose|j: int| 0 <= j < s2.len() && s2[j] == s1[0];
        let i = choose|i: int| 0 <= i < s1.len() && s1[i] == s2[0];
        if j > 0 {
            assert(seen_before(fs, s2[0], s2[j]));
            if i > 0 {
                assert(seen_before(fs, s1[0], s1[i]));
            }
        }
        assert(s1[0] == s2[0]);
        let x = s1[0];
        lemma_sorted_distinct(fs, s1);
        lemma_sorted_distinct(fs, s2);
        let d1 = s1.drop_first();
        let d2 = s2.drop_first();
        assert(sorted_by_sighting(fs, d1)) by {
            assert forall|a: int, b: int| 0 <= a < b < d1.len() implies seen_before(fs, #[trigger] d1[a], #[trigger] d1[b]) by {
                assert(d1[a] == s1[a + 1] && d1[b] == s1[b + 1]);
            }
        }
        assert(sorted_by_sighting(fs, d2)) by {
            assert forall|a: int, b: int| 0 <= a < b < d2.len() implies seen_before(fs, #[trigger] d2[a], #[trigger] d2[b]) by {
                assert(d2[a] == s2[a + 1] && d2[b] == s2[b + 1]);
            }
        }
        assert forall|y: i64| d1.to_set().contains(y) <==> d2.to_set().contains(y) by {
            if d1.to_set().contains(y) {
                let a = choose|a: int| 0 <= a < d1.len() && d1[a] == y;
                assert(s1[a + 1] == y);
                assert(s1.to_set().contains(y));
                let b = choose|b: int| 0 <= b < s2.len() && s2[b] == y;
                assert(b != 0);
                assert(d2[b - 1] == y);
            }
            if d2.to_set().contains(y) {
                let a = choose|a: int| 0 <= a < d2.len() && d2[a] == y;
                assert(s2[a + 1] == y);
                assert(s2.to_set().contains(y));
                let b = choose|b: int| 0 <= b < s1.len() && s1[b] == y;
                assert(b != 0);
                assert(d1[b - 1] == y);
            }
        }
        assert(d1.to_set() =~= d2.to_set());
        lemma_sorted_unique(fs, d1, d2);
        assert(s1 =~= seq![x] + d1);
        assert(s2 =~= seq![x] + d2);
    }
}

/// Pairs `(first sighting, window)` strictly increasing.
spec fn pairs_sorted(v: Seq<(u64, i64)>) -> bool {
    forall|i: int, j: int| 0 <= i < j < v.len() ==> pair_before(#[trigger] v[i], #[trigger] v[j])
}

spec fn pair_before(a: (u64, i64), b: (u64, i64)) -> bool {
    a.0 < b.0 || (a.0 == b.0 && a.1 < b.1)
}

fn pair_lt(a: (u64, i64), b: (u64, i64)) -> (r: bool)
    ensures
        r == pair_before(a, b),
{
    a.0 < b.0 || (a.0 == b.0 && a.1 < b.1)
}

/// Inserts `p` into the sorted `v`, keeping it sorted.
fn insert_sorted(v: &mut Vec<(u64, i64)>, p: (u64, i64))
    requires
        pairs_sorted(old(v)@),
        !old(v)@.contains(p),
    ensures
        pairs_sorted(final(v)@),
        final(v)@.to_set() == old(v)@.to_set().insert(p),
        final(v)@.len() == old(v)@.len() + 1,
{
    let mut pos: usize = 0;
    while pos < v.len() && !pair_lt(p, v[pos])
        invariant
            pos <= v@.len(),
            forall|k: int| 0 <= k < pos ==> !pair_before(p, #[trigger] v@[k]),
        decreases v.len() - pos,
    {
        pos += 1;
    }
    let ghost before = v@;
    v.insert(pos, p);
    assert(v@ =~= before.take(pos as int).push(p) + before.skip(pos as int));
    assert forall|i: int, j: int| 0 <= i < j < v@.len() implies pair_before(#[trigger] v@[i], #[trigger] v@[j]) by {
        if j < pos {
            assert(pair_before(before[i], before[j]));
        } else if j == pos {
            assert(!pair_before(p, before[i]));
            assert(before[i] != p);
        } else if i == pos {
            if j - 1 > pos {
                assert(pair_before(before[pos as int], before[j - 1]));
            }
        } else if i < pos {
            assert(pair_before(before[i], before[j - 1]));
        } else {
            assert(pair_before(before[i - 1], before[j - 1]));
        }
    }
    assert(v@.to_set() =~= before.to_set().insert(p)) by {
        assert forall|q: (u64, i64)| v@.to_set().contains(q) implies before.to_set().insert(p).contains(q) by {
            let k = choose|k: int| 0 <= k < v@.len() && v@[k] == q;
            if k < pos {
                assert(before[k] == q);
            } else if k > pos {
                assert(before[k - 1] == q);
            }
        }
        assert forall|q: (u64, i64)| before.to_set().insert(p).contains(q) implies v@.to_set().contains(q) by {
            if q == p {
                assert(v@[pos as int] == p);
            } else {
                let k = choose|k: int| 0 <= k < before.len() && before[k] == q;
                if k < pos {
                    assert(v@[k] == q);
                } else {
                    assert(v@[k + 1] == q);
                }
            }
        }
    }
}

fn contains_id(v: &Vec<i64>, x: i64) -> (r: bool)
    ensures
        r == v@.contains(x),
{
    let mut i: usize = 0;
    while i < v.len()
        invariant
            i <= v@.len(),
            forall|k: int| 0 <= k < i ==> v@[k] != x,
        decreases v.len() - i,
    {
        if v[i] == x {
            return true;
        }
        i += 1;
    }
    false
}

/// The canonical window order of `cluster`: its explicit order without
/// repeats, followed by the other windows with a first sighting, earliest
/// first (ties by window id).
#[verifier::rlimit(40)]
pub fn canonical_cluster_window_order(cluster: &ClusterLayoutInput) -> (r: Vec<WindowId>)
    ensures
        r@ == canonical_order(cluster@),
        r@.no_duplicates(),
        is_fallback_order(cluster@, fallback_order(cluster@)),
{
    let c = cluster;
    let mut explicit: Vec<i64> = Vec::new();
    let mut i: usize = 0;
    while i < c.windows.len()
        invariant
            i <= c.windows@.len(),
            explicit@ == dedupe(c.windows@.take(i as int)),
        decreases c.windows.len() - i,
    {
        assert(c.windows@.take(i as int + 1).drop_last() =~= c.windows@.take(i as int));
        let w = c.windows[i];
        if !contains_id(&explicit, w) {
            explicit.push(w);
        }
        i += 1;
    }
    assert(c.windows@.take(i as int) =~= c.windows@);

    let ghost m = c.first_seen_at@;
    let ghost kv = spec_hash_map_iter(&c.first_seen_at).remaining();
    let mut fallback: Vec<(u64, i64)> = Vec::new();
    for pair in it: c.first_seen_at.iter()
        invariant
            it.seq() == kv,
            kv.no_duplicates(),
            m == c.first_seen_at@,
            pairs_sorted(fallback@),
            forall|q: int| 0 <= q < fallback@.len() ==> {
                let p = #[trigger] fallback@[q];
                &&& m.contains_key(p.1)
                &&& m[p.1] == p.0
                &&& !c.windows@.contains(p.1)
                &&& exists|a: int| 0 <= a < it.index() && *kv[a].0 == p.1
            },
            forall|a: int| 0 <= a < it.index() && !c.windows@.contains(*kv[a].0) ==> exists|q: int|
                0 <= q < fallback@.len() && (#[trigger] fallback@[q]).1 == *kv[a].0,
    {
        let (w, first_seen) = pair;
        let ghost idx = it.index();
        assert(pair == kv[idx]);
        assert(m.contains_key(*kv[idx].0) && m[*kv[idx].0] == *kv[idx].1);
        if !contains_id(&c.windows, *w) {
            let p = (*first_seen, *w);
            assert(!fallback@.contains(p)) by {
                if fallback@.contains(p) {
                    let q = choose|q: int| 0 <= q < fallback@.len() && fallback@[q] == p;
                    assert(fallback@[q] == p);
                    let a = choose|a: int| 0 <= a < idx && *kv[a].0 == p.1;
                    assert(m.contains_key(*kv[a].0) && m[*kv[a].0] == *kv[a].1);
                    assert(kv[a] == kv[idx]);
                }
            }
            let ghost old_f = fallback@;
            insert_sorted(&mut fallback, p);
            assert forall|q: int| 0 <= q < fallback@.len() implies {
                let e = #[trigger] fallback@[q];
                &&& m.contains_key(e.1)
                &&& m[e.1] == e.0
                &&& !c.windows@.contains(e.1)
                &&& exists|a: int| 0 <= a < idx + 1 && *kv[a].0 == e.1
            } by {
                let e = fallback@[q];
                assert(fallback@.to_set().contains(e));
                if e != p {
                    assert(old_f.to_set().contains(e));
                    let q0 = choose|q0: int| 0 <= q0 < old_f.len() && old_f[q0] == e;
                    assert(old_f[q0] == e);
                }
            }
            assert forall|a: int| 0 <= a < idx + 1 && !c.windows@.contains(*kv[a].0) implies exists|q: int|
                0 <= q < fallback@.len() && (#[trigger] fallback@[q]).1 == *kv[a].0 by {
                if a == idx {
                    assert(fallback@.to_set().contains(p));
                    let q = choose|q: int| 0 <= q < fallback@.len() && fallback@[q] == p;
                    assert(fallback@[q].1 == *kv[a].0);
                } else {
                    let q0 = choose|q0: int| 0 <= q0 < old_f.len() && (#[trigger] old_f[q0]).1 == *kv[a].0;
                    assert(old_f.to_set().contains(old_f[q0]));
                    assert(fallback@.to_set().contains(old_f[q0]));
                    let q = choose|q: int| 0 <= q < fallback@.len() && fallback@[q] == old_f[q0];
                    assert(fallback@[q].1 == *kv[a].0);
                }
            }
        }
    }
    let mut ids: Vec<i64> = Vec::new();
    let mut k: usize = 0;
    while k < fallback.len()
        invariant
            k <= fallback@.len(),
            ids@ == fallback@.take(k as int).map_values(|p: (u64, i64)| p.1),
        decreases fallback.len() - k,
    {
        ids.push(fallback[k].1);
        k += 1;
        assert(ids@ =~= fallback@.take(k as int).map_values(|p: (u64, i64)| p.1));
    }
    assert(fallback@.take(k as int) =~= fallback@);
    proof {
        let cv = c@;
        assert(sorted_by_sighting(m, ids@)) by {
            assert forall|a: int, b: int| 0 <= a < b < ids@.len() implies seen_before(m, #[trigger] ids@[a], #[trigger] ids@[b]) by {
                assert(pair_before(fallback@[a], fallback@[b]));
            }
        }
        assert(ids@.to_set() =~= fallback_windows(cv)) by {
            assert forall|w: i64| ids@.to_set().contains(w) implies fallback_windows(cv).contains(w) by {
                let q = choose|q: int| 0 <= q < ids@.len() && ids@[q] == w;
                assert(fallback@[q].1 == w);
            }
            assert forall|w: i64| fallback_windows(cv).contains(w) implies ids@.to_set().contains(w) by {
                assert(m.contains_key(w));
                assert(kv.contains((&w, &m[w])));
                let a = choose|a: int| 0 <= a < kv.len() && kv[a] == (&w, &m[w]);
                assert(*kv[a].0 == w);
                let q = choose|q: int| 0 <= q < fallback@.len() && (#[trigger] fallback@[q]).1 == *kv[a].0;
                assert(ids@[q] == w);
            }
        }
        assert(is_fallback_order(cv, ids@));
        lemma_sorted_unique(m, fallback_order(cv), ids@);
        lemma_sorted_distinct(m, ids@);
        let e = explicit@;
        assert forall|y: i64| e.contains(y) implies c.windows@.contains(y) by {
            lemma_dedupe(c.windows@, y);
        }
        assert forall|y: i64| ids@.contains(y) implies !c.windows@.contains(y) by {
            assert(ids@.to_set().contains(y));
        }
        lemma_dedupe(c.windows@, 0);
        assert forall|a: int, b: int| 0 <= a < (e + ids@).len() && 0 <= b < (e + ids@).len() && a != b
            implies (e + ids@)[a] != (e + ids@)[b] by {
            if a < e.len() && b >= e.len() {
                assert(e.contains(e[a]));
                assert(ids@.contains(ids@[b - e.len()]));
            } else if b < e.len() && a >= e.len() {
                assert(e.contains(e[b]));
                assert(ids@.contains(ids@[a - e.len()]));
            }
        }
    }
    let ghost ex = explicit@;
    let mut k2: usize = 0;
    while k2 < ids.len()
        invariant
            k2 <= ids@.len(),
            explicit@ == ex + ids@.take(k2 as int),
        decreases ids.len() - k2,
    {
        explicit.push(ids[k2]);
        k2 += 1;
        assert(explicit@ =~= ex + ids@.take(k2 as int));
    }
    assert(ids@.take(k2 as int) =~= ids@);
    explicit
}

// ---------------------------------------------------------------------------
// Tiling.
// ---------------------------------------------------------------------------

/// Width of every slot but the last when `n` windows share `area`.
pub open spec fn slot_base(area: Rect, n: int) -> int {
    if (area.width as int) / n >= 1 {
        (area.width as int) / n
    } else {
        1
    }
}

/// Left edge of slot `k`.
pub open spec fn slot_x(area: Rect, n: int, k: int) -> int {
    area.x + k * slot_base(area, n)
}

/// Slot `k` of `n` side by side in `area`; the last slot takes what is left
/// of the width, at least one pixel.
pub open spec fn slot_rect(area: Rect, n: int, k: int) -> Rect {
    let x = slot_x(area, n, k);
    let width = if k == n - 1 {
        if area.x + area.width - x >= 1 {
            area.x + area.width - x
        } else {
            1
        }
    } else {
        slot_base(area, n)
    };
    Rect { x: x as i32, y: area.y, width: width as i32, height: area.height }
}

/// Position of `w` in `order`.
pub open spec fn position_of(order: Seq<i64>, w: i64) -> int {
    choose|k: int| 0 <= k < order.len() && order[k] == w
}

/// Target rectangles of the windows of one cluster.
pub open spec fn cluster_targets(c: ClusterInputView) -> Map<i64, Rect> {
    let order = canonical_order(c);
    Map::new(
        |w: i64| order.contains(w),
        |w: i64| slot_rect(c.area, order.len() as int, position_of(order, w)),
    )
}

/// Target rectangles of all windows; a window listed by several clusters
/// takes its rectangle in the last of them.
pub open spec fn layout_targets(cs: Seq<ClusterInputView>) -> Map<i64, Rect>
    decreases cs.len(),
{
    if cs.len() == 0 {
        Map::empty()
    } else {
        layout_targets(cs.drop_last()).union_prefer_right(cluster_targets(cs.last()))
    }
}

/// Every coordinate the tiling of `n` windows in `area` goes through fits
/// in an `i32`.
pub open spec fn layout_fits(area: Rect, n: int) -> bool {
    n == 0 || {
        let base = slot_base(area, n);
        let last = area.x + (n - 1) * base;
        let end = area.x + area.width;
        &&& n <= i32::MAX
        &&& i32::MIN <= end <= i32::MAX
        &&& last <= i32::MAX
        &&& i32::MIN <= end - last <= i32::MAX
        &&& (last + 1 <= i32::MAX || last + 1 <= end)
    }
}

pub open spec fn cluster_fits(c: ClusterInputView) -> bool {
    layout_fits(c.area, canonical_order(c).len() as int)
}

pub open spec fn input_views(cs: Seq<ClusterLayoutInput>) -> Seq<ClusterInputView> {
    cs.map_values(|c: ClusterLayoutInput| c@)
}

proof fn lemma_slot_bounds(area: Rect, n: int, k: int)
    requires
        n > 0,
        0 <= k < n,
    ensures
        slot_base(area, n) >= 1,
        area.x <= slot_x(area, n, k) <= area.x + (n - 1) * slot_base(area, n),
        slot_x(area, n, k) + slot_base(area, n) == slot_x(area, n, k + 1),
{
    let b = slot_base(area, n);
    assert(0 <= k * b <= (n - 1) * b) by (nonlinear_arith)
        requires
            0 <= k < n,
            b >= 1,
    ;
    assert(k * b + b == (k + 1) * b) by (nonlinear_arith);
}

proof fn lemma_position_of(order: Seq<i64>, k: int)
    requires
        order.no_duplicates(),
        0 <= k < order.len(),
    ensures
        position_of(order, order[k]) == k,
{
    let j = position_of(order, order[k]);
    assert(0 <= j < order.len() && order[j] == order[k]);
}

/// The tiling engine: each cluster's windows side by side in its area.
#[derive(Debug, Default)]
pub struct LayoutEngine;

impl LayoutEngine {
    /// Target rectangles for every window of `clusters`, in canonical order,
    /// splitting each cluster's width evenly with the remainder going to the
    /// last window.
    pub fn compute(&self, clusters: &[ClusterLayoutInput]) -> (r: HashMap<WindowId, Rect>)
        requires
            forall|i: int| 0 <= i < clusters@.len() ==> cluster_fits(#[trigger] clusters@[i]@),
        ensures
            r@ == layout_targets(input_views(clusters@)),
    {
        let mut targets: HashMap<WindowId, Rect> = HashMap::new();
        let mut ci: usize = 0;
        while ci < clusters.len()
            invariant
                ci <= clusters@.len(),
                forall|i: int| 0 <= i < clusters@.len() ==> cluster_fits(#[trigger] clusters@[i]@),
                targets@ == layout_targets(input_views(clusters@.take(ci as int))),
            decreases clusters.len() - ci,
        {
            let cluster = &clusters[ci];
            let ghost cv = cluster@;
            assert(cluster_fits(clusters@[ci as int]@));
            let ghost prev = targets@;
            assert(input_views(clusters@.take(ci as int + 1)).drop_last() =~= input_views(clusters@.take(ci as int)));
            assert(input_views(clusters@.take(ci as int + 1)).last() == cv);
            let order = canonical_cluster_window_order(cluster);
            let ghost n = order@.len() as int;
            if order.len() > 0 {
                assert(layout_fits(cv.area, n));
                let count = order.len() as i32;
                assert(count as int == n);
                let base: i32 = if cluster.area.width <= 0 {
                    assert((cv.area.width as int) / n <= 0) by (nonlinear_arith)
                        requires
                            cv.area.width <= 0,
                            n > 0,
                    ;
                    1
                } else {
                    let q = cluster.area.width / count;
                    if q >= 1 { q } else { 1 }
                };
                assert(base == slot_base(cv.area, n));
                let mut x: i32 = cluster.area.x;
                let mut idx: usize = 0;
                while idx < order.len()
                    invariant
                        n == order@.len(),
                        n > 0,
                        order@ == canonical_order(cv),
                        order@.no_duplicates(),
                        cv == cluster@,
                        layout_fits(cv.area, n),
                        base == slot_base(cv.area, n),
                        idx <= n,
                        idx < n ==> x == slot_x(cv.area, n, idx as int),
                        targets@ == prev.union_prefer_right(Map::new(
                            |w: i64| order@.take(idx as int).contains(w),
                            |w: i64| slot_rect(cv.area, n, position_of(order@, w)),
                        )),
                    decreases order.len() - idx,
                {
                    proof {
                        lemma_slot_bounds(cv.area, n, idx as int);
                        lemma_position_of(order@, idx as int);
                    }
                    let is_last = idx + 1 == order.len();
                    let width: i32 = if is_last {
                        let end = cluster.area.x + cluster.area.width;
                        let rest = end - x;
                        if rest >= 1 { rest } else { 1 }
                    } else {
                        base
                    };
                    let w = order[idx];
                    let rect = Rect { x, y: cluster.area.y, width, height: cluster.area.height };
                    assert(rect == slot_rect(cv.area, n, idx as int));
                    let ghost before = targets@;
                    targets.insert(w, rect);
                    if !is_last {
                        proof {
                            lemma_slot_bounds(cv.area, n, idx as int + 1);
                        }
                    }
                    x = x + width;
                    idx += 1;
                    assert(targets@ =~= prev.union_prefer_right(Map::new(
                        |w: i64| order@.take(idx as int).contains(w),
                        |w: i64| slot_rect(cv.area, n, position_of(order@, w)),
                    ))) by {
                        assert forall|v: i64| #[trigger] order@.take(idx as int).contains(v) <==> (order@.take(idx as int - 1).contains(v) || v == w) by {
                            if order@.take(idx as int).contains(v) {
                                let j = choose|j: int| 0 <= j < idx && #[trigger] order@.take(idx as int)[j] == v;
                                if j < idx - 1 {
                                    assert(order@.take(idx as int - 1)[j] == v);
                                }
                            }
                            if order@.take(idx as int - 1).contains(v) {
                                let j = choose|j: int| 0 <= j < idx - 1 && #[trigger] order@.take(idx as int - 1)[j] == v;
                                assert(order@.take(idx as int)[j] == v);
                            }
                            if v == w {
                                assert(order@.take(idx as int)[idx - 1] == v);
                            }
                        }
                    }
                }
                assert(order@.take(n) =~= order@);
            }
            ci += 1;
            assert(targets@ =~= layout_targets(input_views(clusters@.take(ci as int))));
        }
        assert(clusters@.take(ci as int) =~= clusters@);
        targets
    }
}

// ---------------------------------------------------------------------------
// Diffing against the current geometry and batching the commands.
// ---------------------------------------------------------------------------

/// Something that happened in the window manager and dirties a cluster.
#[derive(Debug, Clone, Copy, PartialEq, Eq, Structural)]
pub enum BackendEvent {
    WorkspaceChanged { cluster_id: ClusterId },
    WindowChanged { cluster_id: ClusterId, window_id: WindowId },
}

pub open spec fn event_cluster(e: BackendEvent) -> ClusterId {
    match e {
        BackendEvent::WorkspaceChanged { cluster_id } => cluster_id,
        BackendEvent::WindowChanged { cluster_id, .. } => cluster_id,
    }
}

impl BackendEvent {
    fn cluster_id(self) -> (r: ClusterId)
        ensures
            r == event_cluster(self),
    {
        match self {
            BackendEvent::WorkspaceChanged { cluster_id } => cluster_id,
            BackendEvent::WindowChanged { cluster_id, .. } => cluster_id,
        }
    }
}

/// How far a window may be off its target before it is moved.
#[derive(Debug, Clone, Copy, PartialEq, Eq, Structural)]
pub struct DiffThresholds {
    pub position_px: i32,
    pub size_px: i32,
}

impl Default for DiffThresholds {
    fn default() -> (r: Self)
        ensures
            r.position_px == 1,
            r.size_px == 1,
    {
        DiffThresholds { position_px: 1, size_px: 1 }
    }
}

/// Move window `window_id` to `target`.
#[derive(Debug, Clone, Copy, PartialEq, Eq, Structural)]
pub struct LayoutOp {
    pub window_id: WindowId,
    pub target: Rect,
}

pub open spec fn abs_diff(a: i32, b: i32) -> int {
    if a - b < 0 {
        b - a
    } else {
        a - b
    }
}

/// `existing` is off `target` by more than the thresholds allow.
pub open spec fn beyond_thresholds(existing: Rect, target: Rect, t: DiffThresholds) -> bool {
    ||| abs_diff(existing.x, target.x) > t.position_px
    ||| abs_diff(existing.y, target.y) > t.position_px
    ||| abs_diff(existing.width, target.width) > t.size_px
    ||| abs_diff(existing.height, target.height) > t.size_px
}

/// Window `w` must be moved to `target`: it has no known geometry, or it is
/// too far off.
pub open spec fn needs_move(current: Map<i64, Rect>, w: i64, target: Rect, t: DiffThresholds) -> bool {
    !current.contains_key(w) || beyond_thresholds(current[w], target, t)
}

/// The component differences of two rectangles can be taken in `i32`.
pub open spec fn rects_comparable(a: Rect, b: Rect) -> bool {
    &&& i32::MIN < a.x - b.x <= i32::MAX
    &&& i32::MIN < a.y - b.y <= i32::MAX
    &&& i32::MIN < a.width - b.width <= i32::MAX
    &&& i32::MIN < a.height - b.height <= i32::MAX
}

pub open spec fn geometry_comparable(current: Map<i64, Rect>, targets: Map<i64, Rect>) -> bool {
    forall|w: i64| current.contains_key(w) && targets.contains_key(w) ==> rects_comparable(
        #[trigger] current[w],
        targets[w],
    )
}

/// `ops` moves exactly the windows of `targets` that need moving, each once,
/// to its target.
pub open spec fn is_diff(current: Map<i64, Rect>, targets: Map<i64, Rect>, t: DiffThresholds, ops: Seq<
    LayoutOp,
>) -> bool {
    &&& forall|i: int, j: int|
        0 <= i < ops.len() && 0 <= j < ops.len() && i != j ==> (#[trigger] ops[i]).window_id
            != (#[trigger] ops[j]).window_id
    &&& forall|i: int|
        0 <= i < ops.len() ==> {
            let op = #[trigger] ops[i];
            &&& targets.contains_key(op.window_id)
            &&& op.target == targets[op.window_id]
            &&& needs_move(current, op.window_id, op.target, t)
        }
    &&& forall|w: i64|
        #[trigger] targets.contains_key(w) && needs_move(current, w, targets[w], t) ==> exists|i: int|
            0 <= i < ops.len() && (#[trigger] ops[i]).window_id == w
}

fn abs_difference(a: i32, b: i32) -> (r: i32)
    requires
        i32::MIN < a - b <= i32::MAX,
    ensures
        r == abs_diff(a, b),
{
    let d = a - b;
    if d < 0 {
        -d
    } else {
        d
    }
}

/// The moves that bring the windows of `targets` to their target
/// rectangles, leaving out windows already within the thresholds. The moves
/// come in the order the map hands out its entries.
pub fn diff_targets(
    current: &HashMap<WindowId, Rect>,
    targets: &HashMap<WindowId, Rect>,
    thresholds: DiffThresholds,
) -> (r: Vec<LayoutOp>)
    requires
        geometry_comparable(current@, targets@),
    ensures
        is_diff(current@, targets@, thresholds, r@),
{
    let ghost kv = spec_hash_map_iter(targets).remaining();
    let ghost m = targets@;
    let mut ops: Vec<LayoutOp> = Vec::new();
    for pair in it: targets.iter()
        invariant
            it.seq() == kv,
            kv.no_duplicates(),
            m == targets@,
            geometry_comparable(current@, m),
            forall|i: int, j: int|
                0 <= i < ops@.len() && 0 <= j < ops@.len() && i != j ==> (#[trigger] ops@[i]).window_id
                    != (#[trigger] ops@[j]).window_id,
            forall|i: int|
                0 <= i < ops@.len() ==> {
                    let op = #[trigger] ops@[i];
                    &&& m.contains_key(op.window_id)
                    &&& op.target == m[op.window_id]
                    &&& needs_move(current@, op.window_id, op.target, thresholds)
                    &&& exists|a: int| 0 <= a < it.index() && *kv[a].0 == op.window_id
                },
            forall|a: int|
                0 <= a < it.index() && needs_move(current@, *kv[a].0, m[*kv[a].0], thresholds) ==> exists|i: int|
                    0 <= i < ops@.len() && (#[trigger] ops@[i]).window_id == *kv[a].0,
    {
        let (window_id, target) = pair;
        let ghost idx = it.index();
        assert(pair == kv[idx]);
        assert(m.contains_key(*kv[idx].0) && m[*kv[idx].0] == *kv[idx].1);
        let changed = match current.get(window_id) {
            Some(existing) => {
                assert(rects_comparable(current@[*window_id], m[*window_id]));
                abs_difference(existing.x, target.x) > thresholds.position_px
                    || abs_difference(existing.y, target.y) > thresholds.position_px
                    || abs_difference(existing.width, target.width) > thresholds.size_px
                    || abs_difference(existing.height, target.height) > thresholds.size_px
            },
            None => true,
        };
        if changed {
            let ghost old_ops = ops@;
            assert forall|i: int| 0 <= i < old_ops.len() implies (#[trigger] old_ops[i]).window_id != *window_id by {
                let op = old_ops[i];
                let a = choose|a: int| 0 <= a < idx && *kv[a].0 == op.window_id;
                assert(m.contains_key(*kv[a].0) && m[*kv[a].0] == *kv[a].1);
                if op.window_id == *window_id {
                    assert(kv[a] == kv[idx]);
                }
            }
            ops.push(LayoutOp { window_id: *window_id, target: *target });
            assert forall|i: int| 0 <= i < ops@.len() implies {
                let op = #[trigger] ops@[i];
                &&& m.contains_key(op.window_id)
                &&& op.target == m[op.window_id]
                &&& needs_move(current@, op.window_id, op.target, thresholds)
                &&& exists|a: int| 0 <= a < idx + 1 && *kv[a].0 == op.window_id
            } by {
                if i < old_ops.len() {
                    assert(ops@[i] == old_ops[i]);
                }
            }
            assert forall|a: int|
                0 <= a < idx + 1 && needs_move(current@, *kv[a].0, m[*kv[a].0], thresholds) implies exists|i: int|
                    0 <= i < ops@.len() && (#[trigger] ops@[i]).window_id == *kv[a].0 by {
                if a == idx {
                    assert(ops@[old_ops.len() as int].window_id == *kv[a].0);
                } else {
                    let i = choose|i: int| 0 <= i < old_ops.len() && (#[trigger] old_ops[i]).window_id == *kv[a].0;
                    assert(ops@[i] == old_ops[i]);
                }
            }
        }
    }
    proof {
        assert forall|w: i64| #[trigger] m.contains_key(w) && needs_move(current@, w, m[w], thresholds) implies exists|i: int|
            0 <= i < ops@.len() && (#[trigger] ops@[i]).window_id == w by {
            assert(kv.contains((&w, &m[w])));
            let a = choose|a: int| 0 <= a < kv.len() && kv[a] == (&w, &m[w]);
            assert(*kv[a].0 == w);
        }
    }
    ops
}

/// The sway command for one move.
pub open spec fn op_command(op: LayoutOp) -> Seq<char> {
    "[con_id="@ + signed_decimal(op.window_id as int) + "] move position "@ + signed_decimal(
        op.target.x as int,
    ) + " "@ + signed_decimal(op.target.y as int) + ", resize set width "@ + signed_decimal(
        op.target.width as int,
    ) + " px height "@ + signed_decimal(op.target.height as int) + " px"@
}

/// The commands of `ops` joined by `"; "`.
pub open spec fn joined_commands(ops: Seq<LayoutOp>) -> Seq<char>
    decreases ops.len(),
{
    if ops.len() == 0 {
        Seq::empty()
    } else if ops.len() == 1 {
        op_command(ops[0])
    } else {
        joined_commands(ops.drop_last()) + "; "@ + op_command(ops.last())
    }
}

fn push_op_command(s: &mut String, op: &LayoutOp)
    ensures
        final(s)@ == old(s)@ + op_command(*op),
{
    let ghost start = s@;
    push_str(s, "[con_id=");
    push_signed_decimal(s, op.window_id);
    push_str(s, "] move position ");
    push_signed_decimal(s, op.target.x as i64);
    push_str(s, " ");
    push_signed_decimal(s, op.target.y as i64);
    push_str(s, ", resize set width ");
    push_signed_decimal(s, op.target.width as i64);
    push_str(s, " px height ");
    push_signed_decimal(s, op.target.height as i64);
    push_str(s, " px");
    assert(s@ =~= start + op_command(*op));
}

impl LayoutEngine {
    /// One sway command batch for `ops`, or `None` when there is nothing to
    /// do.
    pub fn apply(ops: &[LayoutOp]) -> (r: Option<String>)
        ensures
            ops@.len() == 0 ==> r is None,
            ops@.len() > 0 ==> (r matches Some(s) && s@ == joined_commands(ops@)),
    {
        if ops.len() == 0 {
            return None;
        }
        let mut s = String::new();
        push_op_command(&mut s, &ops[0]);
        assert(s@ =~= joined_commands(ops@.take(1)));
        let mut i: usize = 1;
        while i < ops.len()
            invariant
                1 <= i <= ops@.len(),
                s@ == joined_commands(ops@.take(i as int)),
            decreases ops.len() - i,
        {
            assert(ops@.take(i as int + 1).drop_last() =~= ops@.take(i as int));
            push_str(&mut s, "; ");
            push_op_command(&mut s, &ops[i]);
            i += 1;
            assert(s@ =~= joined_commands(ops@.take(i as int)));
        }
        assert(ops@.take(i as int) =~= ops@);
        Some(s)
    }
}

// ---------------------------------------------------------------------------
// The debounced frame pipeline.
// ---------------------------------------------------------------------------

/// What one frame did: the events it drained, the targets it computed, the
/// moves it kept and the command batch for them.
#[derive(Debug, Clone, PartialEq, Eq)]
pub struct FrameResult {
    pub drained_events: Vec<BackendEvent>,
    pub computed_targets: HashMap<WindowId, Rect>,
    pub applied_ops: Vec<LayoutOp>,
    pub command_batch: Option<String>,
}

/// Mathematical view of a frame pipeline.
pub struct PipelineView {
    pub debounce_ms: u64,
    pub thresholds: DiffThresholds,
    pub pending_events: Seq<BackendEvent>,
    pub pending_clusters: Set<ClusterId>,
    pub last_queued_at: Option<u64>,
}

/// The clusters of `cs` that have pending events, in order.
pub open spec fn affected_clusters(cs: Seq<ClusterInputView>, pending: Set<ClusterId>) -> Seq<
    ClusterInputView,
>
    decreases cs.len(),
{
    if cs.len() == 0 {
        cs
    } else if pending.contains(cs.last().cluster_id) {
        affected_clusters(cs.drop_last(), pending).push(cs.last())
    } else {
        affected_clusters(cs.drop_last(), pending)
    }
}

/// A frame is due at `now` (milliseconds): an event is queued and the
/// debounce window has passed since the last one.
pub open spec fn frame_due(p: PipelineView, now: u64) -> bool {
    p.last_queued_at matches Some(q) && (if now >= q { now - q } else { 0 }) >= p.debounce_ms
}

/// Everything a due frame computes can be computed: the affected clusters
/// tile within `i32` and their targets compare with the current geometry.
pub open spec fn frame_computable(p: PipelineView, clusters: Seq<ClusterLayoutInput>, current: Map<
    WindowId,
    Rect,
>) -> bool {
    let affected = affected_clusters(input_views(clusters), p.pending_clusters);
    &&& forall|i: int| 0 <= i < affected.len() ==> cluster_fits(#[trigger] affected[i])
    &&& geometry_comparable(current, layout_targets(affected))
}

/// Collects window-manager events and, once they have been quiet for the
/// debounce window, turns them into one layout frame for the clusters they
/// touched.
#[derive(Debug)]
pub struct FramePipeline {
    debounce_window_ms: u64,
    thresholds: DiffThresholds,
    layout_engine: LayoutEngine,
    pending_events: Vec<BackendEvent>,
    pending_clusters: Vec<ClusterId>,
    last_queued_at_ms: Option<u64>,
}

impl View for FramePipeline {
    type V = PipelineView;

    closed spec fn view(&self) -> PipelineView {
        PipelineView {
            debounce_ms: self.debounce_window_ms,
            thresholds: self.thresholds,
            pending_events: self.pending_events@,
            pending_clusters: self.pending_clusters@.to_set(),
            last_queued_at: self.last_queued_at_ms,
        }
    }
}

impl FramePipeline {
    /// A pipeline with nothing queued; times are in milliseconds.
    pub fn new(debounce_window_ms: u64, thresholds: DiffThresholds) -> (r: Self)
        ensures
            r@.debounce_ms == debounce_window_ms,
            r@.thresholds == thresholds,
            r@.pending_events == Seq::<BackendEvent>::empty(),
            r@.pending_clusters == Set::<ClusterId>::empty(),
            r@.last_queued_at == None::<u64>,
    {
        let r = FramePipeline {
            debounce_window_ms,
            thresholds,
            layout_engine: LayoutEngine,
            pending_events: Vec::new(),
            pending_clusters: Vec::new(),
            last_queued_at_ms: None,
        };
        assert(r@.pending_clusters =~= Set::<ClusterId>::empty());
        r
    }

    /// Queues `event`, observed at `now_ms`, marking its cluster dirty.
    pub fn queue_event(&mut self, event: BackendEvent, now_ms: u64)
        ensures
            final(self)@.debounce_ms == old(self)@.debounce_ms,
            final(self)@.thresholds == old(self)@.thresholds,
            final(self)@.pending_events == old(self)@.pending_events.push(event),
            final(self)@.pending_clusters == old(self)@.pending_clusters.insert(event_cluster(event)),
            final(self)@.last_queued_at == Some(now_ms),
    {
        let c = event.cluster_id();
        if !contains_id(&self.pending_clusters, c) {
            self.pending_clusters.push(c);
        }
        self.pending_events.push(event);
        self.last_queued_at_ms = Some(now_ms);
        assert(self@.pending_clusters =~= old(self)@.pending_clusters.insert(event_cluster(event)));
    }

    /// At `now_ms`, once the debounce window has passed since the last
    /// queued event, drains the queue and lays out the touched clusters
    /// against `current_geometry`; otherwise leaves everything as it is.
    pub fn try_build_frame(
        &mut self,
        now_ms: u64,
        clusters: &[ClusterLayoutInput],
        current_geometry: &HashMap<WindowId, Rect>,
    ) -> (r: Option<FrameResult>)
        requires
            frame_due(old(self)@, now_ms) ==> frame_computable(old(self)@, clusters@, current_geometry@),
        ensures
            !frame_due(old(self)@, now_ms) ==> r is None && final(self)@ == old(self)@,
            frame_due(old(self)@, now_ms) ==> {
                let affected = affected_clusters(input_views(clusters@), old(self)@.pending_clusters);
                &&& r matches Some(f)
                &&& f.drained_events@ == old(self)@.pending_events
                &&& f.computed_targets@ == layout_targets(affected)
                &&& is_diff(current_geometry@, f.computed_targets@, old(self)@.thresholds, f.applied_ops@)
                &&& (f.applied_ops@.len() == 0 ==> f.command_batch is None)
                &&& (f.applied_ops@.len() > 0 ==> (f.command_batch matches Some(s) && s@ == joined_commands(f.applied_ops@)))
                &&& final(self)@.debounce_ms == old(self)@.debounce_ms
                &&& final(self)@.thresholds == old(self)@.thresholds
                &&& final(self)@.pending_events == Seq::<BackendEvent>::empty()
                &&& final(self)@.pending_clusters == Set::<ClusterId>::empty()
                &&& final(self)@.last_queued_at == None::<u64>
            },
    {
        let queued_at = match self.last_queued_at_ms {
            Some(q) => q,
            None => {
                return None;
            },
        };
        let elapsed: u64 = if now_ms >= queued_at { now_ms - queued_at } else { 0 };
        if elapsed < self.debounce_window_ms {
            return None;
        }
        let mut pending_clusters: Vec<ClusterId> = Vec::new();
        std::mem::swap(&mut pending_clusters, &mut self.pending_clusters);
        let mut drained_events: Vec<BackendEvent> = Vec::new();
        std::mem::swap(&mut drained_events, &mut self.pending_events);
        self.last_queued_at_ms = None;
        assert(self@.pending_clusters =~= Set::<ClusterId>::empty());

        let ghost pend = pending_clusters@.to_set();
        let mut affected: Vec<ClusterLayoutInput> = Vec::new();
        let mut i: usize = 0;
        while i < clusters.len()
            invariant
                i <= clusters@.len(),
                pend == pending_clusters@.to_set(),
                input_views(affected@) == affected_clusters(input_views(clusters@.take(i as int)), pend),
            decreases clusters.len() - i,
        {
            assert(input_views(clusters@.take(i as int + 1)).drop_last() =~= input_views(clusters@.take(i as int)));
            if contains_id(&pending_clusters, clusters[i].cluster_id) {
                let copy = clusters[i].duplicate();
                affected.push(copy);
            }
            i += 1;
            assert(input_views(affected@) =~= affected_clusters(input_views(clusters@.take(i as int)), pend));
        }
        assert(clusters@.take(i as int) =~= clusters@);
        assert(pend == old(self)@.pending_clusters);
        assert forall|k: int| 0 <= k < affected@.len() implies cluster_fits(#[trigger] affected@[k]@) by {
            assert(input_views(affected@)[k] == affected@[k]@);
        }
        let computed_targets = self.layout_engine.compute(&affected);
        let applied_ops = diff_targets(current_geometry, &computed_targets, self.thresholds);
        let command_batch = LayoutEngine::apply(&applied_ops);
        Some(FrameResult { drained_events, computed_targets, applied_ops, command_batch })
    }
}

// ---------------------------------------------------------------------------
// Laws.
// ---------------------------------------------------------------------------

/// The commands that send each window of `ids` with a known workspace back
/// there, once per window, in first-occurrence order.
pub open spec fn return_commands(ids: Seq<i64>, wsm: Map<i64, WorkspaceMetadata>) -> Seq<Seq<char>>
    decreases ids.len(),
{
    if ids.len() == 0 {
        Seq::empty()
    } else {
        let prev = return_commands(ids.drop_last(), wsm);
        let w = ids.last();
        if wsm.contains_key(w) && !ids.drop_last().contains(w) {
            prev.push(restore_command(w as int, wsm[w]))
        } else {
            prev
        }
    }
}

proof fn lemma_restore_prefix(
    wsm: Map<i64, WorkspaceMetadata>,
    all: Set<i64>,
    p: Seq<i64>,
    live: Set<i64>,
)
    requires
        forall|w: i64| p.contains(w) ==> all.contains(w) && live.contains(w),
    ensures
        restore_steps(wsm.restrict(all), p, live).0 == wsm.restrict(all.difference(p.to_set())),
        restore_steps(wsm.restrict(all), p, live).1 == return_commands(p, wsm),
    decreases p.len(),
{
    if p.len() > 0 {
        let d = p.drop_last();
        let w = p.last();
        assert(p.contains(w));
        assert forall|v: i64| d.contains(v) implies all.contains(v) && live.contains(v) by {
            let j = choose|j: int| 0 <= j < d.len() && d[j] == v;
            assert(p[j] == v);
        }
        lemma_restore_prefix(wsm, all, d, live);
        assert(p.to_set() =~= d.to_set().insert(w)) by {
            assert(p =~= d.push(w));
        }
        let prev = restore_steps(wsm.restrict(all), d, live);
        assert(prev.0.contains_key(w) <==> (wsm.contains_key(w) && !d.contains(w)));
        assert(restore_steps(wsm.restrict(all), p, live).0 =~= wsm.restrict(all.difference(p.to_set())));
    }
}

/// Zooming into a cluster (`enter_cluster_zoom`) on a fresh controller and
/// restoring it (`restore_workspace`), with every target window still
/// alive, sends each target window that had a known workspace back to that
/// workspace (by number where it has one, else by its quoted name), once
/// and in order, and leaves no origin behind (`tracked_windows` is empty).
pub proof fn law_zoom_round_trip(
    c: WorkspaceTransitionController,
    targets: Seq<i64>,
    wsm: Map<i64, WorkspaceMetadata>,
    live: Set<i64>,
)
    requires
        c@.origins == Map::<i64, WorkspaceMetadata>::empty(),
        forall|w: i64| targets.contains(w) ==> live.contains(w),
    ensures
        ({
            let after_zoom = zoom_tracked(c@.origins, targets, wsm);
            let back = restore_steps(after_zoom, targets, live);
            &&& back.1 == return_commands(targets, wsm)
            &&& back.0.restrict(live) == Map::<i64, WorkspaceMetadata>::empty()
        }),
{
    let all = targets.to_set();
    assert(zoom_tracked(c@.origins, targets, wsm) =~= wsm.restrict(all));
    lemma_restore_prefix(wsm, all, targets, live);
    assert(all.difference(targets.to_set()) =~= Set::<i64>::empty());
    assert(wsm.restrict(Set::<i64>::empty()).restrict(live) =~= Map::<i64, WorkspaceMetadata>::empty());
}

/// Restoring forgets every requested window and every window that is gone:
/// what stays recorded is live and was not asked for.
pub proof fn law_restore_forgets_requested(origins: Map<i64, WorkspaceMetadata>, ids: Seq<i64>, live: Set<i64>)
    ensures
        forall|w: i64| #[trigger] restore_steps(origins, ids, live).0.restrict(live).contains_key(w) ==> live.contains(w)
            && !ids.contains(w) && origins.contains_key(w),
    decreases ids.len(),
{
    if ids.len() > 0 {
        law_restore_forgets_requested(origins, ids.drop_last(), live);
        let d = ids.drop_last();
        assert forall|w: i64| #[trigger] restore_steps(origins, ids, live).0.restrict(live).contains_key(w) implies live.contains(w)
            && !ids.contains(w) && origins.contains_key(w) by {
            assert(restore_steps(origins, d, live).0.restrict(live).contains_key(w));
            if ids.contains(w) {
                let j = choose|j: int| 0 <= j < ids.len() && ids[j] == w;
                if j < ids.len() - 1 {
                    assert(d[j] == w);
                }
            }
        }
    }
}


/// The pipeline after `event` is queued at `now`.
pub open spec fn queued(p: PipelineView, event: BackendEvent, now: u64) -> PipelineView {
    PipelineView {
        pending_events: p.pending_events.push(event),
        pending_clusters: p.pending_clusters.insert(event_cluster(event)),
        last_queued_at: Some(now),
        ..p
    }
}

/// A pipeline with nothing queued is never due.
pub proof fn law_fresh_pipeline_never_due(p: PipelineView, now: u64)
    requires
        p.last_queued_at is None,
    ensures
        !frame_due(p, now),
{
}

/// After two events, a frame is due exactly once the debounce window has
/// passed since the later one, whatever the time since the earlier; when
/// it is built it drains both events, in order, after any queued before.
pub proof fn law_frame_waits_for_last_event(p: PipelineView, e1: BackendEvent, t0: u64, e2: BackendEvent, t1: u64, now: u64)
    ensures
        ({
            let p2 = queued(queued(p, e1, t0), e2, t1);
            &&& frame_due(p2, now) <==> (if now >= t1 { now - t1 } else { 0 }) >= p.debounce_ms
            &&& p2.pending_events == p.pending_events + seq![e1, e2]
        }),
{
    assert(queued(queued(p, e1, t0), e2, t1).pending_events =~= p.pending_events + seq![e1, e2]);
}

} // verus!
