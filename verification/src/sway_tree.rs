//! What the daemon learns from sway's layout tree: the client windows with
//! their workspace, role and state, the size of each, and the workspaces as
//! clusters holding them.

use std::collections::HashMap;

use vstd::prelude::*;

use crate::contracts::{Cluster, ClusterId, ClusterView, Window, WindowId, WindowRole, WindowState};
use crate::daemon::WmFacts;
use crate::seq_util::{lemma_insert_by_at, sort_by};
use crate::text::{chars_of, contains_chars, has_prefix, has_substring, lower_ascii, lowercase_chars, starts_with_chars};

verus! {

broadcast use {vstd::seq_lib::group_seq_properties, vstd::std_specs::hash::group_hash_axioms};

/// The kinds of node in sway's layout tree.
#[derive(Debug, Clone, Copy, PartialEq, Eq, Structural)]
pub enum SwayNodeKind {
    Root,
    Output,
    Workspace,
    Con,
    FloatingCon,
    Dockarea,
}

/// A node of sway's layout tree, as far as the daemon reads it.
#[derive(Debug)]
pub struct SwayNode {
    pub id: i64,
    pub kind: SwayNodeKind,
    pub name: Option<String>,
    /// The node belongs to a client process (it has a pid).
    pub has_pid: bool,
    pub app_id: Option<String>,
    /// The X11 class, for Xwayland windows.
    pub class: Option<String>,
    pub transient_for: Option<i64>,
    /// The node sits in the scratchpad (fresh or changed).
    pub in_scratchpad: bool,
    /// The node floats.
    pub floating: bool,
    /// The node is fullscreen.
    pub fullscreen: bool,
    /// The node has keyboard focus.
    pub focused: bool,
    pub width: i32,
    pub height: i32,
    /// Tiled children first, then floating ones.
    pub children: Vec<SwayNode>,
}

/// A workspace as sway lists it, its position already in canvas units.
pub struct SwayWorkspace<P> {
    pub id: i64,
    pub name: String,
    pub x: P,
    pub y: P,
    pub visible: bool,
}

/// What the daemon records of a client window, with its size.
pub struct WindowDesc {
    pub id: WindowId,
    pub title: Seq<char>,
    pub app_id: Option<Seq<char>>,
    pub class: Option<Seq<char>>,
    pub role: WindowRole,
    pub state: WindowState,
    pub cluster_id: Option<ClusterId>,
    pub transient_for: Option<WindowId>,
    pub manual_cluster_override: bool,
    pub manual_position_override: bool,
    pub size: (i32, i32),
}

pub open spec fn opt_view(o: Option<String>) -> Option<Seq<char>> {
    match o {
        Some(s) => Some(s@),
        None => None,
    }
}

/// The description of a recorded window and its size.
pub open spec fn desc_of(w: Window, size: (i32, i32)) -> WindowDesc {
    WindowDesc {
        id: w.id,
        title: w.title@,
        app_id: opt_view(w.app_id),
        class: opt_view(w.class),
        role: w.role,
        state: w.state,
        cluster_id: w.cluster_id,
        transient_for: w.transient_for,
        manual_cluster_override: w.manual_cluster_override,
        manual_position_override: w.manual_position_override,
        size,
    }
}

pub open spec fn pair_descs(v: Seq<(Window, (i32, i32))>) -> Seq<WindowDesc> {
    v.map_values(|p: (Window, (i32, i32))| desc_of(p.0, p.1))
}

/// Workspaces whose name starts with `__i3` (the scratchpad) hold no
/// cluster.
pub open spec fn is_scratch_name(name: Option<String>) -> bool {
    match name {
        Some(n) => has_prefix(n@, "__i3"@),
        None => false,
    }
}

/// Whether the subtree at `n` is the scratchpad workspace's, given whether
/// its parent's was.
pub open spec fn scratch_below(n: SwayNode, under: bool) -> bool {
    under || (n.kind == SwayNodeKind::Workspace && is_scratch_name(n.name))
}

/// The cluster of the windows below `n`: the workspace's id for a
/// workspace (none for the scratchpad's), else the parent's.
pub open spec fn cluster_below(n: SwayNode, cluster: Option<ClusterId>, under: bool) -> Option<ClusterId> {
    if n.kind == SwayNodeKind::Workspace {
        if scratch_below(n, under) {
            None
        } else {
            Some(n.id as u64)
        }
    } else {
        cluster
    }
}

/// The node is a client window: a container with a process.
pub open spec fn is_client(n: SwayNode) -> bool {
    (n.kind == SwayNodeKind::Con || n.kind == SwayNodeKind::FloatingCon) && n.has_pid
}

pub open spec fn mentions_overlay(s: Seq<char>) -> bool {
    has_substring(lower_ascii(s), "overlay"@) || has_substring(lower_ascii(s), "popup"@)
}

/// The window's title, app id or class says it is an overlay or popup.
pub open spec fn overlay_hint(n: SwayNode) -> bool {
    let title = match n.name {
        Some(s) => s@,
        None => Seq::empty(),
    };
    mentions_overlay(title) || (match n.app_id {
        Some(a) => mentions_overlay(a@),
        None => false,
    }) || (match n.class {
        Some(c) => mentions_overlay(c@),
        None => false,
    })
}

/// How the daemon records a client window: scratchpad windows have no
/// cluster and are minimized; overlays are utilities; floating or
/// transient windows are dialogs; fullscreen wins over the other states;
/// the layout leaves scratchpad, overlay and fullscreen windows alone.
pub open spec fn window_of(n: SwayNode, cluster: Option<ClusterId>, under: bool) -> WindowDesc {
    let scratch = under || n.in_scratchpad;
    let overlay = overlay_hint(n);
    WindowDesc {
        id: n.id as u64,
        title: match n.name {
            Some(s) => s@,
            None => Seq::empty(),
        },
        app_id: opt_view(n.app_id),
        class: opt_view(n.class),
        role: if scratch {
            WindowRole::Scratchpad
        } else if overlay {
            WindowRole::Utility
        } else if n.floating || n.transient_for is Some {
            WindowRole::Dialog
        } else {
            WindowRole::Normal
        },
        state: if n.fullscreen {
            WindowState::Fullscreen
        } else if scratch {
            WindowState::MinimizedLike
        } else if n.floating {
            WindowState::Floating
        } else {
            WindowState::Tiled
        },
        cluster_id: if scratch {
            None
        } else {
            cluster
        },
        transient_for: match n.transient_for {
            Some(t) => Some(t as u64),
            None => None,
        },
        manual_cluster_override: false,
        manual_position_override: scratch || overlay || n.fullscreen,
        size: (n.width, n.height),
    }
}

/// The client windows of the tree under `n`, a node before its children,
/// the children in order.
pub open spec fn tree_windows(n: SwayNode, cluster: Option<ClusterId>, under: bool) -> Seq<WindowDesc>
    decreases n, 0int,
{
    let scratch = scratch_below(n, under);
    let cid = cluster_below(n, cluster, under);
    let own = if is_client(n) {
        seq![window_of(n, cid, scratch)]
    } else {
        Seq::empty()
    };
    own + children_windows(n.children@, 0, cid, scratch)
}

/// The client windows under `nodes[i..]`.
pub open spec fn children_windows(nodes: Seq<SwayNode>, i: int, cluster: Option<ClusterId>, under: bool) -> Seq<
    WindowDesc,
>
    decreases nodes, nodes.len() - i,
{
    if i < 0 || i >= nodes.len() {
        Seq::empty()
    } else {
        tree_windows(nodes[i], cluster, under) + children_windows(nodes, i + 1, cluster, under)
    }
}

fn is_scratch_name_exec(name: &Option<String>) -> (r: bool)
    ensures
        r == is_scratch_name(*name),
{
    match name {
        Some(n) => starts_with_chars(&chars_of(n.as_str()), &chars_of("__i3")),
        None => false,
    }
}

fn mentions_overlay_exec(s: &str) -> (r: bool)
    ensures
        r == mentions_overlay(s@),
{
    let lower = lowercase_chars(s);
    contains_chars(&lower, &chars_of("overlay")) || contains_chars(&lower, &chars_of("popup"))
}

fn copy_opt(o: &Option<String>) -> (r: Option<String>)
    ensures
        opt_view(r) == opt_view(*o),
{
    match o {
        Some(s) => Some(s.clone()),
        None => None,
    }
}

fn client_window(n: &SwayNode, cluster: Option<ClusterId>, under: bool) -> (r: (Window, (i32, i32)))
    ensures
        desc_of(r.0, r.1) == window_of(*n, cluster, under),
{
    let scratch = under || n.in_scratchpad;
    let title = match &n.name {
        Some(s) => s.clone(),
        None => String::new(),
    };
    let overlay = mentions_overlay_exec(title.as_str()) || (match &n.app_id {
        Some(a) => mentions_overlay_exec(a.as_str()),
        None => false,
    }) || (match &n.class {
        Some(c) => mentions_overlay_exec(c.as_str()),
        None => false,
    });
    let role = if scratch {
        WindowRole::Scratchpad
    } else if overlay {
        WindowRole::Utility
    } else if n.floating || n.transient_for.is_some() {
        WindowRole::Dialog
    } else {
        WindowRole::Normal
    };
    let state = if n.fullscreen {
        WindowState::Fullscreen
    } else if scratch {
        WindowState::MinimizedLike
    } else if n.floating {
        WindowState::Floating
    } else {
        WindowState::Tiled
    };
    let w = Window {
        id: #[verifier::truncate] (n.id as u64),
        title,
        app_id: copy_opt(&n.app_id),
        class: copy_opt(&n.class),
        role,
        state,
        cluster_id: if scratch {
            None
        } else {
            cluster
        },
        transient_for: match n.transient_for {
            Some(t) => Some(#[verifier::truncate] (t as u64)),
            None => None,
        },
        manual_cluster_override: false,
        manual_position_override: scratch || overlay || n.fullscreen,
    };
    (w, (n.width, n.height))
}

/// Appends the client windows under `node` (with their sizes) to `out`.
fn collect_windows(node: &SwayNode, cluster: Option<ClusterId>, under: bool, out: &mut Vec<(Window, (i32, i32))>)
    ensures
        pair_descs(final(out)@) == pair_descs(old(out)@) + tree_windows(*node, cluster, under),
    decreases node,
{
    let ghost start = pair_descs(out@);
    let scratch = under || (node.kind == SwayNodeKind::Workspace && is_scratch_name_exec(&node.name));
    let cid = if node.kind == SwayNodeKind::Workspace {
        if scratch {
            None
        } else {
            Some(#[verifier::truncate] (node.id as u64))
        }
    } else {
        cluster
    };
    let ghost own = if is_client(*node) {
        seq![window_of(*node, cid, scratch)]
    } else {
        Seq::<WindowDesc>::empty()
    };
    if (node.kind == SwayNodeKind::Con || node.kind == SwayNodeKind::FloatingCon) && node.has_pid {
        let pair = client_window(node, cid, scratch);
        out.push(pair);
    }
    assert(pair_descs(out@) =~= start + own);
    let mut i: usize = 0;
    while i < node.children.len()
        invariant
            i <= node.children@.len(),
            pair_descs(out@) + children_windows(node.children@, i as int, cid, scratch) == start + tree_windows(
                *node,
                cluster,
                under,
            ),
        decreases node.children.len() - i,
    {
        proof {
            assert(decreases_to!(*node => node.children@[i as int]));
        }
        let ghost before = pair_descs(out@);
        collect_windows(&node.children[i], cid, scratch, out);
        assert(before + children_windows(node.children@, i as int, cid, scratch) =~= pair_descs(out@)
            + children_windows(node.children@, i as int + 1, cid, scratch));
        i += 1;
    }
    assert(children_windows(node.children@, i as int, cid, scratch) =~= Seq::<WindowDesc>::empty());
    assert(pair_descs(out@) + Seq::<WindowDesc>::empty() =~= pair_descs(out@));
}

/// Windows by id, ties in tree order.
pub open spec fn by_window_id() -> spec_fn(WindowDesc, WindowDesc) -> bool {
    |a: WindowDesc, b: WindowDesc| a.id < b.id
}

/// The sizes of `ws` by window id, a later window of an id overriding an
/// earlier one.
pub open spec fn sizes_of(ws: Seq<WindowDesc>) -> Map<WindowId, (i32, i32)>
    decreases ws.len(),
{
    if ws.len() == 0 {
        Map::empty()
    } else {
        sizes_of(ws.drop_last()).insert(ws.last().id, ws.last().size)
    }
}

/// The ids of the windows of `ws` in cluster `c`, in order.
pub open spec fn ids_in_cluster(ws: Seq<WindowDesc>, c: ClusterId) -> Seq<WindowId>
    decreases ws.len(),
{
    if ws.len() == 0 {
        Seq::empty()
    } else if ws.last().cluster_id == Some(c) {
        ids_in_cluster(ws.drop_last(), c).push(ws.last().id)
    } else {
        ids_in_cluster(ws.drop_last(), c)
    }
}

/// The cluster of the `k`th listed workspace: its windows (none where an
/// earlier listed workspace has the same id), in window order, also as
/// its recency, the first of them focused last.
pub open spec fn workspace_cluster<P>(spaces: Seq<SwayWorkspace<P>>, k: int, ws: Seq<WindowDesc>) -> ClusterView<P> {
    let s = spaces[k];
    let id = s.id as u64;
    let windows = if exists|j: int| 0 <= j < k && #[trigger] spaces[j].id as u64 == id {
        Seq::empty()
    } else {
        ids_in_cluster(ws, id)
    };
    ClusterView {
        id: id,
        name: s.name@,
        x: s.x,
        y: s.y,
        enabled: s.visible,
        windows: windows,
        last_focus: if windows.len() > 0 {
            Some(windows[0])
        } else {
            None
        },
        recency: windows,
    }
}

/// The workspaces that stand for clusters: all but the scratchpad's.
pub open spec fn cluster_spaces<P>(spaces: Seq<SwayWorkspace<P>>) -> Seq<SwayWorkspace<P>>
    decreases spaces.len(),
{
    if spaces.len() == 0 {
        Seq::empty()
    } else if has_prefix(spaces.last().name@, "__i3"@) {
        cluster_spaces(spaces.drop_last())
    } else {
        cluster_spaces(spaces.drop_last()).push(spaces.last())
    }
}

fn window_before(a: &(Window, (i32, i32)), b: &(Window, (i32, i32))) -> (r: bool)
    ensures
        r == (by_window_id())(desc_of(a.0, a.1), desc_of(b.0, b.1)),
{
    a.0.id < b.0.id
}

fn sort_windows(pairs: Vec<(Window, (i32, i32))>) -> (r: Vec<(Window, (i32, i32))>)
    ensures
        pair_descs(r@) == sort_by(pair_descs(pairs@), by_window_id()),
{
    let ghost orig = pair_descs(pairs@);
    let mut rest = pairs;
    let mut r: Vec<(Window, (i32, i32))> = Vec::new();
    let mut i: usize = 0;
    let n = rest.len();
    while rest.len() > 0
        invariant
            n == orig.len(),
            i + rest@.len() == n,
            pair_descs(rest@) == orig.skip(i as int),
            pair_descs(r@) == sort_by(orig.take(i as int), by_window_id()),
        decreases rest.len(),
    {
        let x = rest.remove(0);
        assert(desc_of(x.0, x.1) == orig[i as int]);
        let ghost xs = orig.take(i as int + 1);
        assert(xs.drop_last() =~= orig.take(i as int));
        assert(xs.last() == desc_of(x.0, x.1));
        let mut pos: usize = r.len();
        while pos > 0 && window_before(&x, &r[pos - 1])
            invariant
                pos <= r@.len(),
                forall|k: int|
                    pos <= k < r@.len() ==> (by_window_id())(desc_of(x.0, x.1), #[trigger] pair_descs(r@)[k]),
            decreases pos,
        {
            assert(pair_descs(r@)[pos - 1] == desc_of(r@[pos - 1].0, r@[pos - 1].1));
            pos -= 1;
        }
        proof {
            if pos > 0 {
                assert(pair_descs(r@)[pos - 1] == desc_of(r@[pos - 1].0, r@[pos - 1].1));
            }
            lemma_insert_by_at(pair_descs(r@), desc_of(x.0, x.1), by_window_id(), pos as int);
        }
        let ghost before = pair_descs(r@);
        let ghost dx = desc_of(x.0, x.1);
        r.insert(pos, x);
        assert(pair_descs(r@) =~= before.take(pos as int) + seq![dx] + before.skip(pos as int));
        i += 1;
        assert(pair_descs(rest@) =~= orig.skip(i as int));
    }
    assert(orig.take(i as int) =~= orig);
    r
}

/// What sway's layout tree and workspace list tell the daemon: the client
/// windows in id order (tree order among equal ids), the size of each
/// window id (the last window of an id in tree order), and a cluster per
/// workspace but the scratchpad's, holding its windows.
pub fn sway_facts<P: Copy>(tree: &SwayNode, workspaces: Vec<SwayWorkspace<P>>) -> (r: WmFacts<P>)
    ensures
        ({
            let collected = tree_windows(*tree, None, false);
            let sorted = sort_by(collected, by_window_id());
            let spaces = cluster_spaces(workspaces@);
            &&& r.windows@.len() == sorted.len()
            &&& forall|i: int| 0 <= i < sorted.len() ==> #[trigger] desc_of(r.windows@[i], sorted[i].size) == sorted[i]
            &&& r.window_geometry@ == sizes_of(collected)
            &&& r.clusters@.len() == spaces.len()
            &&& forall|k: int| 0 <= k < spaces.len() ==> #[trigger] r.clusters@[k]@ == workspace_cluster(spaces, k, sorted)
        }),
{
    let mut collected: Vec<(Window, (i32, i32))> = Vec::new();
    collect_windows(tree, None, false, &mut collected);
    let ghost cw = tree_windows(*tree, None, false);
    assert(pair_descs(collected@) =~= cw);
    // Sizes, in tree order.
    let mut window_geometry: HashMap<WindowId, (i32, i32)> = HashMap::new();
    let mut i: usize = 0;
    while i < collected.len()
        invariant
            i <= collected@.len(),
            pair_descs(collected@) == cw,
            window_geometry@ == sizes_of(cw.take(i as int)),
        decreases collected.len() - i,
    {
        assert(cw.take(i as int + 1).drop_last() =~= cw.take(i as int));
        assert(cw[i as int] == desc_of(collected@[i as int].0, collected@[i as int].1));
        window_geometry.insert(collected[i].0.id, collected[i].1);
        i += 1;
    }
    assert(cw.take(collected@.len() as int) =~= cw);
    let sorted = sort_windows(collected);
    let ghost sd = pair_descs(sorted@);
    // Windows.
    let mut windows: Vec<Window> = Vec::new();
    let mut j: usize = 0;
    while j < sorted.len()
        invariant
            j <= sorted@.len(),
            sd == pair_descs(sorted@),
            windows@.len() == j,
            forall|q: int| 0 <= q < j ==> #[trigger] desc_of(windows@[q], sd[q].size) == sd[q],
        decreases sorted.len() - j,
    {
        assert(sd[j as int] == desc_of(sorted@[j as int].0, sorted@[j as int].1));
        windows.push(sorted[j].0.duplicate());
        j += 1;
    }
    // Clusters.
    let ghost all = workspaces@;
    let mut kept: Vec<SwayWorkspace<P>> = Vec::new();
    let mut rest = workspaces;
    let mut w: usize = 0;
    let total = rest.len();
    while rest.len() > 0
        invariant
            total == all.len(),
            w + rest@.len() == total,
            rest@ == all.skip(w as int),
            kept@ == cluster_spaces(all.take(w as int)),
        decreases rest.len(),
    {
        let s = rest.remove(0);
        assert(s == all[w as int]);
        let ghost xs = all.take(w as int + 1);
        assert(xs.drop_last() =~= all.take(w as int));
        assert(xs.last() == s);
        if !starts_with_chars(&chars_of(s.name.as_str()), &chars_of("__i3")) {
            kept.push(s);
        }
        w += 1;
        assert(rest@ =~= all.skip(w as int));
    }
    assert(all.take(w as int) =~= all);
    let ghost spaces = kept@;
    let mut clusters: Vec<Cluster<P>> = Vec::new();
    let mut k: usize = 0;
    while k < kept.len()
        invariant
            k <= kept@.len(),
            spaces == kept@,
            sd == pair_descs(sorted@),
            clusters@.len() == k,
            forall|q: int| 0 <= q < k ==> #[trigger] clusters@[q]@ == workspace_cluster(spaces, q, sd),
        decreases kept.len() - k,
    {
        let s = &kept[k];
        let id: u64 = #[verifier::truncate] (s.id as u64);
        let mut seen = false;
        let mut q: usize = 0;
        while q < k
            invariant
                k < kept@.len(),
                q <= k,
                id == kept@[k as int].id as u64,
                seen == exists|j: int| 0 <= j < q && #[trigger] kept@[j].id as u64 == id,
            decreases k - q,
        {
            if (#[verifier::truncate] (kept[q].id as u64)) == id {
                seen = true;
            }
            q += 1;
        }
        let ids = if seen {
            Vec::new()
        } else {
            cluster_window_ids(&sorted, id)
        };
        let ghost expected = workspace_cluster(spaces, k as int, sd);
        assert(ids@ == expected.windows);
        let last_focus = if ids.len() > 0 {
            Some(ids[0])
        } else {
            None
        };
        let recency = crate::seq_util::vec_copy(&ids);
        clusters.push(
            Cluster {
                id,
                name: s.name.clone(),
                x: s.x,
                y: s.y,
                enabled: s.visible,
                windows: ids,
                last_focus,
                recency,
            },
        );
        k += 1;
    }
    WmFacts { clusters, windows, window_geometry }
}

/// The ids of the windows of `pairs` in cluster `c`, in order.
fn cluster_window_ids(pairs: &Vec<(Window, (i32, i32))>, c: ClusterId) -> (r: Vec<WindowId>)
    ensures
        r@ == ids_in_cluster(pair_descs(pairs@), c),
{
    let ghost ds = pair_descs(pairs@);
    let mut r: Vec<WindowId> = Vec::new();
    let mut i: usize = 0;
    while i < pairs.len()
        invariant
            i <= pairs@.len(),
            ds == pair_descs(pairs@),
            r@ == ids_in_cluster(ds.take(i as int), c),
        decreases pairs.len() - i,
    {
        assert(ds.take(i as int + 1).drop_last() =~= ds.take(i as int));
        assert(ds[i as int] == desc_of(pairs@[i as int].0, pairs@[i as int].1));
        if pairs[i].0.cluster_id == Some(c) {
            r.push(pairs[i].0.id);
        }
        i += 1;
    }
    assert(ds.take(pairs@.len() as int) =~= ds);
    r
}


/// The focused client window under `n`: a node before its children, the
/// children in order.
pub open spec fn focused_window(n: SwayNode) -> Option<WindowId>
    decreases n, 0int,
{
    if n.focused && n.has_pid {
        Some(n.id as u64)
    } else {
        first_focused_from(n.children@, 0)
    }
}

/// The first focused client window under `nodes[i..]`.
pub open spec fn first_focused_from(nodes: Seq<SwayNode>, i: int) -> Option<WindowId>
    decreases nodes, nodes.len() - i,
{
    if i < 0 || i >= nodes.len() {
        None
    } else {
        match focused_window(nodes[i]) {
            Some(w) => Some(w),
            None => first_focused_from(nodes, i + 1),
        }
    }
}

/// The id of the focused client window, if any.
pub fn find_focused_window_id(node: &SwayNode) -> (r: Option<WindowId>)
    ensures
        r == focused_window(*node),
    decreases node,
{
    if node.focused && node.has_pid {
        return Some(#[verifier::truncate] (node.id as u64));
    }
    let mut i: usize = 0;
    while i < node.children.len()
        invariant
            i <= node.children@.len(),
            !(node.focused && node.has_pid),
            first_focused_from(node.children@, 0) == first_focused_from(node.children@, i as int),
        decreases node.children.len() - i,
    {
        proof {
            assert(decreases_to!(*node => node.children@[i as int]));
        }
        match find_focused_window_id(&node.children[i]) {
            Some(w) => return Some(w),
            None => {},
        }
        i += 1;
    }
    None
}

} // verus!
