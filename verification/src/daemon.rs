//! The daemon's authoritative canvas state and the navigation requests it
//! serves: activating and selecting clusters, zooming in and out, cycling
//! through a cluster's windows and through recently used clusters, moving
//! and renaming, and the drag / keyboard-move interactions.
//!
//! Every request bumps the state revision except where noted; the revision
//! saturates at `u64::MAX`.

use std::collections::HashMap;
use vstd::prelude::*;
use vstd::std_specs::hash::{spec_hash_map_iter, spec_keys_iter};
use vstd::std_specs::iter::IteratorSpec;

use crate::config::{opt_chars, AssignmentHint, HintView};
use crate::contracts::{
    CanvasState, CanvasView, Cluster, ClusterId, ClusterView, ContextStripDirection,
    CycleDirection, TransitionPhase, Window, WindowId, WindowRole, WindowState, ZoomLevel,
    ZoomTransition,
};
use crate::persistence::{merged_except, PersistedOverviewState};
use crate::model::{
    cluster_pos, find_cluster, find_window, has_cluster, has_window, lemma_cluster_pos,
    lemma_has_cluster_pos, lemma_has_window_pos, lemma_reinsert, lemma_reinsert_window, window_pos,
};
use crate::text::{
    chars_eq, contains_chars, decimal, has_substring, lower_ascii, lowercase_chars, push_char, push_decimal, push_str,
};
use crate::seq_util::{
    move_to_front, remove_all, vec_contains, vec_copy, vec_move_to_front, vec_without,
};

verus! {

broadcast use {vstd::seq_lib::group_seq_properties, vstd::std_specs::hash::group_hash_axioms};

/// Focus pinned to one window after the user explicitly zoomed to it.
#[derive(Debug, Clone, PartialEq, Eq)]
pub struct FocusFreezeMetadata {
    pub frozen: bool,
    pub window_id: Option<WindowId>,
    pub reason: Option<String>,
}

/// Mathematical view of the focus freeze.
pub struct FreezeView {
    pub frozen: bool,
    pub window_id: Option<WindowId>,
    pub reason: Option<Seq<char>>,
}

impl View for FocusFreezeMetadata {
    type V = FreezeView;

    open spec fn view(&self) -> FreezeView {
        FreezeView {
            frozen: self.frozen,
            window_id: self.window_id,
            reason: match self.reason {
                Some(s) => Some(s@),
                None => None,
            },
        }
    }
}

/// Not frozen, no window, no reason.
pub open spec fn thawed() -> FreezeView {
    FreezeView { frozen: false, window_id: None, reason: None }
}

/// Frozen on `w` for `reason`.
pub open spec fn frozen_on(w: Option<WindowId>, reason: Seq<char>) -> FreezeView {
    FreezeView { frozen: true, window_id: w, reason: Some(reason) }
}

impl Default for FocusFreezeMetadata {
    fn default() -> (r: Self)
        ensures
            r@ == thawed(),
    {
        FocusFreezeMetadata { frozen: false, window_id: None, reason: None }
    }
}

fn freeze_on(w: WindowId, reason: &str) -> (r: FocusFreezeMetadata)
    ensures
        r@ == frozen_on(Some(w), reason@),
{
    FocusFreezeMetadata { frozen: true, window_id: Some(w), reason: Some(reason.to_owned()) }
}

/// How a mutation resolved a conflict with local interaction state.
#[derive(Debug, Clone, Copy, PartialEq, Eq, Structural)]
pub enum ConflictOutcome {
    /// Nothing conflicted.
    NoConflict,
    PreservedViewport,
    PreservedClusterPosition,
    MissingWindow,
    MissingCluster,
}

/// The kind of request that mutated the state.
#[derive(Debug, Clone, Copy, PartialEq, Eq, Structural)]
pub enum MutationType {
    SwayIngest,
    GetState,
    ActivateCluster,
    SelectCluster,
    SetFocusZoomTarget,
    ZoomInMode,
    ZoomOutMode,
    CycleContextStrip,
    OverviewPan,
    OverviewZoom,
    CreateCluster,
    UpdateClusterDrag,
    CommitClusterDrag,
    CancelClusterDrag,
    EnterKeyboardMoveMode,
    KeyboardMoveBy,
    CommitKeyboardMove,
    CancelKeyboardMove,
    CycleCluster,
}

/// Why a request was refused.
#[derive(Debug, Clone, Copy, PartialEq, Eq, Structural)]
pub enum StateError {
    /// The cluster to activate or select does not exist.
    ClusterNotFound(ClusterId),
    /// The window to zoom to is unknown or has no cluster.
    InvalidFocusTarget(WindowId),
    /// Zooming in from the overview with no cluster to go to.
    NoClustersAvailable,
    /// The zoomed-in cluster no longer exists.
    ActiveClusterMissing,
    /// The zoomed-in cluster has no window to zoom to.
    ClusterHasNoWindows,
    AlreadyInFocusZoom,
    /// No cluster holds the focused window and none is selected.
    FocusedWindowClusterMissing,
    AlreadyInOverviewZoom,
    ContextStripRequiresFocusZoom,
    /// The focused window's cluster has no other window.
    ContextStripEmpty,
    /// Fewer than two known clusters in the history.
    HistoryTooShort,
    /// The cluster to move a window into, or to rename, does not exist.
    TargetClusterNotFound(ClusterId),
    /// The window to move does not exist.
    WindowNotFound(WindowId),
    /// No cluster carries the name whose position was to be set.
    NamedClusterNotFound,
}

/// The hexadecimal digit of `d < 16`, in lower case.
pub open spec fn hex_digit(d: int) -> char {
    if d < 10 {
        (('0' as int) + d) as char
    } else {
        (('a' as int) + d - 10) as char
    }
}

/// How a JSON string spells character `c`: quote, backslash and control
/// characters escaped, the short forms where JSON has one.
pub open spec fn json_char(c: char) -> Seq<char> {
    if c == '"' {
        seq!['\\', '"']
    } else if c == '\\' {
        seq!['\\', '\\']
    } else if c == '\x08' {
        seq!['\\', 'b']
    } else if c == '\x0c' {
        seq!['\\', 'f']
    } else if c == '\n' {
        seq!['\\', 'n']
    } else if c == '\r' {
        seq!['\\', 'r']
    } else if c == '\t' {
        seq!['\\', 't']
    } else if '\x20' > c {
        seq!['\\', 'u', '0', '0', hex_digit((c as int) / 16), hex_digit((c as int) % 16)]
    } else {
        seq![c]
    }
}

/// The body of a JSON string holding `s`.
pub open spec fn json_escaped(s: Seq<char>) -> Seq<char>
    decreases s.len(),
{
    if s.len() == 0 {
        Seq::empty()
    } else {
        json_escaped(s.drop_last()) + json_char(s.last())
    }
}

/// The JSON text the daemon answers a refused request with; `name` is the
/// cluster name a create request asked for, which only
/// `NamedClusterNotFound` quotes. Keys are in sorted order.
pub open spec fn error_message(e: StateError, name: Seq<char>) -> Seq<char> {
    match e {
        StateError::ClusterNotFound(c) => "{\"cluster\":"@ + decimal(c as nat)
            + ",\"error\":\"invalid_state\",\"reason\":\"cluster_not_found\"}"@,
        StateError::InvalidFocusTarget(w) => "{\"error\":\"invalid_focus_target\",\"window\":"@ + decimal(w as nat) + "}"@,
        StateError::NoClustersAvailable => "{\"error\":\"invalid_state\",\"reason\":\"no_clusters_available\"}"@,
        StateError::ActiveClusterMissing => "{\"error\":\"invalid_state\",\"reason\":\"active_cluster_missing\"}"@,
        StateError::ClusterHasNoWindows => "{\"error\":\"unsupported_state_combination\",\"reason\":\"cluster_has_no_windows\"}"@,
        StateError::AlreadyInFocusZoom => "{\"error\":\"unsupported_state_combination\",\"reason\":\"already_in_focus_zoom\"}"@,
        StateError::FocusedWindowClusterMissing => "{\"error\":\"invalid_state\",\"reason\":\"focused_window_cluster_missing\"}"@,
        StateError::AlreadyInOverviewZoom => "{\"error\":\"unsupported_state_combination\",\"reason\":\"already_in_overview_zoom\"}"@,
        StateError::ContextStripRequiresFocusZoom => "{\"error\":\"unsupported_state_combination\",\"reason\":\"context_strip_requires_focus_zoom\"}"@,
        StateError::ContextStripEmpty => "{\"error\":\"unsupported_state_combination\",\"reason\":\"context_strip_empty\"}"@,
        StateError::HistoryTooShort => "{\"error\":\"no_cycle_target\",\"reason\":\"history_too_short\"}"@,
        StateError::TargetClusterNotFound(c) => "{\"cluster\":"@ + decimal(c as nat) + ",\"error\":\"cluster_not_found\"}"@,
        StateError::WindowNotFound(w) => "{\"error\":\"window_not_found\",\"window\":"@ + decimal(w as nat) + "}"@,
        StateError::NamedClusterNotFound => "{\"error\":\"cluster_not_found_after_create\",\"name\":\""@ + json_escaped(name)
            + "\"}"@,
    }
}

fn hex_digit_exec(d: u32) -> (r: char)
    requires
        d < 16,
    ensures
        r == hex_digit(d as int),
{
    if d < 10 {
        let b: u8 = 48u8 + (d as u8);
        assert(b == ('0' as int) + d);
        b as char
    } else {
        let b: u8 = 87u8 + (d as u8);
        assert(b == ('a' as int) + d - 10);
        b as char
    }
}

fn push_json_char(out: &mut String, c: char)
    ensures
        final(out)@ == old(out)@ + json_char(c),
{
    if c == '"' {
        push_str(out, "\\\"");
        proof { reveal_strlit("\\\""); }
    } else if c == '\\' {
        push_str(out, "\\\\");
        proof { reveal_strlit("\\\\"); }
    } else if c == '\x08' {
        push_str(out, "\\b");
        proof { reveal_strlit("\\b"); }
    } else if c == '\x0c' {
        push_str(out, "\\f");
        proof { reveal_strlit("\\f"); }
    } else if c == '\n' {
        push_str(out, "\\n");
        proof { reveal_strlit("\\n"); }
    } else if c == '\r' {
        push_str(out, "\\r");
        proof { reveal_strlit("\\r"); }
    } else if c == '\t' {
        push_str(out, "\\t");
        proof { reveal_strlit("\\t"); }
    } else if '\x20' > c {
        push_str(out, "\\u00");
        proof { reveal_strlit("\\u00"); }
        let v: u32 = c as u32;
        push_char(out, hex_digit_exec(v / 16));
        push_char(out, hex_digit_exec(v % 16));
    } else {
        push_char(out, c);
    }
    assert(out@ =~= old(out)@ + json_char(c));
}

fn push_json_escaped(out: &mut String, s: &str)
    ensures
        final(out)@ == old(out)@ + json_escaped(s@),
{
    let cs = crate::text::chars_of(s);
    let mut i: usize = 0;
    while i < cs.len()
        invariant
            i <= cs@.len(),
            cs@ == s@,
            out@ == old(out)@ + json_escaped(s@.take(i as int)),
        decreases cs.len() - i,
    {
        assert(s@.take(i as int + 1).drop_last() =~= s@.take(i as int));
        push_json_char(out, cs[i]);
        i += 1;
        assert(out@ =~= old(out)@ + json_escaped(s@.take(i as int)));
    }
    assert(s@.take(i as int) =~= s@);
}

impl StateError {
    /// The JSON text the daemon answers with; `name` is the cluster name of
    /// the create request, quoted by `NamedClusterNotFound` only.
    pub fn message(&self, name: &str) -> (r: String)
        ensures
            r@ == error_message(*self, name@),
    {
        let mut out = String::new();
        match *self {
            StateError::ClusterNotFound(c) => {
                push_str(&mut out, "{\"cluster\":");
                push_decimal(&mut out, c);
                push_str(&mut out, ",\"error\":\"invalid_state\",\"reason\":\"cluster_not_found\"}");
            },
            StateError::InvalidFocusTarget(w) => {
                push_str(&mut out, "{\"error\":\"invalid_focus_target\",\"window\":");
                push_decimal(&mut out, w);
                push_str(&mut out, "}");
            },
            StateError::NoClustersAvailable => push_str(&mut out, "{\"error\":\"invalid_state\",\"reason\":\"no_clusters_available\"}"),
            StateError::ActiveClusterMissing => push_str(&mut out, "{\"error\":\"invalid_state\",\"reason\":\"active_cluster_missing\"}"),
            StateError::ClusterHasNoWindows => push_str(&mut out, "{\"error\":\"unsupported_state_combination\",\"reason\":\"cluster_has_no_windows\"}"),
            StateError::AlreadyInFocusZoom => push_str(&mut out, "{\"error\":\"unsupported_state_combination\",\"reason\":\"already_in_focus_zoom\"}"),
            StateError::FocusedWindowClusterMissing => push_str(&mut out, "{\"error\":\"invalid_state\",\"reason\":\"focused_window_cluster_missing\"}"),
            StateError::AlreadyInOverviewZoom => push_str(&mut out, "{\"error\":\"unsupported_state_combination\",\"reason\":\"already_in_overview_zoom\"}"),
            StateError::ContextStripRequiresFocusZoom => push_str(&mut out, "{\"error\":\"unsupported_state_combination\",\"reason\":\"context_strip_requires_focus_zoom\"}"),
            StateError::ContextStripEmpty => push_str(&mut out, "{\"error\":\"unsupported_state_combination\",\"reason\":\"context_strip_empty\"}"),
            StateError::HistoryTooShort => push_str(&mut out, "{\"error\":\"no_cycle_target\",\"reason\":\"history_too_short\"}"),
            StateError::TargetClusterNotFound(c) => {
                push_str(&mut out, "{\"cluster\":");
                push_decimal(&mut out, c);
                push_str(&mut out, ",\"error\":\"cluster_not_found\"}");
            },
            StateError::WindowNotFound(w) => {
                push_str(&mut out, "{\"error\":\"window_not_found\",\"window\":");
                push_decimal(&mut out, w);
                push_str(&mut out, "}");
            },
            StateError::NamedClusterNotFound => {
                push_str(&mut out, "{\"error\":\"cluster_not_found_after_create\",\"name\":\"");
                push_json_escaped(&mut out, name);
                push_str(&mut out, "\"}");
            },
        }
        assert(out@ =~= error_message(*self, name@));
        out
    }
}

/// Mathematical view of the daemon state.
pub struct OwnerView<P> {
    pub canvas: CanvasView<P>,
    pub selected: Option<ClusterId>,
    pub freeze: FreezeView,
    pub history: Seq<ClusterId>,
    pub drag_origin: Option<(ClusterId, P, P)>,
    pub keyboard_move_origin: Option<(ClusterId, P, P)>,
    pub hints: Seq<HintView>,
    pub auto_cluster: bool,
    pub geometry: Map<WindowId, (i32, i32)>,
    pub layout_engine_active: bool,
    pub transition: Option<ZoomTransition>,
}

/// The daemon's state: the canvas, the selected cluster, the focus freeze,
/// the most-recently-used cluster history and the in-flight cluster moves
/// with the position each cluster had when its move began.
#[derive(Debug)]
pub struct StateOwner<P> {
    canvas_state: CanvasState<P>,
    selected_cluster_id: Option<ClusterId>,
    focus_freeze: FocusFreezeMetadata,
    cluster_history: Vec<ClusterId>,
    drag_origin: Option<(ClusterId, P, P)>,
    keyboard_move_origin: Option<(ClusterId, P, P)>,
    assignment_hints: Vec<AssignmentHint>,
    auto_cluster: bool,
    /// Width and height each window was last laid out at (or last seen at).
    last_applied_geometry: HashMap<WindowId, (i32, i32)>,
    layout_engine_active: bool,
    /// The zoom change the overlay is animating, until the compositor
    /// confirms it or it grows stale.
    transition: Option<ZoomTransition>,
}

impl<P> View for StateOwner<P> {
    type V = OwnerView<P>;

    closed spec fn view(&self) -> OwnerView<P> {
        OwnerView {
            canvas: self.canvas_state@,
            selected: self.selected_cluster_id,
            freeze: self.focus_freeze@,
            history: self.cluster_history@,
            drag_origin: self.drag_origin,
            keyboard_move_origin: self.keyboard_move_origin,
            hints: hint_views(self.assignment_hints@),
            auto_cluster: self.auto_cluster,
            geometry: self.last_applied_geometry@,
            layout_engine_active: self.layout_engine_active,
            transition: self.transition,
        }
    }
}

pub open spec fn hint_views(hs: Seq<AssignmentHint>) -> Seq<HintView> {
    hs.map_values(|h: AssignmentHint| h@)
}

/// The revision after one more mutation.
pub open spec fn next_revision(r: u64) -> u64 {
    if r == u64::MAX {
        r
    } else {
        (r + 1) as u64
    }
}

/// `v` with its revision bumped.
pub open spec fn bumped<P>(v: OwnerView<P>) -> OwnerView<P> {
    OwnerView {
        canvas: CanvasView { state_revision: next_revision(v.canvas.state_revision), ..v.canvas },
        ..v
    }
}

pub open spec fn with_zoom<P>(v: OwnerView<P>, z: ZoomLevel) -> OwnerView<P> {
    OwnerView { canvas: CanvasView { zoom: z, ..v.canvas }, ..v }
}

pub open spec fn first_cluster_id<P>(cs: Seq<ClusterView<P>>) -> Option<ClusterId> {
    if cs.len() > 0 {
        Some(cs[0].id)
    } else {
        None
    }
}

/// Cluster `k` is the first to list window `w`.
pub open spec fn first_holder<P>(cs: Seq<ClusterView<P>>, w: WindowId, k: int) -> bool {
    &&& 0 <= k < cs.len()
    &&& cs[k].windows.contains(w)
    &&& forall|j: int| 0 <= j < k ==> !(#[trigger] cs[j]).windows.contains(w)
}

pub open spec fn holds_window<P>(cs: Seq<ClusterView<P>>, w: WindowId) -> bool {
    exists|k: int| 0 <= k < cs.len() && #[trigger] cs[k].windows.contains(w)
}

pub open spec fn holder_pos<P>(cs: Seq<ClusterView<P>>, w: WindowId) -> int {
    choose|k: int| first_holder(cs, w, k)
}

/// The id of the first cluster that lists `w`.
pub open spec fn holder_of<P>(cs: Seq<ClusterView<P>>, w: WindowId) -> Option<ClusterId> {
    if holds_window(cs, w) {
        Some(cs[holder_pos(cs, w)].id)
    } else {
        None
    }
}

pub proof fn lemma_holder_pos<P>(cs: Seq<ClusterView<P>>, w: WindowId)
    requires
        holds_window(cs, w),
    ensures
        first_holder(cs, w, holder_pos(cs, w)),
    decreases cs.len(),
{
    let k = choose|k: int| 0 <= k < cs.len() && #[trigger] cs[k].windows.contains(w);
    if exists|j: int| 0 <= j < k && #[trigger] cs[j].windows.contains(w) {
        let j = choose|j: int| 0 <= j < k && #[trigger] cs[j].windows.contains(w);
        let t = cs.take(k);
        assert(t[j] == cs[j]);
        lemma_holder_pos(t, w);
        let f = holder_pos(t, w);
        assert forall|i: int| 0 <= i < f implies !(#[trigger] cs[i]).windows.contains(w) by {
            assert(t[i] == cs[i]);
        }
        assert(t[f] == cs[f]);
        assert(first_holder(cs, w, f));
    } else {
        assert(first_holder(cs, w, k));
    }
}

pub proof fn lemma_holder_unique<P>(cs: Seq<ClusterView<P>>, w: WindowId, k: int)
    requires
        first_holder(cs, w, k),
    ensures
        holds_window(cs, w),
        holder_pos(cs, w) == k,
{
    lemma_holder_pos(cs, w);
    let f = holder_pos(cs, w);
    if f < k {
        assert(!cs[f].windows.contains(w));
    } else if f > k {
        assert(!cs[k].windows.contains(w));
    }
}

/// The cluster id of the first window with id `w`, if it has one.
pub open spec fn cluster_of_window<P>(v: CanvasView<P>, w: WindowId) -> Option<ClusterId> {
    if has_window(v.windows, w) {
        v.windows[window_pos(v.windows, w)].cluster_id
    } else {
        None
    }
}

/// What activating cluster `id` does.
pub open spec fn activate_outcome<P>(v: OwnerView<P>, id: ClusterId) -> (OwnerView<P>, Result<(), StateError>) {
    if has_cluster(v.canvas.clusters, id) {
        (
            bumped(
                OwnerView {
                    selected: Some(id),
                    freeze: thawed(),
                    history: move_to_front(v.history, id),
                    ..with_zoom(v, ZoomLevel::Cluster(id))
                },
            ),
            Ok(()),
        )
    } else {
        (bumped(v), Err(StateError::ClusterNotFound(id)))
    }
}

/// What zooming straight to window `w` does.
pub open spec fn focus_target_outcome<P>(v: OwnerView<P>, w: WindowId) -> (OwnerView<P>, Result<(), StateError>) {
    match cluster_of_window(v.canvas, w) {
        Some(c) => (
            bumped(
                OwnerView {
                    selected: Some(c),
                    freeze: frozen_on(Some(w), "explicit_focus_zoom_target"@),
                    ..with_zoom(v, ZoomLevel::Focus(w))
                },
            ),
            Ok(()),
        ),
        None => (bumped(v), Err(StateError::InvalidFocusTarget(w))),
    }
}

/// The window zooming into cluster view `c` lands on: its last focus, else
/// its first window.
pub open spec fn zoom_in_window<P>(c: ClusterView<P>) -> Option<WindowId> {
    match c.last_focus {
        Some(w) => Some(w),
        None => if c.windows.len() > 0 {
            Some(c.windows[0])
        } else {
            None
        },
    }
}

/// What one zoom-in step does.
pub open spec fn zoom_in_outcome<P>(v: OwnerView<P>) -> (OwnerView<P>, Result<(), StateError>) {
    match v.canvas.zoom {
        ZoomLevel::Overview => {
            let target = match v.selected {
                Some(c) => Some(c),
                None => first_cluster_id(v.canvas.clusters),
            };
            match target {
                None => (v, Err(StateError::NoClustersAvailable)),
                Some(c) => (
                    bumped(OwnerView { selected: Some(c), ..with_zoom(v, ZoomLevel::Cluster(c)) }),
                    Ok(()),
                ),
            }
        },
        ZoomLevel::Cluster(c) => if !has_cluster(v.canvas.clusters, c) {
            (v, Err(StateError::ActiveClusterMissing))
        } else {
            match zoom_in_window(v.canvas.clusters[cluster_pos(v.canvas.clusters, c)]) {
                None => (v, Err(StateError::ClusterHasNoWindows)),
                Some(w) => (
                    bumped(
                        OwnerView {
                            freeze: frozen_on(Some(w), "zoom_in_mode"@),
                            ..with_zoom(v, ZoomLevel::Focus(w))
                        },
                    ),
                    Ok(()),
                ),
            }
        },
        ZoomLevel::Focus(_) => (bumped(v), Err(StateError::AlreadyInFocusZoom)),
    }
}

/// What one zoom-out step does.
pub open spec fn zoom_out_outcome<P>(v: OwnerView<P>) -> (OwnerView<P>, Result<(), StateError>) {
    match v.canvas.zoom {
        ZoomLevel::Focus(w) => {
            let target = match holder_of(v.canvas.clusters, w) {
                Some(c) => Some(c),
                None => v.selected,
            };
            match target {
                None => (v, Err(StateError::FocusedWindowClusterMissing)),
                Some(c) => (
                    bumped(
                        OwnerView {
                            selected: Some(c),
                            freeze: thawed(),
                            ..with_zoom(v, ZoomLevel::Cluster(c))
                        },
                    ),
                    Ok(()),
                ),
            }
        },
        ZoomLevel::Cluster(_) => (bumped(with_zoom(v, ZoomLevel::Overview)), Ok(())),
        ZoomLevel::Overview => (bumped(v), Err(StateError::AlreadyInOverviewZoom)),
    }
}

/// `base` followed by each window of `ws` it does not hold yet.
pub open spec fn extend_missing(base: Seq<WindowId>, ws: Seq<WindowId>) -> Seq<WindowId>
    decreases ws.len(),
{
    if ws.len() == 0 {
        base
    } else {
        let r = extend_missing(base, ws.drop_last());
        if r.contains(ws.last()) {
            r
        } else {
            r.push(ws.last())
        }
    }
}

/// The context strip of cluster view `c` around `focused`: its recency
/// order (its window order when there is none), completed with the windows
/// missing from it, without the focused window.
pub open spec fn strip_order<P>(c: ClusterView<P>, focused: WindowId) -> Seq<WindowId> {
    let base = if c.recency.len() == 0 {
        c.windows
    } else {
        c.recency
    };
    remove_all(extend_missing(base, c.windows), focused)
}

/// What stepping through the context strip does.
pub open spec fn strip_outcome<P>(v: OwnerView<P>, dir: ContextStripDirection) -> (
    OwnerView<P>,
    Result<WindowId, StateError>,
) {
    match v.canvas.zoom {
        ZoomLevel::Focus(focused) => if !holds_window(v.canvas.clusters, focused) {
            (bumped(v), Err(StateError::FocusedWindowClusterMissing))
        } else {
            let order = strip_order(v.canvas.clusters[holder_pos(v.canvas.clusters, focused)], focused);
            if order.len() == 0 {
                (v, Err(StateError::ContextStripEmpty))
            } else {
                let t = match dir {
                    ContextStripDirection::Next => order[0],
                    ContextStripDirection::Previous => order.last(),
                };
                (
                    bumped(
                        OwnerView {
                            freeze: frozen_on(Some(t), "cycle_context_strip"@),
                            ..with_zoom(v, ZoomLevel::Focus(t))
                        },
                    ),
                    Ok(t),
                )
            }
        },
        _ => (bumped(v), Err(StateError::ContextStripRequiresFocusZoom)),
    }
}

/// What selecting cluster `id` does.
pub open spec fn select_outcome<P>(v: OwnerView<P>, id: ClusterId) -> (OwnerView<P>, Result<(), StateError>) {
    if has_cluster(v.canvas.clusters, id) {
        (bumped(OwnerView { selected: Some(id), ..v }), Ok(()))
    } else {
        (bumped(v), Err(StateError::ClusterNotFound(id)))
    }
}

/// The ids of `h` that name an existing cluster, in order.
pub open spec fn known_history<P>(h: Seq<ClusterId>, cs: Seq<ClusterView<P>>) -> Seq<ClusterId>
    decreases h.len(),
{
    if h.len() == 0 {
        h
    } else if has_cluster(cs, h.last()) {
        known_history(h.drop_last(), cs).push(h.last())
    } else {
        known_history(h.drop_last(), cs)
    }
}

/// Index of the first occurrence of `x` in `s`, or 0.
pub open spec fn index_or_zero(s: Seq<ClusterId>, x: ClusterId) -> int {
    if s.contains(x) {
        choose|i: int| 0 <= i < s.len() && s[i] == x && forall|j: int| 0 <= j < i ==> s[j] != x
    } else {
        0
    }
}

/// The history slot one step from `pos` in direction `dir`, wrapping.
pub open spec fn cycle_step(pos: int, len: int, dir: CycleDirection) -> int {
    match dir {
        CycleDirection::Forward => (pos + 1) % len,
        CycleDirection::Backward => (pos + len - 1) % len,
    }
}

/// What cycling through the recently used clusters does: the history
/// forgets clusters that no longer exist, then the cluster one step from
/// the selected one (from the front when the selection is not in it) is
/// activated.
pub open spec fn cycle_outcome<P>(v: OwnerView<P>, dir: CycleDirection) -> (
    OwnerView<P>,
    Result<ClusterId, StateError>,
) {
    let h = known_history(v.history, v.canvas.clusters);
    let v1 = OwnerView { history: h, ..v };
    if h.len() <= 1 {
        (bumped(v1), Err(StateError::HistoryTooShort))
    } else {
        let current = match v.selected {
            Some(c) => c,
            None => 0,
        };
        let t = h[cycle_step(index_or_zero(h, current), h.len() as int, dir)];
        (
            bumped(OwnerView { selected: Some(t), freeze: thawed(), ..with_zoom(v1, ZoomLevel::Cluster(t)) }),
            Ok(t),
        )
    }
}

/// What moving window `w` into cluster `c` does: the window records the
/// cluster and the manual override; cluster window lists are left as they
/// are.
pub open spec fn move_window_outcome<P>(v: OwnerView<P>, w: WindowId, c: ClusterId) -> (
    OwnerView<P>,
    Result<(), StateError>,
) {
    if !has_cluster(v.canvas.clusters, c) {
        (v, Err(StateError::TargetClusterNotFound(c)))
    } else if !has_window(v.canvas.windows, w) {
        (v, Err(StateError::WindowNotFound(w)))
    } else {
        let i = window_pos(v.canvas.windows, w);
        let win = v.canvas.windows[i];
        (
            bumped(
                OwnerView {
                    canvas: CanvasView {
                        windows: v.canvas.windows.update(
                            i,
                            Window { cluster_id: Some(c), manual_cluster_override: true, ..win },
                        ),
                        ..v.canvas
                    },
                    ..v
                },
            ),
            Ok(()),
        )
    }
}

/// `v` with cluster `k` replaced.
pub open spec fn with_cluster_at<P>(v: OwnerView<P>, k: int, c: ClusterView<P>) -> OwnerView<P> {
    OwnerView { canvas: CanvasView { clusters: v.canvas.clusters.update(k, c), ..v.canvas }, ..v }
}

/// What renaming cluster `c` does.
pub open spec fn rename_outcome<P>(v: OwnerView<P>, c: ClusterId, name: Seq<char>) -> (
    OwnerView<P>,
    Result<(), StateError>,
) {
    if !has_cluster(v.canvas.clusters, c) {
        (v, Err(StateError::TargetClusterNotFound(c)))
    } else {
        let k = cluster_pos(v.canvas.clusters, c);
        (bumped(with_cluster_at(v, k, ClusterView { name: name, ..v.canvas.clusters[k] })), Ok(()))
    }
}

/// The origin of a move of cluster `id`: its position now, if it exists.
pub open spec fn move_origin<P>(v: OwnerView<P>, id: ClusterId) -> Option<(ClusterId, P, P)> {
    if has_cluster(v.canvas.clusters, id) {
        let c = v.canvas.clusters[cluster_pos(v.canvas.clusters, id)];
        Some((id, c.x, c.y))
    } else {
        None
    }
}

/// `v` with cluster `id`, if it exists, placed at `(x, y)`.
pub open spec fn placed<P>(v: OwnerView<P>, id: ClusterId, x: P, y: P) -> OwnerView<P> {
    if has_cluster(v.canvas.clusters, id) {
        let k = cluster_pos(v.canvas.clusters, id);
        with_cluster_at(v, k, ClusterView { x: x, y: y, ..v.canvas.clusters[k] })
    } else {
        v
    }
}

/// `v` with the cluster of a recorded move put back at its origin.
pub open spec fn restored<P>(v: OwnerView<P>, origin: Option<(ClusterId, P, P)>) -> OwnerView<P> {
    match origin {
        Some((id, x, y)) => placed(v, id, x, y),
        None => v,
    }
}

fn find_holder<P>(clusters: &Vec<Cluster<P>>, w: WindowId) -> (r: Option<usize>)
    ensures
        match r {
            Some(k) => first_holder(clusters@.map_values(|c: Cluster<P>| c@), w, k as int),
            None => !holds_window(clusters@.map_values(|c: Cluster<P>| c@), w),
        },
{
    let ghost cs = clusters@.map_values(|c: Cluster<P>| c@);
    let mut k: usize = 0;
    while k < clusters.len()
        invariant
            k <= clusters@.len(),
            cs == clusters@.map_values(|c: Cluster<P>| c@),
            forall|j: int| 0 <= j < k ==> !(#[trigger] cs[j]).windows.contains(w),
        decreases clusters.len() - k,
    {
        assert(cs[k as int] == clusters@[k as int]@);
        if vec_contains(&clusters[k].windows, w) {
            return Some(k);
        }
        k += 1;
    }
    None
}

impl<P: Copy> StateOwner<P> {
    /// A daemon state seeded with `canvas_state`, the cluster history
    /// remembered from the last session and the configured assignment
    /// rules; nothing selected, nothing frozen, no move in flight, no
    /// geometry recorded.
    pub fn new(
        canvas_state: CanvasState<P>,
        cluster_history: Vec<ClusterId>,
        assignment_hints: Vec<AssignmentHint>,
        auto_cluster: bool,
    ) -> (r: Self)
        ensures
            r@.canvas == canvas_state@,
            r@.selected == None::<ClusterId>,
            r@.freeze == thawed(),
            r@.history == cluster_history@,
            r@.drag_origin == None::<(ClusterId, P, P)>,
            r@.keyboard_move_origin == None::<(ClusterId, P, P)>,
            r@.hints == hint_views(assignment_hints@),
            r@.auto_cluster == auto_cluster,
            r@.geometry == Map::<WindowId, (i32, i32)>::empty(),
            !r@.layout_engine_active,
            r@.transition is None,
    {
        StateOwner {
            canvas_state,
            selected_cluster_id: None,
            focus_freeze: FocusFreezeMetadata::default(),
            cluster_history,
            drag_origin: None,
            keyboard_move_origin: None,
            assignment_hints,
            auto_cluster,
            last_applied_geometry: HashMap::new(),
            layout_engine_active: false,
            transition: None,
        }
    }

    /// Takes up a reloaded configuration's assignment rules.
    pub fn reload_config(&mut self, assignment_hints: Vec<AssignmentHint>, auto_cluster: bool)
        ensures
            final(self)@ == (OwnerView {
                hints: hint_views(assignment_hints@),
                auto_cluster: auto_cluster,
                ..old(self)@
            }),
    {
        self.assignment_hints = assignment_hints;
        self.auto_cluster = auto_cluster;
    }

    pub fn state(&self) -> (r: &CanvasState<P>)
        ensures
            r@ == self@.canvas,
    {
        &self.canvas_state
    }

    pub fn selected_cluster_id(&self) -> (r: Option<ClusterId>)
        ensures
            r == self@.selected,
    {
        self.selected_cluster_id
    }

    pub fn focus_freeze(&self) -> (r: &FocusFreezeMetadata)
        ensures
            r@ == self@.freeze,
    {
        &self.focus_freeze
    }

    pub fn cluster_history(&self) -> (r: &Vec<ClusterId>)
        ensures
            r@ == self@.history,
    {
        &self.cluster_history
    }

    fn bump_revision(&mut self)
        ensures
            final(self)@ == bumped(old(self)@),
    {
        self.canvas_state.state_revision = self.canvas_state.state_revision.saturating_add(1);
    }

    /// A state read; it counts as a mutation for the revision.
    pub fn mutate_get_state(&mut self)
        ensures
            final(self)@ == bumped(old(self)@),
    {
        self.bump_revision();
    }

    /// Activates cluster `cluster_id`: it becomes selected, zoomed into and
    /// most recently used, and any focus freeze is lifted.
    pub fn activate_cluster(&mut self, cluster_id: ClusterId) -> (r: Result<(), StateError>)
        ensures
            (final(self)@, r) == activate_outcome(old(self)@, cluster_id),
    {
        if find_cluster(&self.canvas_state.clusters, cluster_id).is_some() {
            self.selected_cluster_id = Some(cluster_id);
            self.canvas_state.zoom = ZoomLevel::Cluster(cluster_id);
            self.focus_freeze = FocusFreezeMetadata::default();
            self.cluster_history = vec_move_to_front(&self.cluster_history, cluster_id);
            self.bump_revision();
            Ok(())
        } else {
            self.bump_revision();
            Err(StateError::ClusterNotFound(cluster_id))
        }
    }

    /// Zooms straight to window `window_id`, selecting its cluster and
    /// freezing focus on it.
    pub fn set_focus_zoom_target(&mut self, window_id: WindowId) -> (r: Result<(), StateError>)
        ensures
            (final(self)@, r) == focus_target_outcome(old(self)@, window_id),
    {
        let cluster_id = match find_window(&self.canvas_state.windows, window_id) {
            Some(i) => self.canvas_state.windows[i].cluster_id,
            None => None,
        };
        match cluster_id {
            None => {
                self.bump_revision();
                Err(StateError::InvalidFocusTarget(window_id))
            },
            Some(c) => {
                self.selected_cluster_id = Some(c);
                self.canvas_state.zoom = ZoomLevel::Focus(window_id);
                self.focus_freeze = freeze_on(window_id, "explicit_focus_zoom_target");
                self.bump_revision();
                Ok(())
            },
        }
    }

    /// One step down the zoom hierarchy: overview to the selected (or
    /// first) cluster, cluster to its last focused (or first) window.
    pub fn zoom_in_mode(&mut self) -> (r: Result<(), StateError>)
        ensures
            (final(self)@, r) == zoom_in_outcome(old(self)@),
    {
        match self.canvas_state.zoom {
            ZoomLevel::Overview => {
                let target = match self.selected_cluster_id {
                    Some(c) => Some(c),
                    None => if self.canvas_state.clusters.len() > 0 {
                        Some(self.canvas_state.clusters[0].id)
                    } else {
                        None
                    },
                };
                match target {
                    None => Err(StateError::NoClustersAvailable),
                    Some(c) => {
                        self.canvas_state.zoom = ZoomLevel::Cluster(c);
                        self.selected_cluster_id = Some(c);
                        self.bump_revision();
                        Ok(())
                    },
                }
            },
            ZoomLevel::Cluster(c) => {
                let k = match find_cluster(&self.canvas_state.clusters, c) {
                    Some(k) => k,
                    None => {
                        return Err(StateError::ActiveClusterMissing);
                    },
                };
                let cluster = &self.canvas_state.clusters[k];
                assert(self@.canvas.clusters[k as int] == cluster@);
                let target = match cluster.last_focus {
                    Some(w) => Some(w),
                    None => if cluster.windows.len() > 0 {
                        Some(cluster.windows[0])
                    } else {
                        None
                    },
                };
                match target {
                    None => Err(StateError::ClusterHasNoWindows),
                    Some(w) => {
                        self.canvas_state.zoom = ZoomLevel::Focus(w);
                        self.focus_freeze = freeze_on(w, "zoom_in_mode");
                        self.bump_revision();
                        Ok(())
                    },
                }
            },
            ZoomLevel::Focus(_) => {
                self.bump_revision();
                Err(StateError::AlreadyInFocusZoom)
            },
        }
    }

    /// One step up the zoom hierarchy: window to the cluster holding it
    /// (else the selected one), cluster to the overview.
    pub fn zoom_out_mode(&mut self) -> (r: Result<(), StateError>)
        ensures
            (final(self)@, r) == zoom_out_outcome(old(self)@),
    {
        match self.canvas_state.zoom {
            ZoomLevel::Focus(w) => {
                let target = match find_holder(&self.canvas_state.clusters, w) {
                    Some(k) => {
                        proof {
                            lemma_holder_unique(self@.canvas.clusters, w, k as int);
                        }
                        assert(self@.canvas.clusters[k as int] == self.canvas_state.clusters@[k as int]@);
                        Some(self.canvas_state.clusters[k].id)
                    },
                    None => self.selected_cluster_id,
                };
                match target {
                    None => Err(StateError::FocusedWindowClusterMissing),
                    Some(c) => {
                        self.canvas_state.zoom = ZoomLevel::Cluster(c);
                        self.selected_cluster_id = Some(c);
                        self.focus_freeze = FocusFreezeMetadata::default();
                        self.bump_revision();
                        Ok(())
                    },
                }
            },
            ZoomLevel::Cluster(_) => {
                self.canvas_state.zoom = ZoomLevel::Overview;
                self.bump_revision();
                Ok(())
            },
            ZoomLevel::Overview => {
                self.bump_revision();
                Err(StateError::AlreadyInOverviewZoom)
            },
        }
    }

    /// Selects cluster `cluster_id` without zooming.
    pub fn select_cluster(&mut self, cluster_id: ClusterId) -> (r: Result<(), StateError>)
        ensures
            (final(self)@, r) == select_outcome(old(self)@, cluster_id),
    {
        if find_cluster(&self.canvas_state.clusters, cluster_id).is_some() {
            self.selected_cluster_id = Some(cluster_id);
            self.bump_revision();
            Ok(())
        } else {
            self.bump_revision();
            Err(StateError::ClusterNotFound(cluster_id))
        }
    }
}

impl<P: Copy> StateOwner<P> {
    /// Steps to the next or previous window of the focused window's
    /// context strip, freezing focus on it.
    pub fn cycle_context_strip(&mut self, direction: ContextStripDirection) -> (r: Result<
        WindowId,
        StateError,
    >)
        ensures
            (final(self)@, r) == strip_outcome(old(self)@, direction),
    {
        let focused = match self.canvas_state.zoom {
            ZoomLevel::Focus(id) => id,
            _ => {
                self.bump_revision();
                return Err(StateError::ContextStripRequiresFocusZoom);
            },
        };
        let k = match find_holder(&self.canvas_state.clusters, focused) {
            Some(k) => k,
            None => {
                self.bump_revision();
                return Err(StateError::FocusedWindowClusterMissing);
            },
        };
        proof {
            lemma_holder_unique(self@.canvas.clusters, focused, k as int);
        }
        let cluster = &self.canvas_state.clusters[k];
        assert(self@.canvas.clusters[k as int] == cluster@);
        let mut order = if cluster.recency.len() == 0 {
            vec_copy(&cluster.windows)
        } else {
            vec_copy(&cluster.recency)
        };
        let ghost base = order@;
        let mut i: usize = 0;
        while i < cluster.windows.len()
            invariant
                i <= cluster.windows@.len(),
                order@ == extend_missing(base, cluster.windows@.take(i as int)),
            decreases cluster.windows.len() - i,
        {
            assert(cluster.windows@.take(i as int + 1).drop_last() =~= cluster.windows@.take(i as int));
            let w = cluster.windows[i];
            if !vec_contains(&order, w) {
                order.push(w);
            }
            i += 1;
        }
        assert(cluster.windows@.take(i as int) =~= cluster.windows@);
        let order = vec_without(&order, focused);
        if order.len() == 0 {
            return Err(StateError::ContextStripEmpty);
        }
        let target = match direction {
            ContextStripDirection::Next => order[0],
            ContextStripDirection::Previous => order[order.len() - 1],
        };
        self.canvas_state.zoom = ZoomLevel::Focus(target);
        self.focus_freeze = freeze_on(target, "cycle_context_strip");
        self.bump_revision();
        Ok(target)
    }

    /// Activates the cluster one step away from the selected one in the
    /// most-recently-used history, after dropping clusters that no longer
    /// exist from the history.
    pub fn cycle_cluster(&mut self, direction: CycleDirection) -> (r: Result<ClusterId, StateError>)
        ensures
            (final(self)@, r) == cycle_outcome(old(self)@, direction),
    {
        let ghost cs = self@.canvas.clusters;
        let mut h: Vec<ClusterId> = Vec::new();
        let mut i: usize = 0;
        while i < self.cluster_history.len()
            invariant
                i <= self.cluster_history@.len(),
                cs == self@.canvas.clusters,
                h@ == known_history(self.cluster_history@.take(i as int), cs),
            decreases self.cluster_history.len() - i,
        {
            assert(self.cluster_history@.take(i as int + 1).drop_last() =~= self.cluster_history@.take(i as int));
            let id = self.cluster_history[i];
            if find_cluster(&self.canvas_state.clusters, id).is_some() {
                h.push(id);
            }
            i += 1;
        }
        assert(self.cluster_history@.take(i as int) =~= self.cluster_history@);
        self.cluster_history = h;
        let len = self.cluster_history.len();
        if len <= 1 {
            self.bump_revision();
            return Err(StateError::HistoryTooShort);
        }
        let current = match self.selected_cluster_id {
            Some(c) => c,
            None => 0,
        };
        let ghost hs = self.cluster_history@;
        let mut pos: usize = 0;
        let mut found = false;
        let mut j: usize = 0;
        while j < len
            invariant
                len == hs.len(),
                hs == self.cluster_history@,
                j <= len,
                !found ==> pos == 0 && forall|q: int| 0 <= q < j ==> hs[q] != current,
                found ==> pos < len && hs[pos as int] == current && forall|q: int| 0 <= q < pos ==> hs[q] != current,
            decreases len - j,
        {
            if !found && self.cluster_history[j] == current {
                pos = j;
                found = true;
            }
            j += 1;
        }
        proof {
            if found {
                assert(hs.contains(current));
                let c = choose|c: int| 0 <= c < hs.len() && hs[c] == current && forall|q: int| 0 <= q < c ==> hs[q] != current;
                if c < pos {
                    assert(hs[c] != current);
                } else if c > pos {
                    assert(hs[pos as int] != current);
                }
                assert(index_or_zero(hs, current) == pos);
            } else {
                assert(!hs.contains(current));
            }
        }
        let next_pos = match direction {
            CycleDirection::Forward => if pos + 1 == len { 0 } else { pos + 1 },
            CycleDirection::Backward => if pos == 0 { len - 1 } else { pos - 1 },
        };
        proof {
            let p = pos as int;
            let l = len as int;
            assert(0 <= p < l);
            match direction {
                CycleDirection::Forward => {
                    if p + 1 == l {
                        assert((p + 1) % l == 0) by (nonlinear_arith) requires p + 1 == l, l > 0;
                    } else {
                        assert((p + 1) % l == p + 1) by (nonlinear_arith) requires 0 <= p + 1 < l;
                    }
                },
                CycleDirection::Backward => {
                    if p == 0 {
                        assert((p + l - 1) % l == l - 1) by (nonlinear_arith) requires p == 0, l > 1;
                    } else {
                        assert((p + l - 1) % l == p - 1) by (nonlinear_arith) requires 0 < p < l;
                    }
                },
            }
            assert(next_pos as int == cycle_step(index_or_zero(hs, current), l, direction));
        }
        let target = self.cluster_history[next_pos];
        self.selected_cluster_id = Some(target);
        self.canvas_state.zoom = ZoomLevel::Cluster(target);
        self.focus_freeze = FocusFreezeMetadata::default();
        self.bump_revision();
        Ok(target)
    }

    /// Records that window `window_id` belongs to cluster `cluster_id` by
    /// the user's choice.
    pub fn move_window_to_cluster(&mut self, window_id: WindowId, cluster_id: ClusterId) -> (r: Result<
        (),
        StateError,
    >)
        ensures
            (final(self)@, r) == move_window_outcome(old(self)@, window_id, cluster_id),
    {
        if find_cluster(&self.canvas_state.clusters, cluster_id).is_none() {
            return Err(StateError::TargetClusterNotFound(cluster_id));
        }
        let i = match find_window(&self.canvas_state.windows, window_id) {
            Some(i) => i,
            None => {
                return Err(StateError::WindowNotFound(window_id));
            },
        };
        let ghost before = self.canvas_state.windows@;
        let mut window = self.canvas_state.windows.remove(i);
        window.cluster_id = Some(cluster_id);
        window.manual_cluster_override = true;
        self.canvas_state.windows.insert(i, window);
        proof {
            lemma_reinsert_window(before, i as int, window);
        }
        self.bump_revision();
        Ok(())
    }

    /// Gives cluster `cluster_id` the name `name`.
    pub fn rename_cluster(&mut self, cluster_id: ClusterId, name: &str) -> (r: Result<(), StateError>)
        ensures
            (final(self)@, r) == rename_outcome(old(self)@, cluster_id, name@),
    {
        let k = match find_cluster(&self.canvas_state.clusters, cluster_id) {
            Some(k) => k,
            None => {
                return Err(StateError::TargetClusterNotFound(cluster_id));
            },
        };
        let ghost before = self.canvas_state.clusters@;
        let mut cluster = self.canvas_state.clusters.remove(k);
        cluster.name = name.to_owned();
        self.canvas_state.clusters.insert(k, cluster);
        proof {
            lemma_reinsert(before, k as int, cluster);
        }
        self.bump_revision();
        Ok(())
    }

    fn place_cluster(&mut self, id: ClusterId, x: P, y: P)
        ensures
            final(self)@ == placed(old(self)@, id, x, y),
    {
        match find_cluster(&self.canvas_state.clusters, id) {
            Some(k) => {
                let ghost before = self.canvas_state.clusters@;
                let mut cluster = self.canvas_state.clusters.remove(k);
                cluster.x = x;
                cluster.y = y;
                self.canvas_state.clusters.insert(k, cluster);
                proof {
                    lemma_reinsert(before, k as int, cluster);
                }
            },
            None => {},
        }
    }

    fn origin_of(&self, id: ClusterId) -> (r: Option<(ClusterId, P, P)>)
        ensures
            r == move_origin(self@, id),
    {
        match find_cluster(&self.canvas_state.clusters, id) {
            Some(k) => {
                assert(self@.canvas.clusters[k as int] == self.canvas_state.clusters@[k as int]@);
                Some((id, self.canvas_state.clusters[k].x, self.canvas_state.clusters[k].y))
            },
            None => None,
        }
    }

    /// Starts a pointer drag of cluster `cluster_id`, remembering where it
    /// is; nothing is recorded when the cluster does not exist.
    pub fn begin_cluster_drag(&mut self, cluster_id: ClusterId)
        ensures
            final(self)@ == (OwnerView { drag_origin: move_origin(old(self)@, cluster_id), ..old(self)@ }),
    {
        self.drag_origin = self.origin_of(cluster_id);
    }

    /// Places the dragged cluster at `(cluster_x, cluster_y)`; without a
    /// drag in flight nothing happens.
    pub fn update_cluster_drag(&mut self, cluster_x: P, cluster_y: P)
        ensures
            match old(self)@.drag_origin {
                None => final(self)@ == old(self)@,
                Some((id, _, _)) => final(self)@ == bumped(placed(old(self)@, id, cluster_x, cluster_y)),
            },
    {
        let id = match self.drag_origin {
            Some((id, _, _)) => id,
            None => {
                return;
            },
        };
        self.place_cluster(id, cluster_x, cluster_y);
        self.bump_revision();
    }

    /// Ends the drag where the cluster now is.
    pub fn commit_cluster_drag(&mut self)
        ensures
            final(self)@ == bumped(OwnerView { drag_origin: None, ..old(self)@ }),
    {
        self.drag_origin = None;
        self.bump_revision();
    }

    /// Ends the drag by putting the cluster back where the drag began.
    pub fn cancel_cluster_drag(&mut self)
        ensures
            final(self)@ == bumped(
                OwnerView { drag_origin: None, ..restored(old(self)@, old(self)@.drag_origin) },
            ),
    {
        let origin = self.drag_origin;
        self.drag_origin = None;
        match origin {
            Some((id, x, y)) => {
                self.place_cluster(id, x, y);
            },
            None => {},
        }
        self.bump_revision();
    }

    /// Starts a keyboard move of cluster `cluster_id`, remembering where it
    /// is.
    pub fn enter_keyboard_move_mode(&mut self, cluster_id: ClusterId)
        ensures
            final(self)@ == bumped(
                OwnerView { keyboard_move_origin: move_origin(old(self)@, cluster_id), ..old(self)@ },
            ),
    {
        self.keyboard_move_origin = self.origin_of(cluster_id);
        self.bump_revision();
    }

    /// Places the cluster being moved by keyboard at `(x, y)`; without a
    /// keyboard move in flight nothing happens.
    pub fn keyboard_move_to(&mut self, x: P, y: P)
        ensures
            match old(self)@.keyboard_move_origin {
                None => final(self)@ == old(self)@,
                Some((id, _, _)) => final(self)@ == bumped(placed(old(self)@, id, x, y)),
            },
    {
        let id = match self.keyboard_move_origin {
            Some((id, _, _)) => id,
            None => {
                return;
            },
        };
        self.place_cluster(id, x, y);
        self.bump_revision();
    }

    /// Ends the keyboard move where the cluster now is.
    pub fn commit_keyboard_move(&mut self)
        ensures
            final(self)@ == bumped(OwnerView { keyboard_move_origin: None, ..old(self)@ }),
    {
        self.keyboard_move_origin = None;
        self.bump_revision();
    }

    /// Ends the keyboard move by putting the cluster back where it began.
    pub fn cancel_keyboard_move(&mut self)
        ensures
            final(self)@ == bumped(
                OwnerView {
                    keyboard_move_origin: None,
                    ..restored(old(self)@, old(self)@.keyboard_move_origin)
                },
            ),
    {
        let origin = self.keyboard_move_origin;
        self.keyboard_move_origin = None;
        match origin {
            Some((id, x, y)) => {
                self.place_cluster(id, x, y);
            },
            None => {},
        }
        self.bump_revision();
    }
}

// ---------------------------------------------------------------------------
// Cluster assignment rules applied after each ingest.
// ---------------------------------------------------------------------------

/// A hint field matches a window field: no criterion, or equal up to ASCII
/// case.
pub open spec fn field_matches(h: Option<Seq<char>>, v: Option<Seq<char>>) -> bool {
    match h {
        None => true,
        Some(hs) => match v {
            Some(vs) => lower_ascii(vs) == lower_ascii(hs),
            None => false,
        },
    }
}

/// Hint `h` has a criterion and all its criteria match window `w`.
pub open spec fn hint_matches(h: HintView, w: Window) -> bool {
    &&& (h.app_id is Some || h.class is Some || h.title_contains is Some)
    &&& field_matches(h.app_id, opt_chars(w.app_id))
    &&& field_matches(h.class, opt_chars(w.class))
    &&& match h.title_contains {
        None => true,
        Some(t) => has_substring(lower_ascii(w.title@), lower_ascii(t)),
    }
}

/// Index of the first hint of `hs` that matches `w`.
pub open spec fn first_match(hs: Seq<HintView>, w: Window) -> Option<int>
    decreases hs.len(),
{
    if hs.len() == 0 {
        None
    } else {
        match first_match(hs.drop_last(), w) {
            Some(i) => Some(i),
            None => if hint_matches(hs.last(), w) {
                Some(hs.len() - 1)
            } else {
                None
            },
        }
    }
}

/// The last cluster of `cs` whose name is `lname` up to ASCII case.
pub open spec fn named_cluster<P>(cs: Seq<ClusterView<P>>, lname: Seq<char>) -> Option<ClusterId>
    decreases cs.len(),
{
    if cs.len() == 0 {
        None
    } else if lower_ascii(cs.last().name) == lname {
        Some(cs.last().id)
    } else {
        named_cluster(cs.drop_last(), lname)
    }
}

/// Window `w` after the assignment hints: unless the user placed it or it
/// is a transient dialog, the first matching hint sends it to its cluster,
/// when that cluster exists.
pub open spec fn hinted<P>(w: Window, hs: Seq<HintView>, cs: Seq<ClusterView<P>>) -> Window {
    if w.manual_cluster_override || w.transient_for is Some {
        w
    } else {
        match first_match(hs, w) {
            None => w,
            Some(i) => match named_cluster(cs, lower_ascii(hs[i].cluster)) {
                Some(c) => Window { cluster_id: Some(c), ..w },
                None => w,
            },
        }
    }
}

pub open spec fn apply_hints<P>(ws: Seq<Window>, hs: Seq<HintView>, cs: Seq<ClusterView<P>>) -> Seq<Window> {
    ws.map_values(|w: Window| hinted(w, hs, cs))
}

/// The cluster of the first window of `ws` with a cluster whose app id is
/// `lapp` up to ASCII case.
pub open spec fn app_cluster(ws: Seq<Window>, lapp: Seq<char>) -> Option<ClusterId>
    decreases ws.len(),
{
    if ws.len() == 0 {
        None
    } else {
        match app_cluster(ws.drop_last(), lapp) {
            Some(c) => Some(c),
            None => {
                let w = ws.last();
                match (w.app_id, w.cluster_id) {
                    (Some(a), Some(c)) => if lower_ascii(a@) == lapp {
                        Some(c)
                    } else {
                        None
                    },
                    _ => None,
                }
            },
        }
    }
}

/// Window `w` after clustering by app id among `ws`: an unassigned,
/// non-manual, non-transient, non-scratchpad window joins the cluster of
/// the first window sharing its app id.
pub open spec fn auto_clustered(w: Window, ws: Seq<Window>) -> Window {
    if w.cluster_id is Some || w.manual_cluster_override || w.transient_for is Some || w.role
        == WindowRole::Scratchpad {
        w
    } else {
        match w.app_id {
            None => w,
            Some(a) => match app_cluster(ws, lower_ascii(a@)) {
                Some(c) => Window { cluster_id: Some(c), ..w },
                None => w,
            },
        }
    }
}

pub open spec fn apply_auto_cluster(ws: Seq<Window>) -> Seq<Window> {
    ws.map_values(|w: Window| auto_clustered(w, ws))
}

/// The cluster of the last window of `ws` with id `p` that has one.
pub open spec fn parent_cluster(ws: Seq<Window>, p: WindowId) -> Option<ClusterId>
    decreases ws.len(),
{
    if ws.len() == 0 {
        None
    } else if ws.last().id == p && ws.last().cluster_id is Some {
        ws.last().cluster_id
    } else {
        parent_cluster(ws.drop_last(), p)
    }
}

/// Window `w` after anchoring among `ws`: a transient dialog that the user
/// did not place and that is not a scratchpad joins its parent's cluster.
pub open spec fn anchored(w: Window, ws: Seq<Window>) -> Window {
    if w.manual_cluster_override || w.role == WindowRole::Scratchpad {
        w
    } else {
        match w.transient_for {
            None => w,
            Some(p) => match parent_cluster(ws, p) {
                Some(c) => Window { cluster_id: Some(c), ..w },
                None => w,
            },
        }
    }
}

pub open spec fn apply_anchors(ws: Seq<Window>) -> Seq<Window> {
    ws.map_values(|w: Window| anchored(w, ws))
}

/// `v` with its windows replaced.
pub open spec fn with_windows_of<P>(v: OwnerView<P>, ws: Seq<Window>) -> OwnerView<P> {
    OwnerView { canvas: CanvasView { windows: ws, ..v.canvas }, ..v }
}

fn opt_lower(o: &Option<String>) -> (r: Option<Vec<char>>)
    ensures
        match opt_chars(*o) {
            Some(s) => r matches Some(v) && v@ == lower_ascii(s),
            None => r is None,
        },
{
    match o {
        Some(s) => Some(lowercase_chars(s.as_str())),
        None => None,
    }
}

fn field_matches_exec(h: &Option<String>, v: &Option<Vec<char>>, Ghost(vs): Ghost<Option<Seq<char>>>) -> (r: bool)
    requires
        match vs {
            Some(x) => v matches Some(lv) && lv@ == lower_ascii(x),
            None => v is None,
        },
    ensures
        r == field_matches(opt_chars(*h), vs),
{
    match h {
        None => true,
        Some(hs) => match v {
            Some(lv) => {
                let lh = lowercase_chars(hs.as_str());
                chars_eq(lv, &lh)
            },
            None => false,
        },
    }
}

fn named_cluster_exec<P>(clusters: &Vec<Cluster<P>>, lname: &Vec<char>) -> (r: Option<ClusterId>)
    ensures
        r == named_cluster(clusters@.map_values(|c: Cluster<P>| c@), lname@),
{
    let ghost cs = clusters@.map_values(|c: Cluster<P>| c@);
    let mut k: usize = clusters.len();
    while k > 0
        invariant
            k <= clusters@.len(),
            cs == clusters@.map_values(|c: Cluster<P>| c@),
            named_cluster(cs, lname@) == named_cluster(cs.take(k as int), lname@),
        decreases k,
    {
        let ghost t = cs.take(k as int);
        assert(t.drop_last() =~= cs.take(k as int - 1));
        assert(t.last() == clusters@[k as int - 1]@);
        let name = lowercase_chars(clusters[k - 1].name.as_str());
        if chars_eq(&name, lname) {
            return Some(clusters[k - 1].id);
        }
        k -= 1;
    }
    None
}

impl<P: Copy> StateOwner<P> {
    /// The window that the first matching hint assigns, computed for the
    /// window at `i`.
    fn hinted_cluster(&self, w: &Window) -> (r: Option<ClusterId>)
        ensures
            match first_match(self@.hints, *w) {
                None => r is None,
                Some(i) => r == named_cluster(self@.canvas.clusters, lower_ascii(self@.hints[i].cluster)),
            },
    {
        let app = opt_lower(&w.app_id);
        let class = opt_lower(&w.class);
        let title = lowercase_chars(w.title.as_str());
        let ghost hs = self@.hints;
        let mut k: usize = 0;
        while k < self.assignment_hints.len()
            invariant
                k <= self.assignment_hints@.len(),
                hs == self@.hints,
                hs.len() == self.assignment_hints@.len(),
                first_match(hs.take(k as int), *w) is None,
                match opt_chars(w.app_id) { Some(x) => app matches Some(lv) && lv@ == lower_ascii(x), None => app is None },
                match opt_chars(w.class) { Some(x) => class matches Some(lv) && lv@ == lower_ascii(x), None => class is None },
                title@ == lower_ascii(w.title@),
            decreases self.assignment_hints.len() - k,
        {
            let hint = &self.assignment_hints[k];
            assert(hs[k as int] == hint@);
            assert(hs.take(k as int + 1).drop_last() =~= hs.take(k as int));
            let has_criterion = hint.app_id.is_some() || hint.class.is_some() || hint.title_contains.is_some();
            let app_match = field_matches_exec(&hint.app_id, &app, Ghost(opt_chars(w.app_id)));
            let class_match = field_matches_exec(&hint.class, &class, Ghost(opt_chars(w.class)));
            let title_match = match &hint.title_contains {
                None => true,
                Some(t) => {
                    let lt = lowercase_chars(t.as_str());
                    contains_chars(&title, &lt)
                },
            };
            if has_criterion && app_match && class_match && title_match {
                assert(hint_matches(hs[k as int], *w));
                proof {
                    let t = hs.take(k as int + 1);
                    assert(t.last() == hs[k as int]);
                    assert(first_match(t, *w) == Some(k as int));
                    lemma_first_match_prefix(hs, *w, k as int + 1);
                }
                let lc = lowercase_chars(hint.cluster.as_str());
                return named_cluster_exec(&self.canvas_state.clusters, &lc);
            }
            proof {
                let t = hs.take(k as int + 1);
                assert(t.last() == hs[k as int]);
                assert(!hint_matches(t.last(), *w));
            }
            k += 1;
        }
        assert(hs.take(k as int) =~= hs);
        None
    }
}

/// A first match among a prefix is the first match of the whole.
proof fn lemma_first_match_prefix(hs: Seq<HintView>, w: Window, n: int)
    requires
        0 <= n <= hs.len(),
        first_match(hs.take(n), w) is Some,
    ensures
        first_match(hs, w) == first_match(hs.take(n), w),
    decreases hs.len() - n,
{
    if n < hs.len() {
        let t = hs.take(n + 1);
        assert(t.drop_last() =~= hs.take(n));
        lemma_first_match_prefix(hs, w, n + 1);
    } else {
        assert(hs.take(n) =~= hs);
    }
}

proof fn lemma_app_cluster_prefix(ws: Seq<Window>, lapp: Seq<char>, n: int)
    requires
        0 <= n <= ws.len(),
        app_cluster(ws.take(n), lapp) is Some,
    ensures
        app_cluster(ws, lapp) == app_cluster(ws.take(n), lapp),
    decreases ws.len() - n,
{
    if n < ws.len() {
        let t = ws.take(n + 1);
        assert(t.drop_last() =~= ws.take(n));
        lemma_app_cluster_prefix(ws, lapp, n + 1);
    } else {
        assert(ws.take(n) =~= ws);
    }
}

fn app_cluster_exec(ws: &Vec<Window>, lapp: &Vec<char>) -> (r: Option<ClusterId>)
    ensures
        r == app_cluster(ws@, lapp@),
{
    let mut k: usize = 0;
    while k < ws.len()
        invariant
            k <= ws@.len(),
            app_cluster(ws@.take(k as int), lapp@) is None,
        decreases ws.len() - k,
    {
        let t = Ghost(ws@.take(k as int + 1));
        assert(t@.drop_last() =~= ws@.take(k as int));
        assert(t@.last() == ws@[k as int]);
        let w = &ws[k];
        match (&w.app_id, w.cluster_id) {
            (Some(a), Some(c)) => {
                let la = lowercase_chars(a.as_str());
                if chars_eq(&la, lapp) {
                    proof {
                        lemma_app_cluster_prefix(ws@, lapp@, k as int + 1);
                    }
                    return Some(c);
                }
            },
            _ => {},
        }
        k += 1;
    }
    assert(ws@.take(k as int) =~= ws@);
    None
}

fn parent_cluster_exec(ws: &Vec<Window>, p: WindowId) -> (r: Option<ClusterId>)
    ensures
        r == parent_cluster(ws@, p),
{
    let mut k: usize = ws.len();
    while k > 0
        invariant
            k <= ws@.len(),
            parent_cluster(ws@, p) == parent_cluster(ws@.take(k as int), p),
        decreases k,
    {
        let t = Ghost(ws@.take(k as int));
        assert(t@.drop_last() =~= ws@.take(k as int - 1));
        assert(t@.last() == ws@[k as int - 1]);
        if ws[k - 1].id == p && ws[k - 1].cluster_id.is_some() {
            return ws[k - 1].cluster_id;
        }
        k -= 1;
    }
    None
}

fn copy_windows(ws: &Vec<Window>) -> (r: Vec<Window>)
    ensures
        r@ == ws@,
{
    let mut r: Vec<Window> = Vec::new();
    let mut i: usize = 0;
    while i < ws.len()
        invariant
            i <= ws@.len(),
            r@ == ws@.take(i as int),
        decreases ws.len() - i,
    {
        r.push(ws[i].duplicate());
        i += 1;
        assert(r@ =~= ws@.take(i as int));
    }
    assert(ws@.take(i as int) =~= ws@);
    r
}

impl<P: Copy> StateOwner<P> {
    fn apply_assignment_hints(&mut self)
        ensures
            final(self)@ == with_windows_of(
                old(self)@,
                apply_hints(old(self)@.canvas.windows, old(self)@.hints, old(self)@.canvas.clusters),
            ),
    {
        let ghost ws0 = self@.canvas.windows;
        let mut i: usize = 0;
        while i < self.canvas_state.windows.len()
            invariant
                i <= self.canvas_state.windows@.len(),
                ws0.len() == self.canvas_state.windows@.len(),
                self@ == with_windows_of(old(self)@, self@.canvas.windows),
                ws0 == old(self)@.canvas.windows,
                forall|j: int| 0 <= j < i ==> #[trigger] self@.canvas.windows[j] == hinted(ws0[j], old(self)@.hints, old(self)@.canvas.clusters),
                forall|j: int| i <= j < ws0.len() ==> #[trigger] self@.canvas.windows[j] == ws0[j],
            decreases self.canvas_state.windows.len() - i,
        {
            let ghost before = self.canvas_state.windows@;
            let mut w = self.canvas_state.windows.remove(i);
            if !w.manual_cluster_override && w.transient_for.is_none() {
                match self.hinted_cluster(&w) {
                    Some(c) => {
                        w.cluster_id = Some(c);
                    },
                    None => {},
                }
            }
            assert(w == hinted(ws0[i as int], old(self)@.hints, old(self)@.canvas.clusters));
            self.canvas_state.windows.insert(i, w);
            proof {
                lemma_reinsert_window(before, i as int, w);
            }
            i += 1;
        }
        assert(self@.canvas.windows =~= apply_hints(ws0, old(self)@.hints, old(self)@.canvas.clusters));
    }

    fn auto_cluster_by_app_id(&mut self)
        ensures
            final(self)@ == with_windows_of(old(self)@, apply_auto_cluster(old(self)@.canvas.windows)),
    {
        let snapshot = copy_windows(&self.canvas_state.windows);
        let ghost ws0 = snapshot@;
        let mut i: usize = 0;
        while i < self.canvas_state.windows.len()
            invariant
                i <= self.canvas_state.windows@.len(),
                ws0.len() == self.canvas_state.windows@.len(),
                snapshot@ == ws0,
                self@ == with_windows_of(old(self)@, self@.canvas.windows),
                ws0 == old(self)@.canvas.windows,
                forall|j: int| 0 <= j < i ==> #[trigger] self@.canvas.windows[j] == auto_clustered(ws0[j], ws0),
                forall|j: int| i <= j < ws0.len() ==> #[trigger] self@.canvas.windows[j] == ws0[j],
            decreases self.canvas_state.windows.len() - i,
        {
            let ghost before = self.canvas_state.windows@;
            let mut w = self.canvas_state.windows.remove(i);
            if w.cluster_id.is_none() && !w.manual_cluster_override && w.transient_for.is_none()
                && w.role != WindowRole::Scratchpad {
                let found = match &w.app_id {
                    Some(a) => {
                        let la = lowercase_chars(a.as_str());
                        app_cluster_exec(&snapshot, &la)
                    },
                    None => None,
                };
                match found {
                    Some(c) => {
                        w.cluster_id = Some(c);
                    },
                    None => {},
                }
            }
            assert(w == auto_clustered(ws0[i as int], ws0));
            self.canvas_state.windows.insert(i, w);
            proof {
                lemma_reinsert_window(before, i as int, w);
            }
            i += 1;
        }
        assert(self@.canvas.windows =~= apply_auto_cluster(ws0));
    }

    fn anchor_transient_dialogs(&mut self)
        ensures
            final(self)@ == with_windows_of(old(self)@, apply_anchors(old(self)@.canvas.windows)),
    {
        let snapshot = copy_windows(&self.canvas_state.windows);
        let ghost ws0 = snapshot@;
        let mut i: usize = 0;
        while i < self.canvas_state.windows.len()
            invariant
                i <= self.canvas_state.windows@.len(),
                ws0.len() == self.canvas_state.windows@.len(),
                snapshot@ == ws0,
                self@ == with_windows_of(old(self)@, self@.canvas.windows),
                ws0 == old(self)@.canvas.windows,
                forall|j: int| 0 <= j < i ==> #[trigger] self@.canvas.windows[j] == anchored(ws0[j], ws0),
                forall|j: int| i <= j < ws0.len() ==> #[trigger] self@.canvas.windows[j] == ws0[j],
            decreases self.canvas_state.windows.len() - i,
        {
            let ghost before = self.canvas_state.windows@;
            let mut w = self.canvas_state.windows.remove(i);
            if !w.manual_cluster_override && w.role != WindowRole::Scratchpad {
                match w.transient_for {
                    Some(p) => match parent_cluster_exec(&snapshot, p) {
                        Some(c) => {
                            w.cluster_id = Some(c);
                        },
                        None => {},
                    },
                    None => {},
                }
            }
            assert(w == anchored(ws0[i as int], ws0));
            self.canvas_state.windows.insert(i, w);
            proof {
                lemma_reinsert_window(before, i as int, w);
            }
            i += 1;
        }
        assert(self@.canvas.windows =~= apply_anchors(ws0));
    }
}

// ---------------------------------------------------------------------------
// Ingesting a window-manager snapshot.
// ---------------------------------------------------------------------------

/// A snapshot of the window manager: its clusters and windows, and the size
/// each window currently has.
#[derive(Debug)]
pub struct WmFacts<P> {
    pub clusters: Vec<Cluster<P>>,
    pub windows: Vec<Window>,
    pub window_geometry: HashMap<WindowId, (i32, i32)>,
}

/// Mathematical view of a snapshot.
pub struct FactsView<P> {
    pub clusters: Seq<ClusterView<P>>,
    pub windows: Seq<Window>,
    pub geometry: Map<WindowId, (i32, i32)>,
}

impl<P> View for WmFacts<P> {
    type V = FactsView<P>;

    open spec fn view(&self) -> FactsView<P> {
        FactsView {
            clusters: self.clusters@.map_values(|c: Cluster<P>| c@),
            windows: self.windows@,
            geometry: self.window_geometry@,
        }
    }
}

/// What the first half of an ingest hands to the second: the zoom level
/// before the ingest and whether cluster positions were kept.
#[derive(Debug, Clone, Copy, PartialEq, Eq, Structural)]
pub struct IngestToken {
    pub previous_zoom: ZoomLevel,
    pub outcome: ConflictOutcome,
}

/// Position of each cluster id of `cs`; the last cluster with an id wins.
pub open spec fn position_map<P>(cs: Seq<ClusterView<P>>) -> Map<ClusterId, (P, P)>
    decreases cs.len(),
{
    if cs.len() == 0 {
        Map::empty()
    } else {
        position_map(cs.drop_last()).insert(cs.last().id, (cs.last().x, cs.last().y))
    }
}

/// The clusters of `new` with the positions of `pm` taken over, each known
/// position by the first cluster with its id; also the positions left and
/// whether any was taken.
pub open spec fn keep_positions<P>(pm: Map<ClusterId, (P, P)>, new: Seq<ClusterView<P>>) -> (
    Seq<ClusterView<P>>,
    Map<ClusterId, (P, P)>,
    bool,
)
    decreases new.len(),
{
    if new.len() == 0 {
        (new, pm, false)
    } else {
        let prev = keep_positions(pm, new.drop_last());
        let c = new.last();
        if prev.1.contains_key(c.id) {
            let (x, y) = prev.1[c.id];
            (prev.0.push(ClusterView { x: x, y: y, ..c }), prev.1.remove(c.id), true)
        } else {
            (prev.0.push(c), prev.1, prev.2)
        }
    }
}

pub open spec fn abs_int(x: int) -> int {
    if x < 0 {
        -x
    } else {
        x
    }
}

/// The current size is more than ten pixels off the intended one in width
/// or height.
pub open spec fn size_drifted(intended: (i32, i32), current: (i32, i32)) -> bool {
    abs_int(current.0 - intended.0) > 10 || abs_int(current.1 - intended.1) > 10
}

/// A tiled window without manual placement whose size drifted from the
/// recorded one is marked as manually placed.
pub open spec fn resized(w: Window, geo: Map<WindowId, (i32, i32)>, now: Map<WindowId, (i32, i32)>) -> Window {
    if !w.manual_position_override && w.state == WindowState::Tiled && geo.contains_key(w.id)
        && now.contains_key(w.id) && size_drifted(geo[w.id], now[w.id]) {
        Window { manual_position_override: true, ..w }
    } else {
        w
    }
}

/// Ids of the windows of `ws`.
pub open spec fn window_ids(ws: Seq<Window>) -> Set<WindowId> {
    Set::new(|id: WindowId| exists|i: int| 0 <= i < ws.len() && (#[trigger] ws[i]).id == id)
}

/// The recorded geometry after a snapshot: with the layout engine active,
/// recorded sizes stay and new windows add theirs, windows that are gone
/// are forgotten; otherwise the snapshot's sizes replace everything.
pub open spec fn next_geometry(
    active: bool,
    geo: Map<WindowId, (i32, i32)>,
    now: Map<WindowId, (i32, i32)>,
    ws: Seq<Window>,
) -> Map<WindowId, (i32, i32)> {
    if active {
        now.union_prefer_right(geo).restrict(window_ids(ws))
    } else {
        now
    }
}

/// The size differences a snapshot is checked for fit in `i32`.
pub open spec fn drift_computable<P>(geo: Map<WindowId, (i32, i32)>, f: FactsView<P>) -> bool {
    forall|i: int|
        0 <= i < f.windows.len() && geo.contains_key(#[trigger] f.windows[i].id) && f.geometry.contains_key(
            f.windows[i].id,
        ) ==> {
            let a = geo[f.windows[i].id];
            let b = f.geometry[f.windows[i].id];
            &&& i32::MIN < b.0 - a.0 <= i32::MAX
            &&& i32::MIN < b.1 - a.1 <= i32::MAX
        }
}

/// What the first half of an ingest does: the snapshot's clusters, keeping
/// known positions, and windows, marking drifted sizes, replace the
/// canvas's; the recorded geometry is brought up to date.
pub open spec fn snapshot_outcome<P>(v: OwnerView<P>, f: FactsView<P>) -> (OwnerView<P>, IngestToken) {
    let kept = keep_positions(position_map(v.canvas.clusters), f.clusters);
    let ws = f.windows.map_values(|w: Window| resized(w, v.geometry, f.geometry));
    (
        OwnerView {
            canvas: CanvasView { clusters: kept.0, windows: ws, ..v.canvas },
            geometry: next_geometry(v.layout_engine_active, v.geometry, f.geometry, ws),
            ..v
        },
        IngestToken {
            previous_zoom: v.canvas.zoom,
            outcome: if kept.2 {
                ConflictOutcome::PreservedClusterPosition
            } else {
                ConflictOutcome::NoConflict
            },
        },
    )
}

/// Some window of `ws` belongs to cluster `c` and is fullscreen.
pub open spec fn has_fullscreen_in(ws: Seq<Window>, c: ClusterId) -> bool {
    exists|i: int| 0 <= i < ws.len() && (#[trigger] ws[i]).cluster_id == Some(c) && ws[i].state == WindowState::Fullscreen
}

/// Some window of `ws` has id `w` and is fullscreen.
pub open spec fn is_fullscreen(ws: Seq<Window>, w: WindowId) -> bool {
    exists|i: int| 0 <= i < ws.len() && (#[trigger] ws[i]).id == w && ws[i].state == WindowState::Fullscreen
}

/// A fullscreen window at the zoom target keeps the zoom of before the
/// ingest.
pub open spec fn keeps_zoom(z: ZoomLevel, ws: Seq<Window>) -> bool {
    match z {
        ZoomLevel::Cluster(c) => has_fullscreen_in(ws, c),
        ZoomLevel::Focus(w) => is_fullscreen(ws, w),
        ZoomLevel::Overview => false,
    }
}

/// The assignment rules of an ingest: hints, then clustering by app id
/// when enabled, then anchoring of transient dialogs.
pub open spec fn assigned<P>(v: OwnerView<P>) -> OwnerView<P> {
    let v1 = with_windows_of(v, apply_hints(v.canvas.windows, v.hints, v.canvas.clusters));
    let v2 = if v.auto_cluster {
        with_windows_of(v1, apply_auto_cluster(v1.canvas.windows))
    } else {
        v1
    };
    with_windows_of(v2, apply_anchors(v2.canvas.windows))
}

/// The selection after an ingest: kept while its cluster exists, else the
/// first cluster.
pub open spec fn repaired_selection<P>(sel: Option<ClusterId>, cs: Seq<ClusterView<P>>) -> Option<ClusterId> {
    match sel {
        Some(c) => if has_cluster(cs, c) {
            Some(c)
        } else {
            first_cluster_id(cs)
        },
        None => first_cluster_id(cs),
    }
}

/// What the second half of an ingest does.
pub open spec fn finish_outcome<P>(v: OwnerView<P>, token: IngestToken, viewport_preserved: bool) -> (
    OwnerView<P>,
    ConflictOutcome,
) {
    let v3 = assigned(v);
    let sel = repaired_selection(v3.selected, v3.canvas.clusters);
    let v4 = OwnerView { selected: sel, ..v3 };
    let v5 = match v4.canvas.zoom {
        ZoomLevel::Focus(w) => if !has_window(v4.canvas.windows, w) {
            OwnerView {
                freeze: frozen_on(None, "focused_window_missing_after_ingest"@),
                ..with_zoom(
                    v4,
                    match sel {
                        Some(c) => ZoomLevel::Cluster(c),
                        None => ZoomLevel::Overview,
                    },
                )
            }
        } else {
            v4
        },
        _ => v4,
    };
    let v6 = if keeps_zoom(v5.canvas.zoom, v5.canvas.windows) {
        with_zoom(v5, token.previous_zoom)
    } else {
        v5
    };
    (
        bumped(v6),
        if viewport_preserved {
            ConflictOutcome::PreservedViewport
        } else {
            token.outcome
        },
    )
}

fn has_window_id(ws: &Vec<Window>, id: WindowId) -> (r: bool)
    ensures
        r == window_ids(ws@).contains(id),
{
    let mut i: usize = 0;
    while i < ws.len()
        invariant
            i <= ws@.len(),
            forall|j: int| 0 <= j < i ==> (#[trigger] ws@[j]).id != id,
        decreases ws.len() - i,
    {
        if ws[i].id == id {
            assert(ws@[i as int].id == id);
            return true;
        }
        i += 1;
    }
    false
}

fn size_drift_exec(intended: (i32, i32), current: (i32, i32)) -> (r: bool)
    requires
        i32::MIN < current.0 - intended.0 <= i32::MAX,
        i32::MIN < current.1 - intended.1 <= i32::MAX,
    ensures
        r == size_drifted(intended, current),
{
    let dw = current.0 - intended.0;
    let dh = current.1 - intended.1;
    let aw = if dw < 0 { -dw } else { dw };
    let ah = if dh < 0 { -dh } else { dh };
    aw > 10 || ah > 10
}

impl<P: Copy> StateOwner<P> {
    /// First half of an ingest: takes over the snapshot's clusters (keeping
    /// the positions the canvas already had for them) and windows (marking
    /// tiled windows whose size drifted from the recorded one as manually
    /// placed), and brings the recorded geometry up to date.
    pub fn ingest_snapshot(&mut self, facts: WmFacts<P>) -> (token: IngestToken)
        requires
            drift_computable(old(self)@.geometry, facts@),
        ensures
            (final(self)@, token) == snapshot_outcome(old(self)@, facts@),
    {
        let ghost f = facts@;
        let ghost v0 = self@;
        // Positions the canvas already has.
        let mut positions: HashMap<ClusterId, (P, P)> = HashMap::new();
        let mut i: usize = 0;
        while i < self.canvas_state.clusters.len()
            invariant
                i <= self.canvas_state.clusters@.len(),
                self@ == v0,
                positions@ == position_map(v0.canvas.clusters.take(i as int)),
            decreases self.canvas_state.clusters.len() - i,
        {
            assert(v0.canvas.clusters.take(i as int + 1).drop_last() =~= v0.canvas.clusters.take(i as int));
            assert(v0.canvas.clusters[i as int] == self.canvas_state.clusters@[i as int]@);
            let c = &self.canvas_state.clusters[i];
            positions.insert(c.id, (c.x, c.y));
            i += 1;
        }
        assert(v0.canvas.clusters.take(i as int) =~= v0.canvas.clusters);
        let ghost pm0 = positions@;

        let WmFacts { clusters: mut clusters, windows: mut windows, window_geometry } = facts;
        let mut preserved = false;
        let mut k: usize = 0;
        while k < clusters.len()
            invariant
                k <= clusters@.len(),
                clusters@.len() == f.clusters.len(),
                keep_positions(pm0, f.clusters.take(k as int)).0 == clusters@.map_values(|c: Cluster<P>| c@).take(k as int),
                forall|j: int| k <= j < f.clusters.len() ==> #[trigger] clusters@[j]@ == f.clusters[j],
                positions@ == keep_positions(pm0, f.clusters.take(k as int)).1,
                preserved == keep_positions(pm0, f.clusters.take(k as int)).2,
            decreases clusters.len() - k,
        {
            let ghost before = clusters@;
            assert(f.clusters.take(k as int + 1).drop_last() =~= f.clusters.take(k as int));
            assert(f.clusters.take(k as int + 1).last() == f.clusters[k as int]);
            let ghost kp = keep_positions(pm0, f.clusters.take(k as int));
            let mut c = clusters.remove(k);
            assert(c@ == f.clusters[k as int]);
            let removed = positions.remove(&c.id);
            assert(positions@ == kp.1.remove(c.id));
            match removed {
                Some((x, y)) => {
                    assert(kp.1.contains_key(c.id) && kp.1[c.id] == (x, y));
                    c.x = x;
                    c.y = y;
                    preserved = true;
                },
                None => {
                    assert(!kp.1.contains_key(c.id));
                    assert(kp.1.remove(c.id) =~= kp.1);
                },
            }
            clusters.insert(k, c);
            proof {
                lemma_reinsert(before, k as int, c);
            }
            k += 1;
            assert(keep_positions(pm0, f.clusters.take(k as int)).0 =~= clusters@.map_values(|c: Cluster<P>| c@).take(k as int));
        }
        assert(f.clusters.take(k as int) =~= f.clusters);
        assert(clusters@.map_values(|c: Cluster<P>| c@).take(k as int) =~= clusters@.map_values(|c: Cluster<P>| c@));

        // Windows whose size drifted from the recorded one.
        let ghost geo0 = v0.geometry;
        let mut m: usize = 0;
        while m < windows.len()
            invariant
                m <= windows@.len(),
                windows@.len() == f.windows.len(),
                self@ == v0,
                geo0 == self.last_applied_geometry@,
                window_geometry@ == f.geometry,
                drift_computable(geo0, f),
                forall|j: int| 0 <= j < m ==> #[trigger] windows@[j] == resized(f.windows[j], geo0, f.geometry),
                forall|j: int| m <= j < f.windows.len() ==> #[trigger] windows@[j] == f.windows[j],
            decreases windows.len() - m,
        {
            let ghost before = windows@;
            let mut w = windows.remove(m);
            assert(w == f.windows[m as int]);
            if !w.manual_position_override && w.state == WindowState::Tiled {
                match self.last_applied_geometry.get(&w.id) {
                    Some(intended) => match window_geometry.get(&w.id) {
                        Some(current) => {
                            if size_drift_exec(*intended, *current) {
                                w.manual_position_override = true;
                            }
                        },
                        None => {},
                    },
                    None => {},
                }
            }
            windows.insert(m, w);
            proof {
                lemma_reinsert_window(before, m as int, w);
            }
            m += 1;
        }
        let ghost ws = f.windows.map_values(|w: Window| resized(w, geo0, f.geometry));
        assert(windows@ =~= ws);

        // Recorded geometry.
        if self.layout_engine_active {
            let ghost kv = spec_hash_map_iter(&window_geometry).remaining();
            let ghost now = window_geometry@;
            for pair in it: window_geometry.iter()
                invariant
                    it.seq() == kv,
                    now == window_geometry@,
                    now == f.geometry,
                    forall|key: WindowId| #[trigger] self.last_applied_geometry@.contains_key(key) <==> (geo0.contains_key(key)
                        || exists|a: int| 0 <= a < it.index() && *kv[a].0 == key),
                    forall|key: WindowId| #[trigger] self.last_applied_geometry@.contains_key(key) ==> self.last_applied_geometry@[key]
                        == if geo0.contains_key(key) { geo0[key] } else { now[key] },
                    self@ == (OwnerView { geometry: self@.geometry, ..v0 }),
                    self.layout_engine_active,
            {
                let (key, size) = pair;
                let ghost idx = it.index();
                assert(pair == kv[idx]);
                assert(now.contains_key(*kv[idx].0) && now[*kv[idx].0] == *kv[idx].1);
                if !self.last_applied_geometry.contains_key(key) {
                    self.last_applied_geometry.insert(*key, *size);
                }
            }
            proof {
                assert forall|key: WindowId| now.contains_key(key) implies self.last_applied_geometry@.contains_key(key) by {
                    assert(kv.contains((&key, &now[key])));
                    let a = choose|a: int| 0 <= a < kv.len() && kv[a] == (&key, &now[key]);
                    assert(*kv[a].0 == key);
                }
                assert forall|key: WindowId| self.last_applied_geometry@.contains_key(key) implies (geo0.contains_key(key) || now.contains_key(key)) by {
                    if !geo0.contains_key(key) {
                        let a = choose|a: int| 0 <= a < kv.len() && *kv[a].0 == key;
                        assert(now.contains_key(*kv[a].0));
                    }
                }
                assert(self.last_applied_geometry@ =~= now.union_prefer_right(geo0));
            }
            let ghost merged = self.last_applied_geometry@;
            let ghost ks = spec_keys_iter(&self.last_applied_geometry).remaining();
            let mut stale: Vec<WindowId> = Vec::new();
            for key in it: self.last_applied_geometry.keys()
                invariant
                    it.seq() == ks,
                    self@ == (OwnerView { geometry: merged, ..v0 }),
                    windows@ == ws,
                    forall|j: int| 0 <= j < stale@.len() ==> !window_ids(ws).contains(#[trigger] stale@[j]),
                    forall|j: int| 0 <= j < it.index() && !window_ids(ws).contains(*it.seq()[j])
                        ==> #[trigger] stale@.contains(*it.seq()[j]),
            {
                if !has_window_id(&windows, *key) {
                    stale.push(*key);
                }
            }
            let mut q: usize = 0;
            while q < stale.len()
                invariant
                    q <= stale@.len(),
                    forall|j: int| 0 <= j < stale@.len() ==> !window_ids(ws).contains(#[trigger] stale@[j]),
                    forall|key: WindowId| merged.contains_key(key) && !window_ids(ws).contains(key) ==> #[trigger] stale@.contains(key),
                    self.last_applied_geometry@ == merged.remove_keys(stale@.take(q as int).to_set()),
                    self@ == (OwnerView { geometry: self@.geometry, ..v0 }),
                decreases stale.len() - q,
            {
                self.last_applied_geometry.remove(&stale[q]);
                q += 1;
                assert(self.last_applied_geometry@ =~= merged.remove_keys(stale@.take(q as int).to_set()));
            }
            assert(stale@.take(q as int) =~= stale@);
            assert(self.last_applied_geometry@ =~= merged.restrict(window_ids(ws)));
        } else {
            self.last_applied_geometry = window_geometry;
        }
        let token = IngestToken {
            previous_zoom: self.canvas_state.zoom,
            outcome: if preserved {
                ConflictOutcome::PreservedClusterPosition
            } else {
                ConflictOutcome::NoConflict
            },
        };
        assert(self@ == (OwnerView { geometry: self@.geometry, ..v0 }));
        assert(self@.geometry == next_geometry(v0.layout_engine_active, geo0, f.geometry, ws));
        self.canvas_state.clusters = clusters;
        self.canvas_state.windows = windows;
        token
    }
}

fn fullscreen_in_exec(ws: &Vec<Window>, c: ClusterId) -> (r: bool)
    ensures
        r == has_fullscreen_in(ws@, c),
{
    let mut i: usize = 0;
    while i < ws.len()
        invariant
            i <= ws@.len(),
            forall|j: int| 0 <= j < i ==> !((#[trigger] ws@[j]).cluster_id == Some(c) && ws@[j].state == WindowState::Fullscreen),
        decreases ws.len() - i,
    {
        if ws[i].cluster_id == Some(c) && ws[i].state == WindowState::Fullscreen {
            assert(ws@[i as int].cluster_id == Some(c));
            return true;
        }
        i += 1;
    }
    false
}

fn fullscreen_exec(ws: &Vec<Window>, w: WindowId) -> (r: bool)
    ensures
        r == is_fullscreen(ws@, w),
{
    let mut i: usize = 0;
    while i < ws.len()
        invariant
            i <= ws@.len(),
            forall|j: int| 0 <= j < i ==> !((#[trigger] ws@[j]).id == w && ws@[j].state == WindowState::Fullscreen),
        decreases ws.len() - i,
    {
        if ws[i].id == w && ws[i].state == WindowState::Fullscreen {
            assert(ws@[i as int].id == w);
            return true;
        }
        i += 1;
    }
    false
}

/// The cluster of the move in flight, keyboard move first.
pub open spec fn in_flight_of<P>(v: OwnerView<P>) -> Option<ClusterId> {
    match v.keyboard_move_origin {
        Some((id, _, _)) => Some(id),
        None => match v.drag_origin {
            Some((id, _, _)) => Some(id),
            None => None,
        },
    }
}

impl<P: Copy> StateOwner<P> {
    /// The cluster of the move in flight, keyboard move first.
    pub fn in_flight_cluster(&self) -> (r: Option<ClusterId>)
        ensures
            r == in_flight_of(self@),
    {
        match self.keyboard_move_origin {
            Some((id, _, _)) => Some(id),
            None => match self.drag_origin {
                Some((id, _, _)) => Some(id),
                None => None,
            },
        }
    }

    /// Between the two halves of an ingest: merges the saved overview
    /// state into the canvas, leaving the cluster being moved where it is.
    pub fn merge_persisted(&mut self, saved: &PersistedOverviewState<P>)
        ensures
            final(self)@ == (OwnerView {
                canvas: merged_except(saved@, old(self)@.canvas, in_flight_of(old(self)@)),
                ..old(self)@
            }),
    {
        let excluded = self.in_flight_cluster();
        saved.merge_into_live_canvas_excluding(&mut self.canvas_state, excluded);
    }

    /// Second half of an ingest: applies the assignment rules, repairs the
    /// selection and a focus zoom on a window that disappeared, keeps the
    /// previous zoom while a fullscreen window is its target, and bumps the
    /// revision. The outcome reports a kept viewport, else kept positions.
    pub fn finish_ingest(&mut self, token: IngestToken, viewport_preserved: bool) -> (r: ConflictOutcome)
        ensures
            (final(self)@, r) == finish_outcome(old(self)@, token, viewport_preserved),
    {
        self.apply_assignment_hints();
        if self.auto_cluster {
            self.auto_cluster_by_app_id();
        }
        self.anchor_transient_dialogs();
        assert(self@ == assigned(old(self)@));
        let first = if self.canvas_state.clusters.len() > 0 {
            Some(self.canvas_state.clusters[0].id)
        } else {
            None
        };
        assert(first == first_cluster_id(self@.canvas.clusters));
        let sel = match self.selected_cluster_id {
            Some(c) => if find_cluster(&self.canvas_state.clusters, c).is_some() {
                Some(c)
            } else {
                first
            },
            None => first,
        };
        self.selected_cluster_id = sel;
        match self.canvas_state.zoom {
            ZoomLevel::Focus(w) => {
                if find_window(&self.canvas_state.windows, w).is_none() {
                    self.focus_freeze = FocusFreezeMetadata {
                        frozen: true,
                        window_id: None,
                        reason: Some("focused_window_missing_after_ingest".to_owned()),
                    };
                    self.canvas_state.zoom = match sel {
                        Some(c) => ZoomLevel::Cluster(c),
                        None => ZoomLevel::Overview,
                    };
                }
            },
            _ => {},
        }
        let keep = match self.canvas_state.zoom {
            ZoomLevel::Cluster(c) => fullscreen_in_exec(&self.canvas_state.windows, c),
            ZoomLevel::Focus(w) => fullscreen_exec(&self.canvas_state.windows, w),
            ZoomLevel::Overview => false,
        };
        if keep {
            self.canvas_state.zoom = token.previous_zoom;
        }
        self.bump_revision();
        if viewport_preserved {
            ConflictOutcome::PreservedViewport
        } else {
            token.outcome
        }
    }
}

// ---------------------------------------------------------------------------
// Layout exclusions and recorded geometry.
// ---------------------------------------------------------------------------

/// The first cluster of `cs` named `name`, at index `k`.
pub open spec fn first_named<P>(cs: Seq<ClusterView<P>>, name: Seq<char>, k: int) -> bool {
    &&& 0 <= k < cs.len()
    &&& cs[k].name == name
    &&& forall|j: int| 0 <= j < k ==> cs[j].name != name
}

/// What placing the cluster named `name` at `(x, y)` does: the first
/// cluster of that name moves there; the revision moves either way.
pub open spec fn place_by_name_outcome<P>(v: OwnerView<P>, name: Seq<char>, x: P, y: P) -> (
    OwnerView<P>,
    Result<(), StateError>,
) {
    if exists|k: int| first_named(v.canvas.clusters, name, k) {
        let k = choose|k: int| first_named(v.canvas.clusters, name, k);
        (bumped(with_cluster_at(v, k, ClusterView { x: x, y: y, ..v.canvas.clusters[k] })), Ok(()))
    } else {
        (bumped(v), Err(StateError::NamedClusterNotFound))
    }
}

impl<P: Copy> StateOwner<P> {
    /// Places the (first) cluster named `name` at `(x, y)`, as a freshly
    /// created cluster is placed where it was asked for.
    pub fn set_cluster_position_by_name(&mut self, name: &str, x: P, y: P) -> (r: Result<(), StateError>)
        ensures
            (final(self)@, r) == place_by_name_outcome(old(self)@, name@, x, y),
    {
        let want = crate::text::chars_of(name);
        let mut k: usize = 0;
        while k < self.canvas_state.clusters.len()
            invariant
                self@ == old(self)@,
                k <= self@.canvas.clusters.len(),
                want@ == name@,
                forall|j: int| 0 <= j < k ==> (#[trigger] self@.canvas.clusters[j]).name != name@,
            decreases self.canvas_state.clusters.len() - k,
        {
            assert(self@.canvas.clusters[k as int] == self.canvas_state.clusters@[k as int]@);
            if crate::text::chars_eq(&crate::text::chars_of(self.canvas_state.clusters[k].name.as_str()), &want) {
                let ghost before = self.canvas_state.clusters@;
                proof {
                    assert(first_named(self@.canvas.clusters, name@, k as int));
                    let c = choose|c: int| first_named(self@.canvas.clusters, name@, c);
                    if c < k {
                        assert(self@.canvas.clusters[c].name != name@);
                    }
                    if c > k {
                        assert(self@.canvas.clusters[k as int].name != name@);
                    }
                    assert(c == k);
                }
                let mut cluster = self.canvas_state.clusters.remove(k);
                cluster.x = x;
                cluster.y = y;
                self.canvas_state.clusters.insert(k, cluster);
                proof {
                    lemma_reinsert(before, k as int, cluster);
                }
                self.bump_revision();
                return Ok(());
            }
            k += 1;
        }
        proof {
            assert forall|c: int| !first_named(self@.canvas.clusters, name@, c) by {
                if 0 <= c < self@.canvas.clusters.len() {
                    assert(self@.canvas.clusters[c].name != name@);
                }
            }
        }
        self.bump_revision();
        Err(StateError::NamedClusterNotFound)
    }
}

/// Why the layout engine leaves a window alone.
#[derive(Debug, Clone, Copy, PartialEq, Eq, Structural)]
pub enum LayoutExclusionReason {
    Scratchpad,
    FullscreenTemporaryOverride,
    TransientDialogAttached,
    OverlayOrPopup,
    ManualResize,
}

/// The reason the layout engine skips `w`, strongest first: scratchpad,
/// fullscreen, transient or dialog, utility, manual resize.
pub open spec fn exclusion_of(w: Window) -> Option<LayoutExclusionReason> {
    if w.role == WindowRole::Scratchpad {
        Some(LayoutExclusionReason::Scratchpad)
    } else if w.state == WindowState::Fullscreen {
        Some(LayoutExclusionReason::FullscreenTemporaryOverride)
    } else if w.transient_for is Some || w.role == WindowRole::Dialog {
        Some(LayoutExclusionReason::TransientDialogAttached)
    } else if w.role == WindowRole::Utility {
        Some(LayoutExclusionReason::OverlayOrPopup)
    } else if w.manual_position_override {
        Some(LayoutExclusionReason::ManualResize)
    } else {
        None
    }
}

/// Why the layout engine must leave `window` alone, if it must.
pub fn exclusion_reason(window: &Window) -> (r: Option<LayoutExclusionReason>)
    ensures
        r == exclusion_of(*window),
{
    if window.role == WindowRole::Scratchpad {
        return Some(LayoutExclusionReason::Scratchpad);
    }
    if window.state == WindowState::Fullscreen {
        return Some(LayoutExclusionReason::FullscreenTemporaryOverride);
    }
    if window.transient_for.is_some() || window.role == WindowRole::Dialog {
        return Some(LayoutExclusionReason::TransientDialogAttached);
    }
    if window.role == WindowRole::Utility {
        return Some(LayoutExclusionReason::OverlayOrPopup);
    }
    if window.manual_position_override {
        return Some(LayoutExclusionReason::ManualResize);
    }
    None
}

impl<P: Copy> StateOwner<P> {
    /// The size each window was last laid out at.
    pub fn applied_geometry(&self) -> (r: &HashMap<WindowId, (i32, i32)>)
        ensures
            r@ == self@.geometry,
    {
        &self.last_applied_geometry
    }

    /// Records the sizes the layout engine just applied; from now on drift
    /// is measured against layout intent.
    pub fn update_applied_geometry(&mut self, targets: &HashMap<WindowId, (i32, i32)>)
        ensures
            final(self)@ == (OwnerView {
                geometry: old(self)@.geometry.union_prefer_right(targets@),
                layout_engine_active: true,
                ..old(self)@
            }),
    {
        self.layout_engine_active = true;
        let ghost v0 = self@;
        let ghost kv = spec_hash_map_iter(targets).remaining();
        for pair in it: targets.iter()
            invariant
                it.seq() == kv,
                kv.no_duplicates(),
                self@ == (OwnerView { geometry: self@.geometry, ..v0 }),
                forall|key: WindowId| #[trigger] self@.geometry.contains_key(key) <==> (v0.geometry.contains_key(key)
                    || exists|a: int| 0 <= a < it.index() && *kv[a].0 == key),
                forall|key: WindowId| #[trigger] self@.geometry.contains_key(key) ==> self@.geometry[key] == if exists|a: int|
                    0 <= a < it.index() && *kv[a].0 == key {
                    targets@[key]
                } else {
                    v0.geometry[key]
                },
        {
            let (key, size) = pair;
            let ghost idx = it.index();
            assert(pair == kv[idx]);
            assert(targets@.contains_key(*kv[idx].0) && targets@[*kv[idx].0] == *kv[idx].1);
            self.last_applied_geometry.insert(*key, *size);
        }
        proof {
            assert forall|key: WindowId| targets@.contains_key(key) implies self@.geometry.contains_key(key) by {
                assert(kv.contains((&key, &targets@[key])));
                let a = choose|a: int| 0 <= a < kv.len() && kv[a] == (&key, &targets@[key]);
                assert(*kv[a].0 == key);
            }
            assert forall|key: WindowId| self@.geometry.contains_key(key) && !v0.geometry.contains_key(key) implies targets@.contains_key(key) by {
                let a = choose|a: int| 0 <= a < kv.len() && *kv[a].0 == key;
                assert(targets@.contains_key(*kv[a].0));
            }
            assert(self@.geometry =~= v0.geometry.union_prefer_right(targets@));
        }
    }
}

// ---------------------------------------------------------------------------
// Zoom transitions.
// ---------------------------------------------------------------------------

/// The transition stamped when the zoom level went from `previous` to
/// `next` at time `now_ms`; none when it did not change.
pub open spec fn stamped_transition(previous: ZoomLevel, next: ZoomLevel, now_ms: u64) -> Option<ZoomTransition> {
    if previous == next {
        None
    } else {
        Some(ZoomTransition { from: previous, to: next, phase: TransitionPhase::Started, started_at_ms: now_ms })
    }
}

/// The cluster a transition lands in: the one zoomed into, or the first
/// cluster holding the window zoomed into.
pub open spec fn transition_target<P>(t: ZoomTransition, cs: Seq<ClusterView<P>>) -> Option<ClusterId> {
    match t.to {
        ZoomLevel::Cluster(c) => Some(c),
        ZoomLevel::Focus(w) => holder_of(cs, w),
        ZoomLevel::Overview => None,
    }
}

/// The transition after the compositor reported `cluster` as mapped: a
/// started transition landing there is settled; any other is left alone.
pub open spec fn settled_on<P>(t: Option<ZoomTransition>, cs: Seq<ClusterView<P>>, cluster: ClusterId) -> Option<
    ZoomTransition,
> {
    match t {
        Some(tr) => if transition_target(tr, cs) == Some(cluster) && tr.phase == TransitionPhase::Started {
            Some(ZoomTransition { phase: TransitionPhase::CompositorSettled, ..tr })
        } else {
            t
        },
        None => None,
    }
}

/// The transition at time `now_ms`: dropped once it is `max_age_ms` old
/// (a clock that went back counts as age zero).
pub open spec fn unless_stale(t: Option<ZoomTransition>, now_ms: u64, max_age_ms: u64) -> Option<ZoomTransition> {
    match t {
        Some(tr) => if now_ms >= tr.started_at_ms && now_ms - tr.started_at_ms >= max_age_ms {
            None
        } else if now_ms < tr.started_at_ms && max_age_ms == 0 {
            None
        } else {
            t
        },
        None => None,
    }
}

pub open spec fn with_transition<P>(v: OwnerView<P>, t: Option<ZoomTransition>) -> OwnerView<P> {
    OwnerView { transition: t, ..v }
}

impl<P: Copy> StateOwner<P> {
    /// The zoom change being animated, if any.
    pub fn transition(&self) -> (r: Option<ZoomTransition>)
        ensures
            r == self@.transition,
    {
        self.transition
    }

    /// After a mutation that started at zoom level `previous_zoom`: when the
    /// zoom level changed, stamps a fresh transition from it to the current
    /// level at time `now_ms`, so that the overlay animates rather than
    /// snaps; otherwise keeps the transition in flight.
    pub fn stamp_zoom_transition(&mut self, previous_zoom: ZoomLevel, now_ms: u64)
        ensures
            final(self)@ == with_transition(
                old(self)@,
                match stamped_transition(previous_zoom, old(self)@.canvas.zoom, now_ms) {
                    Some(t) => Some(t),
                    None => old(self)@.transition,
                },
            ),
    {
        if previous_zoom != self.canvas_state.zoom {
            self.transition = Some(
                ZoomTransition {
                    from: previous_zoom,
                    to: self.canvas_state.zoom,
                    phase: TransitionPhase::Started,
                    started_at_ms: now_ms,
                },
            );
        }
    }

    /// The compositor reported `cluster` as mapped: a started transition
    /// landing on that cluster (or on a window in it) is settled, so the
    /// overlay can finish its animation; any other is left alone.
    pub fn advance_transition_on_cluster_mapped(&mut self, cluster: ClusterId)
        ensures
            final(self)@ == with_transition(old(self)@, settled_on(old(self)@.transition, old(self)@.canvas.clusters, cluster)),
    {
        let t = match self.transition {
            Some(t) => t,
            None => return,
        };
        let target = match t.to {
            ZoomLevel::Cluster(c) => Some(c),
            ZoomLevel::Focus(w) => match find_holder(&self.canvas_state.clusters, w) {
                Some(k) => {
                    proof {
                        lemma_holder_unique(self@.canvas.clusters, w, k as int);
                    }
                    Some(self.canvas_state.clusters[k].id)
                },
                None => None,
            },
            ZoomLevel::Overview => None,
        };
        let started = match t.phase {
            TransitionPhase::Started => true,
            TransitionPhase::CompositorSettled => false,
        };
        if target == Some(cluster) && started {
            self.transition = Some(ZoomTransition { phase: TransitionPhase::CompositorSettled, ..t });
        }
    }

    /// Drops a transition the compositor never confirmed once it is
    /// `max_age_ms` old at time `now_ms`; safe to call on every tick.
    pub fn clear_stale_transition(&mut self, now_ms: u64, max_age_ms: u64)
        ensures
            final(self)@ == with_transition(old(self)@, unless_stale(old(self)@.transition, now_ms, max_age_ms)),
    {
        if let Some(t) = self.transition {
            if now_ms.saturating_sub(t.started_at_ms) >= max_age_ms {
                self.transition = None;
            }
        }
    }

    /// Drops the transition at once, as when the user cancels mid-animation.
    pub fn clear_transition(&mut self)
        ensures
            final(self)@ == with_transition(old(self)@, None),
    {
        self.transition = None;
    }
}

/// A transition is settled at most once: a second report of the same
/// cluster being mapped changes nothing.
pub proof fn law_settle_is_idempotent<P>(t: Option<ZoomTransition>, cs: Seq<ClusterView<P>>, cluster: ClusterId)
    ensures
        settled_on(settled_on(t, cs, cluster), cs, cluster) == settled_on(t, cs, cluster),
{
}

/// A transition stamped at `now_ms` survives every tick before it is
/// `max_age_ms` old and is dropped at the first one after.
pub proof fn law_stale_after_max_age(previous: ZoomLevel, next: ZoomLevel, now_ms: u64, later: u64, max_age_ms: u64)
    requires
        previous != next,
        now_ms <= later,
    ensures
        unless_stale(stamped_transition(previous, next, now_ms), later, max_age_ms) is None <==> later - now_ms
            >= max_age_ms,
{
}

} // verus!
