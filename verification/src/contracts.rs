//! Canvas data types shared by the daemon, the overlay, the panel and the
//! launcher: clusters of windows on a zoomable overview canvas.

use vstd::prelude::*;

verus! {

pub type WindowId = u64;

pub type ClusterId = u64;

/// The three navigation modes of the zoom hierarchy.
#[derive(Debug, Clone, Copy, PartialEq, Eq, Structural)]
pub enum ZoomLevel {
    /// All clusters visible on the canvas.
    Overview,
    /// Zoomed into a single cluster.
    Cluster(ClusterId),
    /// Zoomed into a single window within its cluster.
    Focus(WindowId),
}

#[derive(Debug, Clone, Copy, PartialEq, Eq, Structural)]
pub enum WindowRole {
    Normal,
    Dialog,
    Utility,
    Scratchpad,
}

#[derive(Debug, Clone, Copy, PartialEq, Eq, Structural)]
pub enum WindowState {
    Tiled,
    Floating,
    Fullscreen,
    /// Hidden but still present in the window manager.
    MinimizedLike,
}

impl Default for ZoomLevel {
    fn default() -> (r: Self)
        ensures
            r == ZoomLevel::Overview,
    {
        ZoomLevel::Overview
    }
}

impl Default for WindowRole {
    fn default() -> (r: Self)
        ensures
            r == WindowRole::Normal,
    {
        WindowRole::Normal
    }
}

impl Default for WindowState {
    fn default() -> (r: Self)
        ensures
            r == WindowState::Tiled,
    {
        WindowState::Tiled
    }
}

/// How far a zoom transition has got.
#[derive(Debug, Clone, Copy, PartialEq, Eq, Structural)]
pub enum TransitionPhase {
    /// The daemon changed the zoom level; the compositor has not caught up.
    Started,
    /// The compositor mapped the destination; the animation can finish.
    CompositorSettled,
}

/// A change of zoom level that the daemon stamped so that the overlay can
/// animate from the old level to the new one.
#[derive(Debug, Clone, Copy, PartialEq, Eq, Structural)]
pub struct ZoomTransition {
    pub from: ZoomLevel,
    pub to: ZoomLevel,
    pub phase: TransitionPhase,
    /// When the transition started, in milliseconds since the Unix epoch.
    pub started_at_ms: u64,
}

#[derive(Debug, Clone, Copy, PartialEq, Eq, Structural)]
pub enum ContextStripDirection {
    Next,
    Previous,
}

#[derive(Debug, Clone, Copy, PartialEq, Eq, Structural)]
pub enum CycleDirection {
    Forward,
    Backward,
}

} // verus!

verus! {

/// A toplevel window as tracked on the canvas.
#[derive(Debug, Clone, PartialEq, Eq)]
pub struct Window {
    pub id: WindowId,
    pub title: String,
    pub app_id: Option<String>,
    pub class: Option<String>,
    pub role: WindowRole,
    pub state: WindowState,
    /// Cluster the window belongs to, or `None` if it has not been assigned.
    pub cluster_id: Option<ClusterId>,
    pub transient_for: Option<WindowId>,
    /// Set when the user explicitly moved the window into its cluster.
    pub manual_cluster_override: bool,
    /// Set when the layout engine must leave the window's geometry alone.
    pub manual_position_override: bool,
}

impl Window {
    /// A field-by-field copy.
    pub fn duplicate(&self) -> (r: Window)
        ensures
            r == *self,
    {
        Window {
            id: self.id,
            title: self.title.clone(),
            app_id: match &self.app_id {
                Some(s) => Some(s.clone()),
                None => None,
            },
            class: match &self.class {
                Some(s) => Some(s.clone()),
                None => None,
            },
            role: self.role,
            state: self.state,
            cluster_id: self.cluster_id,
            transient_for: self.transient_for,
            manual_cluster_override: self.manual_cluster_override,
            manual_position_override: self.manual_position_override,
        }
    }
}

impl Default for Window {
    fn default() -> (r: Self)
        ensures
            r.id == 0,
            r.title@ == Seq::<char>::empty(),
            r.app_id is None,
            r.class is None,
            r.role == WindowRole::Normal,
            r.state == WindowState::Tiled,
            r.cluster_id is None,
            r.transient_for is None,
            !r.manual_cluster_override,
            !r.manual_position_override,
    {
        Window {
            id: 0,
            title: String::new(),
            app_id: None,
            class: None,
            role: WindowRole::Normal,
            state: WindowState::Tiled,
            cluster_id: None,
            transient_for: None,
            manual_cluster_override: false,
            manual_position_override: false,
        }
    }
}

/// A group of windows placed on the overview canvas at `(x, y)`.
///
/// The coordinate type `P` is left to the caller: the canvas logic only
/// stores and hands back positions, it never computes with them.
#[derive(Debug, Clone, PartialEq)]
pub struct Cluster<P> {
    pub id: ClusterId,
    pub name: String,
    pub x: P,
    pub y: P,
    /// Whether the cluster's workspace is currently visible.
    pub enabled: bool,
    /// Stable insertion order of the windows in this cluster.
    pub windows: Vec<WindowId>,
    /// Last window focused inside the cluster.
    pub last_focus: Option<WindowId>,
    /// Most-recently-used order of the cluster's windows, most recent first.
    pub recency: Vec<WindowId>,
}

/// Mathematical view of a cluster.
pub struct ClusterView<P> {
    pub id: ClusterId,
    pub name: Seq<char>,
    pub x: P,
    pub y: P,
    pub enabled: bool,
    pub windows: Seq<WindowId>,
    pub last_focus: Option<WindowId>,
    pub recency: Seq<WindowId>,
}

impl<P> View for Cluster<P> {
    type V = ClusterView<P>;

    open spec fn view(&self) -> ClusterView<P> {
        ClusterView {
            id: self.id,
            name: self.name@,
            x: self.x,
            y: self.y,
            enabled: self.enabled,
            windows: self.windows@,
            last_focus: self.last_focus,
            recency: self.recency@,
        }
    }
}

/// The part of the canvas snapshot that the canvas logic reads and writes:
/// the zoom level, the clusters and the windows.
#[derive(Debug, Clone, PartialEq)]
pub struct CanvasState<P> {
    /// Counter bumped on every state mutation in the daemon.
    pub state_revision: u64,
    pub zoom: ZoomLevel,
    pub clusters: Vec<Cluster<P>>,
    pub windows: Vec<Window>,
}

impl<P> Default for CanvasState<P> {
    fn default() -> (r: Self)
        ensures
            r.state_revision == 0,
            r.zoom == ZoomLevel::Overview,
            r@.clusters.len() == 0,
            r@.windows.len() == 0,
    {
        CanvasState { state_revision: 0, zoom: ZoomLevel::Overview, clusters: Vec::new(), windows: Vec::new() }
    }
}

/// Mathematical view of a canvas snapshot.
pub struct CanvasView<P> {
    pub state_revision: u64,
    pub zoom: ZoomLevel,
    pub clusters: Seq<ClusterView<P>>,
    pub windows: Seq<Window>,
}

impl<P> View for CanvasState<P> {
    type V = CanvasView<P>;

    open spec fn view(&self) -> CanvasView<P> {
        CanvasView {
            state_revision: self.state_revision,
            zoom: self.zoom,
            clusters: self.clusters@.map_values(|c: Cluster<P>| c@),
            windows: self.windows@,
        }
    }
}

} // verus!
