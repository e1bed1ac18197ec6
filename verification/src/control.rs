//! The control tool's decisions: which window or cluster gets focus when the
//! zoom level changes, and the names of the shell components it manages.

use vstd::prelude::*;

use crate::contracts::{CanvasState, CanvasView, ClusterId, WindowId, ZoomLevel};
use crate::daemon::{cluster_of_window, zoom_in_window};
use crate::model::{cluster_pos, find_cluster, find_window, has_cluster};

verus! {

/// What to hand focus to after a zoom change.
#[derive(Debug, Clone, Copy, PartialEq, Eq, Structural)]
pub enum FocusPlan {
    /// Leave focus where it is.
    Keep,
    ActivateCluster(ClusterId),
    FocusWindow(WindowId),
}

/// The focus plan when leaving the overview towards `next_zoom`: an
/// explicitly requested window wins, then a focus zoom's window; otherwise
/// the window focused before the overview when it belongs to the target
/// cluster, else the target cluster's last focused (or first) window, else
/// the target cluster itself.
pub open spec fn focus_plan<P>(
    s: CanvasView<P>,
    requested_cluster: Option<ClusterId>,
    requested_window: Option<WindowId>,
    next_zoom: ZoomLevel,
    pre_overview_focus: Option<WindowId>,
) -> FocusPlan {
    if let Some(w) = requested_window {
        FocusPlan::FocusWindow(w)
    } else if let ZoomLevel::Focus(w) = next_zoom {
        FocusPlan::FocusWindow(w)
    } else {
        let target = match next_zoom {
            ZoomLevel::Cluster(c) => Some(c),
            _ => requested_cluster,
        };
        let restore = match (pre_overview_focus, target) {
            (Some(w), Some(t)) => cluster_of_window(s, w) == Some(t),
            _ => false,
        };
        if restore {
            FocusPlan::FocusWindow(pre_overview_focus->0)
        } else {
            match target {
                Some(t) => if has_cluster(s.clusters, t) {
                    match zoom_in_window(s.clusters[cluster_pos(s.clusters, t)]) {
                        Some(w) => FocusPlan::FocusWindow(w),
                        None => FocusPlan::ActivateCluster(t),
                    }
                } else {
                    FocusPlan::Keep
                },
                None => FocusPlan::Keep,
            }
        }
    }
}

/// The cluster of the first window with id `window_id`, if it has one.
pub fn window_cluster<P>(state: &CanvasState<P>, window_id: WindowId) -> (r: Option<ClusterId>)
    ensures
        r == cluster_of_window(state@, window_id),
{
    match find_window(&state.windows, window_id) {
        Some(i) => state.windows[i].cluster_id,
        None => None,
    }
}

/// The focus plan when leaving the overview; see [`focus_plan`].
pub fn deterministic_focus_plan<P>(
    state: &CanvasState<P>,
    requested_cluster: Option<ClusterId>,
    requested_window: Option<WindowId>,
    next_zoom: ZoomLevel,
    pre_overview_focus: Option<WindowId>,
) -> (r: FocusPlan)
    ensures
        r == focus_plan(state@, requested_cluster, requested_window, next_zoom, pre_overview_focus),
{
    if let Some(w) = requested_window {
        return FocusPlan::FocusWindow(w);
    }
    if let ZoomLevel::Focus(w) = next_zoom {
        return FocusPlan::FocusWindow(w);
    }
    let target = match next_zoom {
        ZoomLevel::Cluster(c) => Some(c),
        _ => requested_cluster,
    };
    if let Some(w) = pre_overview_focus {
        if let Some(t) = target {
            if window_cluster(state, w) == Some(t) {
                return FocusPlan::FocusWindow(w);
            }
        }
    }
    if let Some(t) = target {
        if let Some(k) = find_cluster(&state.clusters, t) {
            let cluster = &state.clusters[k];
            assert(state@.clusters[k as int] == cluster@);
            match cluster.last_focus {
                Some(w) => {
                    return FocusPlan::FocusWindow(w);
                },
                None => {},
            }
            if cluster.windows.len() > 0 {
                return FocusPlan::FocusWindow(cluster.windows[0]);
            }
            return FocusPlan::ActivateCluster(t);
        }
    }
    FocusPlan::Keep
}

/// Remembers, while the overview is shown, which window had focus before.
#[derive(Debug, Default)]
pub struct FocusHandoffController {
    pre_overview_focus: Option<WindowId>,
    frozen_in_overview: bool,
}

/// Whether the change from `previous` to `next` enters the overview.
pub open spec fn enters_overview(previous: ZoomLevel, next: ZoomLevel) -> bool {
    previous != ZoomLevel::Overview && next == ZoomLevel::Overview
}

/// Whether a zoom change enters the overview, so that the focused window
/// must be looked up and remembered.
pub fn entering_overview(previous: ZoomLevel, next: ZoomLevel) -> (r: bool)
    ensures
        r == enters_overview(previous, next),
{
    !matches!(previous, ZoomLevel::Overview) && matches!(next, ZoomLevel::Overview)
}

impl FocusHandoffController {
    pub fn new() -> (r: Self)
        ensures
            r.pre_overview_focus() is None,
            !r.frozen_in_overview(),
    {
        FocusHandoffController { pre_overview_focus: None, frozen_in_overview: false }
    }

    pub closed spec fn pre_overview_focus(&self) -> Option<WindowId> {
        self.pre_overview_focus
    }

    pub closed spec fn frozen_in_overview(&self) -> bool {
        self.frozen_in_overview
    }

    /// The window remembered from before the overview.
    pub fn remembered_focus(&self) -> (r: Option<WindowId>)
        ensures
            r == self.pre_overview_focus(),
    {
        self.pre_overview_focus
    }

    /// Whether focus changes are held back because the overview is shown.
    pub fn is_frozen(&self) -> (r: bool)
        ensures
            r == self.frozen_in_overview(),
    {
        self.frozen_in_overview
    }

    /// Decides what to focus after the zoom went from `previous_zoom` to
    /// `next_zoom`. Entering the overview remembers `focused_now` (the
    /// window focused at that moment) and changes nothing; staying in the
    /// overview changes nothing; leaving it follows [`focus_plan`] with the
    /// remembered window and then forgets it; any other change focuses the
    /// new zoom target directly.
    pub fn step<P>(
        &mut self,
        previous_zoom: ZoomLevel,
        next_zoom: ZoomLevel,
        state: &CanvasState<P>,
        requested_cluster: Option<ClusterId>,
        requested_window: Option<WindowId>,
        focused_now: Option<WindowId>,
    ) -> (r: FocusPlan)
        ensures
            enters_overview(previous_zoom, next_zoom) ==> {
                &&& r == FocusPlan::Keep
                &&& final(self).pre_overview_focus() == focused_now
                &&& final(self).frozen_in_overview()
            },
            !enters_overview(previous_zoom, next_zoom) && next_zoom == ZoomLevel::Overview ==> {
                &&& r == FocusPlan::Keep
                &&& final(self).pre_overview_focus() == old(self).pre_overview_focus()
                &&& final(self).frozen_in_overview()
            },
            previous_zoom == ZoomLevel::Overview && next_zoom != ZoomLevel::Overview ==> {
                &&& r == focus_plan(
                    state@,
                    requested_cluster,
                    requested_window,
                    next_zoom,
                    old(self).pre_overview_focus(),
                )
                &&& final(self).pre_overview_focus() is None
                &&& !final(self).frozen_in_overview()
            },
            previous_zoom != ZoomLevel::Overview && next_zoom != ZoomLevel::Overview ==> {
                &&& r == match next_zoom {
                    ZoomLevel::Cluster(c) => FocusPlan::ActivateCluster(c),
                    ZoomLevel::Focus(w) => FocusPlan::FocusWindow(w),
                    ZoomLevel::Overview => FocusPlan::Keep,
                }
                &&& final(self).pre_overview_focus() == old(self).pre_overview_focus()
                &&& final(self).frozen_in_overview() == old(self).frozen_in_overview()
            },
    {
        if entering_overview(previous_zoom, next_zoom) {
            self.pre_overview_focus = focused_now;
            self.frozen_in_overview = true;
            return FocusPlan::Keep;
        }
        if matches!(next_zoom, ZoomLevel::Overview) {
            self.frozen_in_overview = true;
            return FocusPlan::Keep;
        }
        let exiting = matches!(previous_zoom, ZoomLevel::Overview);
        if exiting {
            self.frozen_in_overview = false;
            let plan = deterministic_focus_plan(
                state,
                requested_cluster,
                requested_window,
                next_zoom,
                self.pre_overview_focus,
            );
            self.pre_overview_focus = None;
            plan
        } else {
            match next_zoom {
                ZoomLevel::Cluster(c) => FocusPlan::ActivateCluster(c),
                ZoomLevel::Focus(w) => FocusPlan::FocusWindow(w),
                ZoomLevel::Overview => FocusPlan::Keep,
            }
        }
    }
}

/// The shell components the control tool starts, restarts and inspects.
#[derive(Debug, Clone, Copy, PartialEq, Eq, Structural)]
pub enum Component {
    Panel,
    Launcher,
    Notifd,
}

impl Component {
    /// The process name of the component.
    pub fn process_name(&self) -> (r: &'static str)
        ensures
            r@ == match *self {
                Component::Panel => "panel"@,
                Component::Launcher => "launcher"@,
                Component::Notifd => "notifd"@,
            },
    {
        match self {
            Component::Panel => "panel",
            Component::Launcher => "launcher",
            Component::Notifd => "notifd",
        }
    }

    /// The command that starts the component when none is configured.
    pub fn default_start_command(&self) -> (r: &'static str)
        ensures
            r@ == match *self {
                Component::Panel => "cargo run -p panel"@,
                Component::Launcher => "cargo run -p launcher"@,
                Component::Notifd => "cargo run -p notifd"@,
            },
    {
        match self {
            Component::Panel => "cargo run -p panel",
            Component::Launcher => "cargo run -p launcher",
            Component::Notifd => "cargo run -p notifd",
        }
    }

    /// The environment variable that overrides the start command.
    pub fn env_command_key(&self) -> (r: &'static str)
        ensures
            r@ == match *self {
                Component::Panel => "VIBESHELL_PANEL_CMD"@,
                Component::Launcher => "VIBESHELL_LAUNCHER_CMD"@,
                Component::Notifd => "VIBESHELL_NOTIFD_CMD"@,
            },
    {
        match self {
            Component::Panel => "VIBESHELL_PANEL_CMD",
            Component::Launcher => "VIBESHELL_LAUNCHER_CMD",
            Component::Notifd => "VIBESHELL_NOTIFD_CMD",
        }
    }

    /// The log target of the component: its process name.
    pub fn log_target(&self) -> (r: &'static str)
        ensures
            r@ == match *self {
                Component::Panel => "panel"@,
                Component::Launcher => "launcher"@,
                Component::Notifd => "notifd"@,
            },
    {
        self.process_name()
    }
}

/// `running` or `stopped`.
pub fn running_label(running: bool) -> (r: &'static str)
    ensures
        r@ == if running { "running"@ } else { "stopped"@ },
{
    if running {
        "running"
    } else {
        "stopped"
    }
}

} // verus!
