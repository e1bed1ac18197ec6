//! The overlay's pointer and keyboard interaction state machine.

use vstd::prelude::*;

use crate::contracts::ZoomLevel;

verus! {

#[derive(Debug, Clone, Copy, PartialEq, Eq, Structural)]
pub enum InteractionState {
    OverviewIdle,
    OverviewSelecting,
    OverviewPanning,
    OverviewDraggingCluster,
    ClusterZoom,
    FocusZoom,
}

#[derive(Debug, Clone, Copy, PartialEq, Eq, Structural)]
pub enum InteractionEvent {
    ClickCluster,
    ClickBackground,
    DoubleClickCluster,
    Enter,
    Esc,
    DragStartPan,
    DragStartCluster,
    DragRelease,
    DragCancel,
    ZoomToCluster,
    ZoomToFocus,
    ZoomToOverview,
}

/// What pressing Escape did.
#[derive(Debug, Clone, Copy, PartialEq, Eq, Structural)]
pub enum EscapeAction {
    CancelDrag,
    CloseTransientOverlayUi,
    ZoomBack,
    /// Escape had nothing to do.
    Nothing,
}

/// The state after `e` in state `s`; pairs not listed leave the state as it
/// is.
pub open spec fn next_state(s: InteractionState, e: InteractionEvent) -> InteractionState {
    match (s, e) {
        (InteractionState::OverviewIdle, InteractionEvent::ClickCluster) => InteractionState::OverviewSelecting,
        (InteractionState::OverviewSelecting, InteractionEvent::ClickBackground) => InteractionState::OverviewIdle,
        (InteractionState::OverviewSelecting, InteractionEvent::DragStartCluster) => InteractionState::OverviewDraggingCluster,
        (InteractionState::OverviewIdle, InteractionEvent::DragStartPan) => InteractionState::OverviewPanning,
        (InteractionState::OverviewSelecting, InteractionEvent::DragStartPan) => InteractionState::OverviewPanning,
        (InteractionState::OverviewDraggingCluster, InteractionEvent::DragRelease) => InteractionState::OverviewSelecting,
        (InteractionState::OverviewDraggingCluster, InteractionEvent::DragCancel) => InteractionState::OverviewSelecting,
        (InteractionState::OverviewPanning, InteractionEvent::DragRelease) => InteractionState::OverviewIdle,
        (InteractionState::OverviewPanning, InteractionEvent::DragCancel) => InteractionState::OverviewIdle,
        (InteractionState::OverviewSelecting, InteractionEvent::DoubleClickCluster) => InteractionState::ClusterZoom,
        (InteractionState::OverviewSelecting, InteractionEvent::Enter) => InteractionState::ClusterZoom,
        (InteractionState::ClusterZoom, InteractionEvent::ZoomToCluster) => InteractionState::ClusterZoom,
        (InteractionState::FocusZoom, InteractionEvent::ZoomToFocus) => InteractionState::FocusZoom,
        (InteractionState::ClusterZoom, InteractionEvent::Esc) => InteractionState::OverviewIdle,
        (InteractionState::FocusZoom, InteractionEvent::Esc) => InteractionState::ClusterZoom,
        (state, _) => state,
    }
}

/// The state that matches the daemon's zoom level `z`: a zoom level forces
/// its zoom state; the overview ends a zoom state and keeps any overview
/// state.
pub open spec fn synced_state(s: InteractionState, z: ZoomLevel) -> InteractionState {
    match z {
        ZoomLevel::Overview => match s {
            InteractionState::ClusterZoom | InteractionState::FocusZoom => InteractionState::OverviewIdle,
            other => other,
        },
        ZoomLevel::Cluster(_) => InteractionState::ClusterZoom,
        ZoomLevel::Focus(_) => InteractionState::FocusZoom,
    }
}

/// What Escape does in state `s`: the action and the state after it.
pub open spec fn escape_outcome(s: InteractionState, transient_overlay_open: bool) -> (
    EscapeAction,
    InteractionState,
) {
    match s {
        InteractionState::OverviewDraggingCluster | InteractionState::OverviewPanning => (
            EscapeAction::CancelDrag,
            next_state(s, InteractionEvent::DragCancel),
        ),
        InteractionState::OverviewSelecting => if transient_overlay_open {
            (EscapeAction::CloseTransientOverlayUi, next_state(s, InteractionEvent::ClickBackground))
        } else {
            (EscapeAction::ZoomBack, next_state(s, InteractionEvent::Esc))
        },
        InteractionState::ClusterZoom | InteractionState::FocusZoom => (
            EscapeAction::ZoomBack,
            next_state(s, InteractionEvent::Esc),
        ),
        InteractionState::OverviewIdle => if transient_overlay_open {
            (EscapeAction::CloseTransientOverlayUi, s)
        } else {
            (EscapeAction::Nothing, s)
        },
    }
}

/// The overlay's interaction state.
#[derive(Debug, Clone)]
pub struct InteractionMachine {
    state: InteractionState,
}

impl View for InteractionMachine {
    type V = InteractionState;

    closed spec fn view(&self) -> InteractionState {
        self.state
    }
}

impl Default for InteractionMachine {
    fn default() -> (r: Self)
        ensures
            r@ == InteractionState::OverviewIdle,
    {
        InteractionMachine { state: InteractionState::OverviewIdle }
    }
}

impl InteractionMachine {
    pub fn state(&self) -> (r: InteractionState)
        ensures
            r == self@,
    {
        self.state
    }

    /// Follows the daemon's zoom level.
    pub fn sync_zoom(&mut self, zoom: ZoomLevel)
        ensures
            final(self)@ == synced_state(old(self)@, zoom),
    {
        let (event, next) = match zoom {
            ZoomLevel::Overview => (
                InteractionEvent::ZoomToOverview,
                match self.state {
                    InteractionState::ClusterZoom | InteractionState::FocusZoom => InteractionState::OverviewIdle,
                    existing => existing,
                },
            ),
            ZoomLevel::Cluster(_) => (InteractionEvent::ZoomToCluster, InteractionState::ClusterZoom),
            ZoomLevel::Focus(_) => (InteractionEvent::ZoomToFocus, InteractionState::FocusZoom),
        };
        if next != self.state {
            self.transition(event, next);
        }
    }

    /// Feeds one pointer or keyboard event to the machine.
    pub fn on_event(&mut self, event: InteractionEvent)
        ensures
            final(self)@ == next_state(old(self)@, event),
    {
        let next = match (self.state, event) {
            (InteractionState::OverviewIdle, InteractionEvent::ClickCluster) => InteractionState::OverviewSelecting,
            (InteractionState::OverviewSelecting, InteractionEvent::ClickBackground) => InteractionState::OverviewIdle,
            (InteractionState::OverviewSelecting, InteractionEvent::DragStartCluster) => InteractionState::OverviewDraggingCluster,
            (InteractionState::OverviewIdle, InteractionEvent::DragStartPan)
            | (InteractionState::OverviewSelecting, InteractionEvent::DragStartPan) => InteractionState::OverviewPanning,
            (InteractionState::OverviewDraggingCluster, InteractionEvent::DragRelease)
            | (InteractionState::OverviewDraggingCluster, InteractionEvent::DragCancel) => InteractionState::OverviewSelecting,
            (InteractionState::OverviewPanning, InteractionEvent::DragRelease)
            | (InteractionState::OverviewPanning, InteractionEvent::DragCancel) => InteractionState::OverviewIdle,
            (InteractionState::OverviewSelecting, InteractionEvent::DoubleClickCluster)
            | (InteractionState::OverviewSelecting, InteractionEvent::Enter)
            | (InteractionState::ClusterZoom, InteractionEvent::ZoomToCluster) => InteractionState::ClusterZoom,
            (InteractionState::FocusZoom, InteractionEvent::ZoomToFocus) => InteractionState::FocusZoom,
            (InteractionState::ClusterZoom, InteractionEvent::Esc) => InteractionState::OverviewIdle,
            (InteractionState::FocusZoom, InteractionEvent::Esc) => InteractionState::ClusterZoom,
            (state, _) => state,
        };
        self.transition(event, next);
    }

    /// Handles Escape: cancels a drag or pan, closes transient overlay UI,
    /// or zooms back one level.
    pub fn handle_escape(&mut self, transient_overlay_open: bool) -> (r: EscapeAction)
        ensures
            (r, final(self)@) == escape_outcome(old(self)@, transient_overlay_open),
    {
        match self.state {
            InteractionState::OverviewDraggingCluster | InteractionState::OverviewPanning => {
                self.on_event(InteractionEvent::DragCancel);
                EscapeAction::CancelDrag
            },
            InteractionState::OverviewSelecting => {
                if transient_overlay_open {
                    self.on_event(InteractionEvent::ClickBackground);
                    EscapeAction::CloseTransientOverlayUi
                } else {
                    self.on_event(InteractionEvent::Esc);
                    EscapeAction::ZoomBack
                }
            },
            InteractionState::ClusterZoom | InteractionState::FocusZoom => {
                self.on_event(InteractionEvent::Esc);
                EscapeAction::ZoomBack
            },
            InteractionState::OverviewIdle => {
                if transient_overlay_open {
                    EscapeAction::CloseTransientOverlayUi
                } else {
                    EscapeAction::Nothing
                }
            },
        }
    }

    fn transition(&mut self, event: InteractionEvent, next: InteractionState)
        ensures
            final(self)@ == next,
    {
        self.state = next;
    }
}

/// Escape never leaves a drag or pan in flight.
pub proof fn law_escape_ends_drags(s: InteractionState, transient_overlay_open: bool)
    ensures
        ({
            let after = escape_outcome(s, transient_overlay_open).1;
            after != InteractionState::OverviewDraggingCluster && after != InteractionState::OverviewPanning
        }),
{
}

/// After following a zoom level, the machine is in a zoom state exactly
/// when the level is a cluster or focus zoom, and in the matching one.
pub proof fn law_sync_matches_zoom(s: InteractionState, z: ZoomLevel)
    ensures
        (synced_state(s, z) == InteractionState::ClusterZoom) <==> (z is Cluster),
        (synced_state(s, z) == InteractionState::FocusZoom) <==> (z is Focus),
{
}

} // verus!
