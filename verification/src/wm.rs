//! The window-manager seam: the coalesced signals a backend emits, the
//! compositor's control protocol messages, the backend errors, and the
//! plain facts a snapshot is built from.

use vstd::prelude::*;

use crate::contracts::{ClusterId, WindowId};
use crate::layout::LayoutOp;
use crate::text::push_str;

verus! {

/// Coalesced event signal from the window manager.
#[derive(Debug, Clone, Copy, PartialEq, Eq, Structural)]
pub enum WmSignal {
    /// Something about workspaces or windows changed; re-ingest.
    WorkspaceOrWindow,
    /// A cluster's windows finished mapping after an activation.
    ClusterMapped { cluster: ClusterId, window_count: u32 },
}

/// Events the compositor pushes to subscribed clients.
#[derive(Debug, Clone, Copy, PartialEq, Eq, Structural)]
pub enum VibewmEvent {
    WorkspaceOrWindow,
    ClusterMapped { cluster: ClusterId, window_count: u32 },
}

/// The daemon-side signal of a compositor event.
pub open spec fn signal_of(e: VibewmEvent) -> Option<WmSignal> {
    match e {
        VibewmEvent::WorkspaceOrWindow => Some(WmSignal::WorkspaceOrWindow),
        VibewmEvent::ClusterMapped { cluster, window_count } => Some(
            WmSignal::ClusterMapped { cluster, window_count },
        ),
    }
}

impl VibewmEvent {
    /// Translates a wire event into the daemon-side signal.
    pub fn to_signal(self) -> (r: Option<WmSignal>)
        ensures
            r == signal_of(self),
    {
        match self {
            VibewmEvent::WorkspaceOrWindow => Some(WmSignal::WorkspaceOrWindow),
            VibewmEvent::ClusterMapped { cluster, window_count } => Some(
                WmSignal::ClusterMapped { cluster, window_count },
            ),
        }
    }
}

/// Requests the daemon sends to the compositor.
#[derive(Debug, Clone)]
pub enum VibewmRequest {
    Snapshot,
    ApplyLayoutOps { ops: Vec<LayoutOp> },
    FocusWindow { window: WindowId },
    ActivateCluster { cluster: ClusterId },
    CreateNamedWorkspace { name: String },
    BackAndForthWorkspace,
    ExitSession,
    ReloadWmConfig,
    FocusedWindow,
    Subscribe,
    Ping,
}

/// Why a backend call failed.
#[derive(Debug, Clone)]
pub enum BackendError {
    Unavailable(String),
    CommandRejected { command: String, reason: String },
    NotImplemented(String),
    Other(String),
}

/// The human-readable text of a backend error.
pub open spec fn backend_error_text(e: BackendError) -> Seq<char> {
    match e {
        BackendError::Unavailable(s) => "WM backend unavailable: "@ + s@,
        BackendError::CommandRejected { command, reason } => "WM backend rejected command `"@ + command@
            + "`: "@ + reason@,
        BackendError::NotImplemented(s) => "WM backend `"@ + s@ + "` is not yet implemented"@,
        BackendError::Other(s) => "WM backend error: "@ + s@,
    }
}

impl BackendError {
    /// The human-readable text of the error.
    pub fn message(&self) -> (r: String)
        ensures
            r@ == backend_error_text(*self),
    {
        let mut s = String::new();
        match self {
            BackendError::Unavailable(d) => {
                push_str(&mut s, "WM backend unavailable: ");
                push_str(&mut s, d.as_str());
            },
            BackendError::CommandRejected { command, reason } => {
                push_str(&mut s, "WM backend rejected command `");
                push_str(&mut s, command.as_str());
                push_str(&mut s, "`: ");
                push_str(&mut s, reason.as_str());
            },
            BackendError::NotImplemented(d) => {
                push_str(&mut s, "WM backend `");
                push_str(&mut s, d.as_str());
                push_str(&mut s, "` is not yet implemented");
            },
            BackendError::Other(d) => {
                push_str(&mut s, "WM backend error: ");
                push_str(&mut s, d.as_str());
            },
        }
        s
    }
}

/// A workspace as the window manager reports it.
#[derive(Debug, Clone, PartialEq, Eq)]
pub struct ClusterFact {
    pub id: u64,
    pub name: String,
    pub x: i32,
    pub y: i32,
    pub visible: bool,
}

/// A window as the window manager reports it.
#[derive(Debug, Clone, PartialEq, Eq)]
pub struct WindowFact {
    pub id: WindowId,
    pub title: String,
}

} // verus!
