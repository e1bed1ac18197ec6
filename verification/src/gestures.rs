//! What a recognised touchpad gesture asks the daemon for.

use vstd::prelude::*;

use crate::text::string_seq;

verus! {

/// The daemon mutation a gesture fires when it ends.
#[derive(Debug, Clone, Copy, PartialEq, Eq, Structural)]
pub enum GestureAction {
    CycleClusterForward,
    CycleClusterBackward,
    ZoomInMode,
    ZoomOutMode,
}

/// The `vibeshellctl` arguments of each action.
pub open spec fn action_args(a: GestureAction) -> Seq<Seq<char>> {
    match a {
        GestureAction::CycleClusterForward => seq!["ipc"@, "cycle-cluster"@, "--direction"@, "forward"@],
        GestureAction::CycleClusterBackward => seq!["ipc"@, "cycle-cluster"@, "--direction"@, "backward"@],
        GestureAction::ZoomInMode => seq!["ipc"@, "zoom-in-mode"@],
        GestureAction::ZoomOutMode => seq!["ipc"@, "zoom-out-mode"@],
    }
}

impl GestureAction {
    /// The arguments `vibeshellctl` is run with to carry out the action.
    pub fn vibeshellctl_args(self) -> (r: Vec<String>)
        ensures
            string_seq(r@) == action_args(self),
    {
        let mut r: Vec<String> = Vec::new();
        r.push("ipc".to_owned());
        match self {
            GestureAction::CycleClusterForward => {
                r.push("cycle-cluster".to_owned());
                r.push("--direction".to_owned());
                r.push("forward".to_owned());
            },
            GestureAction::CycleClusterBackward => {
                r.push("cycle-cluster".to_owned());
                r.push("--direction".to_owned());
                r.push("backward".to_owned());
            },
            GestureAction::ZoomInMode => {
                r.push("zoom-in-mode".to_owned());
            },
            GestureAction::ZoomOutMode => {
                r.push("zoom-out-mode".to_owned());
            },
        }
        assert(string_seq(r@) =~= action_args(self));
        r
    }
}

} // verus!
