//! Configuration reloads: why one was asked for, and the handle through
//! which a command asks for one.

use vstd::prelude::*;

verus! {

/// What asked for a configuration reload.
#[derive(Debug, Clone, Copy, PartialEq, Eq, Structural)]
pub enum ReloadReason {
    /// The process received `SIGHUP`.
    Signal,
    /// `vibeshellctl reload` asked for it.
    Command,
}

impl ReloadReason {
    /// How the reason reads in the logs.
    pub fn as_str(self) -> (r: &'static str)
        ensures
            r@ == match self {
                ReloadReason::Signal => "SIGHUP"@,
                ReloadReason::Command => "vibeshellctl reload"@,
            },
    {
        match self {
            ReloadReason::Signal => "SIGHUP",
            ReloadReason::Command => "vibeshellctl reload",
        }
    }
}

#[verifier::external_type_specification]
#[verifier::external_body]
#[verifier::reject_recursive_types(T)]
pub struct ExSender<T>(std::sync::mpsc::Sender<T>);

/// `Sender::send` of a unit message: it is queued, or it fails because
/// the receiving end is gone; which of the two happened depends on the
/// other thread and is not stated.
#[verifier::external_body]
fn send_unit(tx: &std::sync::mpsc::Sender<()>) -> (sent: bool) {
    tx.send(()).is_ok()
}

/// Asks the reload listener for a reload.
pub struct ReloadHandle {
    command_tx: std::sync::mpsc::Sender<()>,
}

impl ReloadHandle {
    /// The channel the handle queues its requests on.
    pub closed spec fn sender(&self) -> std::sync::mpsc::Sender<()> {
        self.command_tx
    }

    /// A handle that queues its requests on `command_tx`.
    pub fn new(command_tx: std::sync::mpsc::Sender<()>) -> (r: Self)
        ensures
            r.sender() == command_tx,
    {
        ReloadHandle { command_tx }
    }

    /// Queues a reload request on `self.sender()`; one that cannot be
    /// queued (the listener is gone) is dropped.
    pub fn request_reload(&self) {
        let _ = send_unit(&self.command_tx);
    }
}

} // verus!
