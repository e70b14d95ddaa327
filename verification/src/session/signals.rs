//! Terminal signals a running session reacts to.

use vstd::prelude::*;

verus! {

/// What the shutdown listener does after an event.
#[derive(Clone, Copy, Debug, PartialEq, Eq, Structural)]
pub enum ShutdownAction {
    /// Ask the app to shut down gracefully, its session first.
    RequestShutdown,
    /// Restore the terminal and exit at once.
    ForceExit,
    /// Stop listening.
    Stop,
}

/// The shutdown listener: a first termination signal asks for a graceful
/// shutdown, a second forces the exit.
#[derive(Clone, Copy, Debug, PartialEq, Eq, Structural)]
pub struct ShutdownListener {
    pub requested: bool,
}

impl ShutdownListener {
    pub fn new() -> (res: ShutdownListener)
        ensures
            !res.requested,
    {
        ShutdownListener { requested: false }
    }

    /// Takes the next signal, or none when the signal stream ended.
    pub fn on_signal(&mut self, received: bool) -> (res: ShutdownAction)
        ensures
            !received ==> res == ShutdownAction::Stop && *final(self) == *old(self),
            received && !old(self).requested ==> res == ShutdownAction::RequestShutdown
                && final(self).requested,
            received && old(self).requested ==> res == ShutdownAction::ForceExit
                && final(self).requested,
    {
        if !received {
            return ShutdownAction::Stop;
        }
        if self.requested {
            ShutdownAction::ForceExit
        } else {
            self.requested = true;
            ShutdownAction::RequestShutdown
        }
    }
}

/// The exit status of a process killed by `signal`, as shells report it.
pub fn signal_exit_status(signal: i32) -> (res: i32)
    requires
        0 <= signal <= 127,
    ensures
        res == 128 + signal,
{
    128 + signal
}

/// Each focus-notification signal asks for a notification; the listener
/// stops when the signal stream ends.
pub fn on_focus_notification_signal(received: bool) -> (res: bool)
    ensures
        res == received,
{
    received
}

} // verus!
