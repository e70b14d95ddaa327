//! The passive JSON output of the agents views: which snapshots are written,
//! which failures are retried, and how long to wait before reconnecting.

use crate::agents::model::{AgentsModel, Notification};
use crate::text::str_is;
use vstd::prelude::*;

verus! {

/// The last snapshot line written.
#[derive(Clone, Debug, PartialEq, Eq)]
pub struct Emitter {
    pub previous: String,
}

impl Emitter {
    pub fn new() -> (res: Emitter)
        ensures
            res.previous@ == Seq::<char>::empty(),
    {
        Emitter { previous: String::new() }
    }

    /// A snapshot line is written only when it differs from the last one written.
    pub fn needs_write(&self, line: &str) -> (res: bool)
        ensures
            res == (line@ != self.previous@),
    {
        !str_is(self.previous.as_str(), line)
    }

    /// Records that `line` was written.
    pub fn written(&mut self, line: String)
        ensures
            final(self).previous@ == line@,
    {
        self.previous = line;
    }
}

/// The kinds of I/O error the output distinguishes.
#[derive(Clone, Copy, Debug, PartialEq, Eq, Structural)]
pub enum IoKind {
    InvalidInput,
    InvalidData,
    PermissionDenied,
    BrokenPipe,
    Other,
}

/// Why a connection or a read failed.
#[derive(Clone, Copy, Debug, PartialEq, Eq, Structural)]
pub enum FailureKind {
    /// The server answered with an error code.
    Server { code: i64 },
    /// The server's answer could not be decoded.
    Deserialize,
    /// The transport failed.
    Transport(IoKind),
    /// An I/O error.
    Io(IoKind),
    /// Anything else.
    Other,
}

/// An I/O error is transient unless the input, the data or the permissions are wrong.
pub open spec fn spec_transient(kind: IoKind) -> bool {
    !(kind == IoKind::InvalidInput || kind == IoKind::InvalidData || kind
        == IoKind::PermissionDenied)
}

pub fn transient_io_error(kind: IoKind) -> (res: bool)
    ensures
        res == spec_transient(kind),
{
    !(kind == IoKind::InvalidInput || kind == IoKind::InvalidData || kind
        == IoKind::PermissionDenied)
}

/// A failure is worth reconnecting for when the server reports an internal
/// or overload error, or the transport or I/O failed transiently.
pub open spec fn spec_retryable(f: FailureKind) -> bool {
    match f {
        FailureKind::Server { code } => code == -32603 || code == -32001,
        FailureKind::Deserialize => false,
        FailureKind::Transport(k) => spec_transient(k),
        FailureKind::Io(k) => spec_transient(k),
        FailureKind::Other => false,
    }
}

pub fn retryable(f: FailureKind) -> (res: bool)
    ensures
        res == spec_retryable(f),
{
    match f {
        FailureKind::Server { code } => code == -32603 || code == -32001,
        FailureKind::Deserialize => false,
        FailureKind::Transport(k) => transient_io_error(k),
        FailureKind::Io(k) => transient_io_error(k),
        FailureKind::Other => false,
    }
}

/// A failure of the output loop.
#[derive(Clone, Copy, Debug, PartialEq, Eq, Structural)]
pub enum RunFailure {
    /// Writing a snapshot failed.
    Output(IoKind),
    /// Anything else.
    Connection(FailureKind),
}

/// What the output loop does after a failure.
#[derive(Clone, Copy, Debug, PartialEq, Eq, Structural)]
pub enum AfterFailure {
    /// End quietly: the reader went away.
    Stop,
    /// End with the error.
    Fail,
    /// Report the disconnection, wait, and connect again.
    Retry,
}

/// A closed output ends quietly and another output error fails; a
/// connection failure is retried only when watching and worth retrying.
pub open spec fn spec_after_failure(watch: bool, f: RunFailure) -> AfterFailure {
    match f {
        RunFailure::Output(k) => if k == IoKind::BrokenPipe {
            AfterFailure::Stop
        } else {
            AfterFailure::Fail
        },
        RunFailure::Connection(c) => if !watch || !spec_retryable(c) {
            AfterFailure::Fail
        } else {
            AfterFailure::Retry
        },
    }
}

pub fn after_failure(watch: bool, f: RunFailure) -> (res: AfterFailure)
    ensures
        res == spec_after_failure(watch, f),
{
    match f {
        RunFailure::Output(k) => {
            if k == IoKind::BrokenPipe {
                AfterFailure::Stop
            } else {
                AfterFailure::Fail
            }
        },
        RunFailure::Connection(c) => {
            if !watch || !retryable(c) {
                AfterFailure::Fail
            } else {
                AfterFailure::Retry
            }
        },
    }
}

/// The first wait before reconnecting, in milliseconds.
pub const INITIAL_BACKOFF_MS: u64 = 500;

/// The longest wait before reconnecting, in milliseconds.
pub const MAX_BACKOFF_MS: u64 = 30000;

/// The next wait: twice the last, at most the longest.
pub fn next_backoff_ms(ms: u64) -> (res: u64)
    ensures
        res == if 2 * ms <= MAX_BACKOFF_MS {
            2 * ms
        } else {
            MAX_BACKOFF_MS as int
        },
{
    if ms <= MAX_BACKOFF_MS / 2 {
        ms * 2
    } else {
        MAX_BACKOFF_MS
    }
}

/// An event from the server the passive observer receives.
#[derive(Clone, Debug, PartialEq, Eq)]
pub enum ObserverEvent {
    Notification(Notification),
    /// The server asked something of the client, which a passive observer never answers.
    Request,
    /// Events were dropped, or the stream ended.
    Lost,
    Disconnected { message: String },
}

/// Why the observer stops.
#[derive(Clone, Debug, PartialEq, Eq)]
pub struct ObserverError {
    /// Whether it is a reset connection, worth reconnecting for.
    pub connection_reset: bool,
    pub message: String,
}

/// Takes one server event: a notification updates the model, and says
/// whether it changed what is shown; anything else stops the observer.
pub fn observe_event(model: &mut AgentsModel, event: ObserverEvent) -> (res: Result<bool, ObserverError>)
    requires
        old(model)@.wf(),
    ensures
        final(model)@.wf(),
        match event {
            ObserverEvent::Notification(n) => res == Ok::<bool, ObserverError>(
                crate::agents::model::spec_observe(old(model)@, n).1,
            ) && final(model)@ == crate::agents::model::spec_observe(old(model)@, n).0,
            ObserverEvent::Request => res matches Err(e) && !e.connection_reset && e.message@
                == "passive observer received an interactive request"@ && final(model)@ == old(
                model,
            )@,
            ObserverEvent::Lost => res matches Err(e) && e.connection_reset && e.message@
                == "agents event stream lost synchronization"@ && final(model)@ == old(model)@,
            ObserverEvent::Disconnected { message } => res matches Err(e) && e.connection_reset
                && e.message@ == message@ && final(model)@ == old(model)@,
        },
{
    match event {
        ObserverEvent::Notification(n) => Ok(model.observe(&n)),
        ObserverEvent::Request => Err(
            ObserverError {
                connection_reset: false,
                message: String::from_str("passive observer received an interactive request"),
            },
        ),
        ObserverEvent::Lost => Err(
            ObserverError {
                connection_reset: true,
                message: String::from_str("agents event stream lost synchronization"),
            },
        ),
        ObserverEvent::Disconnected { message } => Err(
            ObserverError { connection_reset: true, message },
        ),
    }
}

} // verus!
