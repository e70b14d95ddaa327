//! Which app-server a session uses: a remote one, a shared local daemon, or
//! a private embedded one.

use crate::session::reconnect::ServerEndpoint;
use vstd::prelude::*;

verus! {

/// The app-server a session asked for.
#[derive(Clone, Debug, PartialEq, Eq)]
pub enum RequestedMode {
    Embedded,
    LocalShared(ServerEndpoint),
    Remote(ServerEndpoint),
}

/// A remote server named on the command line wins, then a local one named
/// there, then the configured local one (whose address must resolve), else
/// an embedded server.
pub fn resolve_requested_app_server_mode(
    cli_local: Option<ServerEndpoint>,
    cli_remote: Option<ServerEndpoint>,
    configured_local: Option<Result<ServerEndpoint, String>>,
) -> (res: Result<RequestedMode, String>)
    ensures
        cli_remote is Some ==> (res matches Ok(RequestedMode::Remote(e)) && Some(e) == cli_remote),
        cli_remote is None && cli_local is Some ==> (res matches Ok(RequestedMode::LocalShared(e))
            && Some(e) == cli_local),
        cli_remote is None && cli_local is None ==> match configured_local {
            Some(Ok(e)) => res matches Ok(RequestedMode::LocalShared(f)) && f == e,
            Some(Err(m)) => res == Err::<RequestedMode, String>(m),
            None => res matches Ok(RequestedMode::Embedded),
        },
{
    if let Some(e) = cli_remote {
        return Ok(RequestedMode::Remote(e));
    }
    if let Some(e) = cli_local {
        return Ok(RequestedMode::LocalShared(e));
    }
    match configured_local {
        Some(Ok(e)) => Ok(RequestedMode::LocalShared(e)),
        Some(Err(m)) => Err(m),
        None => Ok(RequestedMode::Embedded),
    }
}

/// Where a session's app-server runs.
#[derive(Clone, Debug, PartialEq, Eq)]
pub enum AppServerTarget {
    Embedded,
    LocalDaemon(ServerEndpoint),
    Remote(ServerEndpoint),
}

/// The connection state a connected session shows.
#[derive(Clone, Copy, Debug, PartialEq, Eq, Structural)]
pub enum FooterState {
    Connected,
    LocalFallback,
    Disconnected,
}

/// The app-server a session ends up with, and whether it keeps the
/// connection it made.
#[derive(Clone, Debug, PartialEq, Eq)]
pub struct ResolvedMode {
    pub target: AppServerTarget,
    pub keeps_connection: bool,
    pub footer_state: Option<FooterState>,
}

impl ResolvedMode {
    /// A mode for a target that is not connected yet.
    pub fn for_unconnected_target(target: AppServerTarget, footer_state: Option<FooterState>) -> (res:
        ResolvedMode)
        ensures
            res.target == target,
            !res.keeps_connection,
            res.footer_state == footer_state,
    {
        ResolvedMode { target, keeps_connection: false, footer_state }
    }
}

/// Whether a requested mode connects before the session starts.
pub fn needs_connection(requested: &RequestedMode) -> (res: bool)
    ensures
        res == !(*requested is Embedded),
{
    match requested {
        RequestedMode::Embedded => false,
        _ => true,
    }
}

/// The mode once the connection attempt is over (`connected` is ignored for
/// an embedded server): an unreachable shared local daemon falls back to a
/// private embedded server, but an unreachable remote server fails.
pub fn resolve_app_server_mode(requested: RequestedMode, connected: bool, error: String) -> (res: Result<
    ResolvedMode,
    String,
>)
    ensures
        match requested {
            RequestedMode::Embedded => res matches Ok(m) && m.target is Embedded && !m.keeps_connection
                && m.footer_state is None,
            RequestedMode::LocalShared(e) => if connected {
                res matches Ok(m) && m.target == AppServerTarget::LocalDaemon(e) && m.keeps_connection
                    && m.footer_state == Some(FooterState::Connected)
            } else {
                res matches Ok(m) && m.target is Embedded && !m.keeps_connection && m.footer_state
                    == Some(FooterState::LocalFallback)
            },
            RequestedMode::Remote(e) => if connected {
                res matches Ok(m) && m.target == AppServerTarget::Remote(e) && m.keeps_connection
                    && m.footer_state == Some(FooterState::Connected)
            } else {
                res == Err::<ResolvedMode, String>(error)
            },
        },
{
    match requested {
        RequestedMode::Embedded => Ok(
            ResolvedMode { target: AppServerTarget::Embedded, keeps_connection: false, footer_state: None },
        ),
        RequestedMode::LocalShared(e) => {
            if connected {
                Ok(
                    ResolvedMode {
                        target: AppServerTarget::LocalDaemon(e),
                        keeps_connection: true,
                        footer_state: Some(FooterState::Connected),
                    },
                )
            } else {
                Ok(
                    ResolvedMode {
                        target: AppServerTarget::Embedded,
                        keeps_connection: false,
                        footer_state: Some(FooterState::LocalFallback),
                    },
                )
            }
        },
        RequestedMode::Remote(e) => {
            if connected {
                Ok(
                    ResolvedMode {
                        target: AppServerTarget::Remote(e),
                        keeps_connection: true,
                        footer_state: Some(FooterState::Connected),
                    },
                )
            } else {
                Err(error)
            }
        },
    }
}

} // verus!
