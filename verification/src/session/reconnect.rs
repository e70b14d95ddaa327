//! Reconnecting a connected session after its app-server connection drops:
//! whether to resume the thread or start a fresh one, and the retry loop.

use crate::proxy::upstream::{contains_chars, contains_seq, parse_url, parsed_url, UrlHost, UrlHostV};
use crate::text::{ascii_lower, chars_of, concat2, lower_all, lower_chars, str_is};
use vstd::prelude::*;

verus! {

/// Where a connected session's app-server listens.
#[derive(Clone, Debug, PartialEq, Eq)]
pub enum ServerEndpoint {
    UnixSocket { path: String },
    WebSocket { url: String, auth_token: Option<String> },
}

/// `str::eq_ignore_ascii_case`.
pub open spec fn eq_ignore_ascii_case(a: Seq<char>, b: Seq<char>) -> bool {
    lower_all(a) == lower_all(b)
}

/// A host on this machine: `localhost` in any case, an IPv4 address in
/// 127.0.0.0/8, or the IPv6 address `::1`.
pub open spec fn host_is_loopback(h: UrlHostV) -> bool {
    match h {
        UrlHostV::Absent => false,
        UrlHostV::Domain(d) => eq_ignore_ascii_case(d, "localhost"@),
        UrlHostV::Ipv4(a) => a / 0x1000000 == 127,
        UrlHostV::Ipv6(a) => a == 1,
    }
}

/// A Unix socket is local; a WebSocket URL is local when its host is.
pub open spec fn spec_is_loopback(e: ServerEndpoint) -> bool {
    match e {
        ServerEndpoint::UnixSocket { .. } => true,
        ServerEndpoint::WebSocket { url, .. } => match parsed_url(url@) {
            Some(p) => host_is_loopback(p.host),
            None => false,
        },
    }
}

pub fn is_loopback(endpoint: &ServerEndpoint) -> (res: bool)
    ensures
        res == spec_is_loopback(*endpoint),
{
    match endpoint {
        ServerEndpoint::UnixSocket { .. } => true,
        ServerEndpoint::WebSocket { url, .. } => match parse_url(url.as_str()) {
            Some(p) => is_loopback_host(&p.host),
            None => false,
        },
    }
}

/// Whether a parsed URL host is on this machine.
pub fn is_loopback_host(host: &UrlHost) -> (res: bool)
    ensures
        res == host_is_loopback(host@),
{
    match host {
        UrlHost::Absent => false,
        UrlHost::Domain(d) => {
            let lowered = lower_chars(&chars_of(d.as_str()));
            let expected = chars_of("localhost");
            proof {
                reveal_strlit("localhost");
                assert(lower_all("localhost"@) =~= "localhost"@);
            }
            crate::text::chars_eq(&lowered, &expected)
        },
        UrlHost::Ipv4(a) => *a / 0x1000000 == 127,
        UrlHost::Ipv6(a) => *a == 1,
    }
}

/// What a dropped connection leads to.
#[derive(Clone, Debug, PartialEq, Eq)]
pub enum DisconnectPlan {
    /// Already reconnecting: nothing more to do.
    Ignore,
    /// The session cannot reconnect; it must end with this message.
    Fatal(String),
    /// Reconnect, then resume the thread or start a fresh one.
    Reconnect { start_fresh: bool },
}

/// After reconnecting, a fresh thread is started when there is no saved
/// session to resume: no session, no rollout, or a rollout on this machine
/// that cannot be resumed.
pub open spec fn spec_start_fresh(rollout: Option<Option<Seq<char>>>, loopback: bool, resumable: bool) -> bool {
    match rollout {
        None => true,
        Some(None) => true,
        Some(Some(_)) => loopback && !resumable,
    }
}

/// Plans the reaction to a dropped connection. `rollout` is the primary
/// session's rollout path, when a session is configured; `resumable` says
/// whether that rollout can be resumed.
pub fn plan_disconnect(
    already_disconnected: bool,
    endpoint: Option<&ServerEndpoint>,
    primary_thread: Option<&str>,
    rollout: Option<Option<&str>>,
    resumable: bool,
) -> (res: DisconnectPlan)
    ensures
        already_disconnected ==> res is Ignore,
        !already_disconnected && endpoint is None ==> (res matches DisconnectPlan::Fatal(m) && m@
            == "connected mode is missing its app-server endpoint"@),
        !already_disconnected && endpoint is Some && primary_thread is None ==> (res matches DisconnectPlan::Fatal(
            m,
        ) && m@ == "connected mode lost track of its primary thread id"@),
        !already_disconnected && endpoint is Some && primary_thread is Some ==> res == (
        DisconnectPlan::Reconnect {
            start_fresh: spec_start_fresh(
                match rollout {
                    Some(Some(p)) => Some(Some(p@)),
                    Some(None) => Some(None),
                    None => None,
                },
                spec_is_loopback(*endpoint.unwrap()),
                resumable,
            ),
        }),
{
    if already_disconnected {
        return DisconnectPlan::Ignore;
    }
    let e = match endpoint {
        Some(e) => e,
        None => return DisconnectPlan::Fatal(
            String::from_str("connected mode is missing its app-server endpoint"),
        ),
    };
    if primary_thread.is_none() {
        return DisconnectPlan::Fatal(
            String::from_str("connected mode lost track of its primary thread id"),
        );
    }
    let loopback = is_loopback(e);
    let start_fresh = match rollout {
        None => true,
        Some(None) => true,
        Some(Some(_)) => loopback && !resumable,
    };
    DisconnectPlan::Reconnect { start_fresh }
}

/// A server error says the thread has no saved rollout to resume.
pub open spec fn reports_missing_rollout(thread_id: Seq<char>, server_messages: Seq<Seq<char>>) -> bool {
    exists|i: int|
        0 <= i < server_messages.len() && (#[trigger] server_messages[i] == "no rollout found for thread id "@
            + thread_id || contains_seq(server_messages[i], "is not materialized yet"@))
}

/// Whether any server error in a failure's causes says the thread has no
/// saved rollout.
pub fn server_reports_missing_rollout(thread_id: &str, server_messages: &Vec<String>) -> (res: bool)
    ensures
        res == reports_missing_rollout(thread_id@, crate::text::strings_view(server_messages@)),
{
    let ghost ms = crate::text::strings_view(server_messages@);
    let expected = concat2("no rollout found for thread id ", thread_id);
    let pattern = chars_of("is not materialized yet");
    let n = server_messages.len();
    let mut i: usize = 0;
    while i < n
        invariant
            n == server_messages@.len(),
            ms == crate::text::strings_view(server_messages@),
            expected@ == "no rollout found for thread id "@ + thread_id@,
            pattern@ == "is not materialized yet"@,
            i <= n,
            forall|j: int|
                0 <= j < i ==> !(#[trigger] ms[j] == "no rollout found for thread id "@ + thread_id@
                    || contains_seq(ms[j], "is not materialized yet"@)),
        decreases n - i,
    {
        let m = server_messages[i].as_str();
        if str_is(m, expected.as_str()) || contains_chars(&chars_of(m), &pattern) {
            assert(ms[i as int] == m@);
            return true;
        }
        i += 1;
    }
    false
}

/// Where the reconnect loop is.
#[derive(Clone, Copy, Debug, PartialEq, Eq, Structural)]
pub enum ReconnectPhase {
    Connecting,
    /// A thread is being resumed, or (`fresh`) started.
    Starting { fresh: bool },
}

/// What happened to the last step of the reconnect loop.
#[derive(Clone, Copy, Debug, PartialEq, Eq, Structural)]
pub enum ReconnectEvent {
    ConnectFailed,
    Connected,
    Started,
    StartFailed { missing_rollout: bool },
}

/// What the reconnect loop does next.
#[derive(Clone, Copy, Debug, PartialEq, Eq, Structural)]
pub enum ReconnectAction {
    StartFresh,
    Resume,
    /// Shut the new client down if asked, wait a second, and connect again.
    RetryLater { shut_down_client: bool },
    /// The session is back: hand it to the app.
    Reconnected,
}

/// The reconnect loop.
#[derive(Clone, Copy, Debug, PartialEq, Eq, Structural)]
pub struct Reconnector {
    pub start_fresh: bool,
    pub phase: ReconnectPhase,
}

/// One step of the reconnect loop: once connected it resumes the thread, or
/// starts a fresh one when planned so; a resume that fails because the thread
/// was never saved falls back to a fresh thread; any other failure retries.
pub open spec fn spec_reconnect_step(r: Reconnector, e: ReconnectEvent) -> (Reconnector, ReconnectAction) {
    match (r.phase, e) {
        (ReconnectPhase::Connecting, ReconnectEvent::Connected) => if r.start_fresh {
            (Reconnector { phase: ReconnectPhase::Starting { fresh: true }, ..r }, ReconnectAction::StartFresh)
        } else {
            (Reconnector { phase: ReconnectPhase::Starting { fresh: false }, ..r }, ReconnectAction::Resume)
        },
        (ReconnectPhase::Connecting, _) => (
            Reconnector { phase: ReconnectPhase::Connecting, ..r },
            ReconnectAction::RetryLater { shut_down_client: false },
        ),
        (ReconnectPhase::Starting { .. }, ReconnectEvent::Started) => (r, ReconnectAction::Reconnected),
        (ReconnectPhase::Starting { fresh: false }, ReconnectEvent::StartFailed { missing_rollout: true }) => (
            Reconnector { phase: ReconnectPhase::Starting { fresh: true }, ..r },
            ReconnectAction::StartFresh,
        ),
        (ReconnectPhase::Starting { .. }, _) => (
            Reconnector { phase: ReconnectPhase::Connecting, ..r },
            ReconnectAction::RetryLater { shut_down_client: true },
        ),
    }
}

/// The plan to start fresh never changes while reconnecting; a session
/// planned to start fresh is never resumed; and the session is handed back
/// only once a thread was resumed or started on a live connection.
pub proof fn lemma_fresh_session_never_resumed(r: Reconnector, e: ReconnectEvent)
    ensures
        spec_reconnect_step(r, e).0.start_fresh == r.start_fresh,
        r.start_fresh ==> spec_reconnect_step(r, e).1 != ReconnectAction::Resume,
        spec_reconnect_step(r, e).1 == ReconnectAction::Reconnected ==> r.phase is Starting && e
            == ReconnectEvent::Started,
        spec_reconnect_step(r, e).1 == ReconnectAction::Resume ==> r.phase is Connecting && e
            == ReconnectEvent::Connected,
{
}

impl Reconnector {
    pub fn new(start_fresh: bool) -> (res: Reconnector)
        ensures
            res == (Reconnector { start_fresh, phase: ReconnectPhase::Connecting }),
    {
        Reconnector { start_fresh, phase: ReconnectPhase::Connecting }
    }

    pub fn step(&mut self, e: ReconnectEvent) -> (res: ReconnectAction)
        ensures
            (*final(self), res) == spec_reconnect_step(*old(self), e),
    {
        match (self.phase, e) {
            (ReconnectPhase::Connecting, ReconnectEvent::Connected) => {
                if self.start_fresh {
                    self.phase = ReconnectPhase::Starting { fresh: true };
                    ReconnectAction::StartFresh
                } else {
                    self.phase = ReconnectPhase::Starting { fresh: false };
                    ReconnectAction::Resume
                }
            },
            (ReconnectPhase::Connecting, _) => ReconnectAction::RetryLater { shut_down_client: false },
            (ReconnectPhase::Starting { .. }, ReconnectEvent::Started) => ReconnectAction::Reconnected,
            (
                ReconnectPhase::Starting { fresh: false },
                ReconnectEvent::StartFailed { missing_rollout: true },
            ) => {
                self.phase = ReconnectPhase::Starting { fresh: true };
                ReconnectAction::StartFresh
            },
            (ReconnectPhase::Starting { .. }, _) => {
                self.phase = ReconnectPhase::Connecting;
                ReconnectAction::RetryLater { shut_down_client: true }
            },
        }
    }
}

/// Whether a reconnected session continues the same primary thread, and the
/// message the session shows.
pub fn reconnected_notice(primary_thread: Option<&str>, session_thread: &str) -> (res: (bool, String))
    ensures
        res.0 == (primary_thread matches Some(p) && p@ == session_thread@),
        res.0 ==> res.1@ == "Reconnected to app-server."@,
        !res.0 ==> res.1@
            == "Connected to a new app-server session because the previous session was not yet saved."@,
{
    let same = match primary_thread {
        Some(p) => str_is(p, session_thread),
        None => false,
    };
    if same {
        (true, String::from_str("Reconnected to app-server."))
    } else {
        (
            false,
            String::from_str(
                "Connected to a new app-server session because the previous session was not yet saved.",
            ),
        )
    }
}

} // verus!
