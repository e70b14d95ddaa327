//! The decisions of the exchange with the upstream Chat Completions server:
//! the headers sent, whether a reply is an event stream, how much of a body
//! is read, and what message an upstream error is reported with.

use crate::proxy::error::{ProxyError, ProxyErrorV};
use crate::text::{
    chars_of, concat2, decimal, decimal_string, lower_all, lower_chars, push_char,
};
use vstd::prelude::*;

verus! {

/// The longest upstream error message passed on, in characters.
pub const MAX_ERROR_MESSAGE_CHARS: usize = 4096;

/// At most `max` characters of `s`, with `…` appended when some were cut.
pub open spec fn spec_truncate(s: Seq<char>, max: nat) -> Seq<char> {
    if s.len() <= max {
        s
    } else {
        s.take(max as int) + seq!['…']
    }
}

/// Cuts `message` to `max_chars` characters, marking a cut with `…`.
pub fn truncate(message: &str, max_chars: usize) -> (res: String)
    ensures
        res@ == spec_truncate(message@, max_chars as nat),
{
    let chars = chars_of(message);
    if chars.len() <= max_chars {
        return String::from_str(message);
    }
    let mut out = String::new();
    let mut i: usize = 0;
    while i < max_chars
        invariant
            chars@ == message@,
            max_chars < chars@.len(),
            i <= max_chars,
            out@ == chars@.take(i as int),
        decreases max_chars - i,
    {
        push_char(&mut out, chars[i]);
        assert(chars@.take(i + 1) =~= chars@.take(i as int).push(chars@[i as int]));
        i += 1;
    }
    push_char(&mut out, '…');
    out
}

/// A field of a JSON error body.
#[derive(Clone, Debug, PartialEq, Eq)]
pub enum JsonSlot {
    Missing,
    NotAString,
    Text(String),
}

/// What could be read of an upstream error body.
#[derive(Clone, Debug, PartialEq, Eq)]
pub enum ErrorBody {
    /// The body could not be read, or was over the size limit.
    Unreadable,
    /// The body is not JSON.
    NotJson,
    /// A JSON body: its `/error/message` and its top-level `message`.
    Json { error_message: JsonSlot, message: JsonSlot },
}

/// The message of an upstream error reply: `/error/message` when present,
/// else `message`; a string is passed on (cut to the limit), anything else
/// is described with the status.
pub open spec fn spec_upstream_error_message(status_text: Seq<char>, body: ErrorBody) -> Seq<char> {
    match body {
        ErrorBody::Unreadable => status_text + " with an unreadable or oversized error body"@,
        ErrorBody::NotJson => status_text + " with a non-JSON error body"@,
        ErrorBody::Json { error_message, message } => {
            let slot = if error_message is Missing {
                message
            } else {
                error_message
            };
            match slot {
                JsonSlot::Text(s) => spec_truncate(s@, MAX_ERROR_MESSAGE_CHARS as nat),
                _ => status_text + " with no error message"@,
            }
        },
    }
}

/// The message an upstream error reply is reported with; `status_text` is
/// the status as HTTP prints it.
pub fn upstream_error_message(status_text: &str, body: ErrorBody) -> (res: String)
    ensures
        res@ == spec_upstream_error_message(status_text@, body),
{
    match body {
        ErrorBody::Unreadable => concat2(status_text, " with an unreadable or oversized error body"),
        ErrorBody::NotJson => concat2(status_text, " with a non-JSON error body"),
        ErrorBody::Json { error_message, message } => {
            let slot = match error_message {
                JsonSlot::Missing => message,
                other => other,
            };
            match slot {
                JsonSlot::Text(s) => truncate(s.as_str(), MAX_ERROR_MESSAGE_CHARS),
                _ => concat2(status_text, " with no error message"),
            }
        },
    }
}

/// The `Accept` header of the upstream request.
pub fn accept_header(stream: bool) -> (res: &'static str)
    ensures
        res@ == if stream {
            "text/event-stream"@
        } else {
            "application/json"@
        },
{
    if stream {
        "text/event-stream"
    } else {
        "application/json"
    }
}

/// The `Authorization` sent upstream.
#[derive(Clone, Debug, PartialEq, Eq)]
pub enum UpstreamAuthorization {
    /// The proxy's own bearer token.
    Bearer(String),
    /// The inbound request's `Authorization` header, passed on.
    Forwarded(String),
    Absent,
}

/// The proxy's own credential wins; otherwise the inbound header is passed on
/// when forwarding is enabled.
pub fn upstream_authorization(
    bearer: Option<String>,
    forward_inbound: bool,
    inbound: Option<String>,
) -> (res: UpstreamAuthorization)
    ensures
        res == match bearer {
            Some(b) => UpstreamAuthorization::Bearer(b),
            None => if forward_inbound && inbound is Some {
                UpstreamAuthorization::Forwarded(inbound->Some_0)
            } else {
                UpstreamAuthorization::Absent
            },
        },
{
    match bearer {
        Some(b) => UpstreamAuthorization::Bearer(b),
        None => match inbound {
            Some(h) => if forward_inbound {
                UpstreamAuthorization::Forwarded(h)
            } else {
                UpstreamAuthorization::Absent
            },
            None => UpstreamAuthorization::Absent,
        },
    }
}

/// `pattern` occurs in `s`.
pub open spec fn contains_seq(s: Seq<char>, pattern: Seq<char>) -> bool {
    exists|i: int| 0 <= i <= s.len() - pattern.len() && #[trigger] s.subrange(i, i + pattern.len()) == pattern
}

fn occurs_at(s: &Vec<char>, pattern: &Vec<char>, i: usize) -> (res: bool)
    requires
        i + pattern@.len() <= s@.len(),
    ensures
        res == (s@.subrange(i as int, i + pattern@.len()) == pattern@),
{
    let n = pattern.len();
    let sl = s.len();
    let mut k: usize = 0;
    while k < n
        invariant
            n == pattern@.len(),
            sl == s@.len(),
            i + n <= s@.len(),
            k <= n,
            forall|j: int| 0 <= j < k ==> s@[i + j] == pattern@[j],
        decreases n - k,
    {
        if s[i + k] != pattern[k] {
            assert(s@.subrange(i as int, i + n)[k as int] != pattern@[k as int]);
            return false;
        }
        k += 1;
    }
    assert(s@.subrange(i as int, i + n) =~= pattern@);
    true
}

/// Whether `pattern` occurs in `s`.
pub fn contains_chars(s: &Vec<char>, pattern: &Vec<char>) -> (res: bool)
    ensures
        res == contains_seq(s@, pattern@),
{
    if pattern.len() > s.len() {
        return false;
    }
    let last = s.len() - pattern.len();
    let mut i: usize = 0;
    while i < last
        invariant
            last == s@.len() - pattern@.len(),
            i <= last,
            forall|j: int| 0 <= j < i ==> #[trigger] s@.subrange(j, j + pattern@.len()) != pattern@,
        decreases last - i,
    {
        if occurs_at(s, pattern, i) {
            return true;
        }
        i += 1;
    }
    occurs_at(s, pattern, last)
}

/// A reply is an event stream when its `Content-Type` (readable as text)
/// contains `text/event-stream`, in any letter case.
pub fn is_event_stream(content_type: Option<&str>) -> (res: bool)
    ensures
        res == match content_type {
            Some(ct) => contains_seq(lower_all(ct@), "text/event-stream"@),
            None => false,
        },
{
    match content_type {
        Some(ct) => contains_chars(&lower_chars(&chars_of(ct)), &chars_of("text/event-stream")),
        None => false,
    }
}

/// The most bytes read of a successful non-streamed reply.
pub const MAX_BUFFERED_RESPONSE_BYTES: usize = 67108864;

/// The most bytes read of an error reply.
pub const MAX_ERROR_RESPONSE_BYTES: usize = 65536;

/// Whether a chunk of a reply body may still be read: the body so far plus
/// the chunk may not go over `max_bytes`.
pub fn check_body_chunk(received: usize, chunk: usize, max_bytes: usize) -> (res: Result<(), ProxyError>)
    ensures
        received + chunk <= max_bytes ==> res is Ok,
        received + chunk > max_bytes ==> (res matches Err(e) && e@ == ProxyErrorV::InvalidUpstream(
            "upstream response body exceeds the "@ + decimal(max_bytes as nat) + "-byte limit"@,
        )),
{
    if received > max_bytes || chunk > max_bytes - received {
        let mut msg = concat2("upstream response body exceeds the ", decimal_string(max_bytes as u64).as_str());
        msg.append("-byte limit");
        Err(ProxyError::InvalidUpstream(msg))
    } else {
        Ok(())
    }
}

/// The host of a URL.
#[derive(Clone, Debug, PartialEq, Eq)]
pub enum UrlHost {
    Absent,
    Domain(String),
    /// An IPv4 address, as its 32-bit value.
    Ipv4(u32),
    /// An IPv6 address, as its 128-bit value.
    Ipv6(u128),
}

pub enum UrlHostV {
    Absent,
    Domain(Seq<char>),
    Ipv4(u32),
    Ipv6(u128),
}

/// The parts of a URL that the library checks.
#[derive(Clone, Debug, PartialEq, Eq)]
pub struct UrlParts {
    pub scheme: String,
    pub username: String,
    pub has_password: bool,
    pub host: UrlHost,
}

/// The value of a [`UrlParts`].
pub struct UrlPartsV {
    pub scheme: Seq<char>,
    pub username: Seq<char>,
    pub has_password: bool,
    pub host: UrlHostV,
}

impl View for UrlHost {
    type V = UrlHostV;

    open spec fn view(&self) -> UrlHostV {
        match self {
            UrlHost::Absent => UrlHostV::Absent,
            UrlHost::Domain(d) => UrlHostV::Domain(d@),
            UrlHost::Ipv4(a) => UrlHostV::Ipv4(*a),
            UrlHost::Ipv6(a) => UrlHostV::Ipv6(*a),
        }
    }
}

impl View for UrlParts {
    type V = UrlPartsV;

    open spec fn view(&self) -> UrlPartsV {
        UrlPartsV {
            scheme: self.scheme@,
            username: self.username@,
            has_password: self.has_password,
            host: self.host@,
        }
    }
}

pub open spec fn opt_parts_view(url: Option<UrlParts>) -> Option<UrlPartsV> {
    match url {
        Some(p) => Some(p@),
        None => None,
    }
}

/// What the WHATWG URL parser makes of `text`: its scheme, username,
/// whether it has a password, and its host; or nothing when `text` is not a
/// URL.
pub uninterp spec fn parsed_url(text: Seq<char>) -> Option<UrlPartsV>;

/// Parses a URL (`url::Url::parse`) into the parts the library checks. What
/// the parser accepts is not stated here.
#[verifier::external_body]
pub(crate) fn parse_url(text: &str) -> (res: Option<UrlParts>)
    ensures
        match res {
            Some(p) => parsed_url(text@) == Some(p@),
            None => parsed_url(text@) is None,
        },
{
    match url::Url::parse(text) {
        Ok(u) => {
            let host = match u.host() {
                None => UrlHost::Absent,
                Some(url::Host::Domain(d)) => UrlHost::Domain(d.to_string()),
                Some(url::Host::Ipv4(a)) => UrlHost::Ipv4(u32::from(a)),
                Some(url::Host::Ipv6(a)) => UrlHost::Ipv6(u128::from(a)),
            };
            let (scheme, username) = (u.scheme().to_string(), u.username().to_string());
            Some(UrlParts { scheme, username, has_password: u.password().is_some(), host })
        },
        Err(_) => None,
    }
}

/// Why the proxy cannot be set up.
#[derive(Clone, Copy, Debug, PartialEq, Eq, Structural)]
pub enum SetupError {
    CredentialConflict,
    InvalidUrl,
    UnsupportedScheme,
    UrlCredentials,
}

impl SetupError {
    pub open spec fn spec_message(&self) -> Seq<char> {
        match self {
            SetupError::CredentialConflict =>
                "proxy-owned credentials and inbound Authorization forwarding are mutually exclusive"@,
            SetupError::InvalidUrl => "--upstream-url is not a valid URL"@,
            SetupError::UnsupportedScheme => "--upstream-url must use http or https"@,
            SetupError::UrlCredentials => "--upstream-url must not contain credentials"@,
        }
    }

    /// The message the error is reported with.
    pub fn message(&self) -> (res: &'static str)
        ensures
            res@ == self.spec_message(),
    {
        match self {
            SetupError::CredentialConflict =>
                "proxy-owned credentials and inbound Authorization forwarding are mutually exclusive",
            SetupError::InvalidUrl => "--upstream-url is not a valid URL",
            SetupError::UnsupportedScheme => "--upstream-url must use http or https",
            SetupError::UrlCredentials => "--upstream-url must not contain credentials",
        }
    }
}

/// The checks on the proxy's settings, in order, given the parsed upstream URL.
pub open spec fn spec_setup_check(has_bearer: bool, forward_inbound: bool, url: Option<UrlPartsV>) -> Result<
    (),
    SetupError,
> {
    if has_bearer && forward_inbound {
        Err(SetupError::CredentialConflict)
    } else {
        match url {
            None => Err(SetupError::InvalidUrl),
            Some(u) => if u.scheme != "http"@ && u.scheme != "https"@ {
                Err(SetupError::UnsupportedScheme)
            } else if u.username.len() > 0 || u.has_password {
                Err(SetupError::UrlCredentials)
            } else {
                Ok(())
            },
        }
    }
}

/// Checks the proxy's settings: proxy-owned credentials exclude forwarding
/// the inbound `Authorization`, and the upstream URL must be an http(s) URL
/// without credentials.
pub fn check_setup(has_bearer: bool, forward_inbound: bool, upstream_url: &str) -> (res: Result<
    (),
    SetupError,
>)
    ensures
        res == spec_setup_check(has_bearer, forward_inbound, parsed_url(upstream_url@)),
{
    if has_bearer && forward_inbound {
        return Err(SetupError::CredentialConflict);
    }
    check_settings(has_bearer, forward_inbound, parse_url(upstream_url))
}

/// Checks the proxy's settings given what the upstream URL parsed to
/// (`None` when it is not a URL).
pub fn check_settings(has_bearer: bool, forward_inbound: bool, url: Option<UrlParts>) -> (res: Result<
    (),
    SetupError,
>)
    ensures
        res == spec_setup_check(has_bearer, forward_inbound, opt_parts_view(url)),
{
    if has_bearer && forward_inbound {
        return Err(SetupError::CredentialConflict);
    }
    let parts = match url {
        None => return Err(SetupError::InvalidUrl),
        Some(p) => p,
    };
    proof {
        reveal_strlit("http");
        reveal_strlit("https");
    }
    if !crate::text::str_is(parts.scheme.as_str(), "http") && !crate::text::str_is(
        parts.scheme.as_str(),
        "https",
    ) {
        return Err(SetupError::UnsupportedScheme);
    }
    if !parts.username.as_str().is_empty() || parts.has_password {
        return Err(SetupError::UrlCredentials);
    }
    Ok(())
}

} // verus!
