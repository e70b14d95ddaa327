//! Errors that end a Responses request, and how they are reported.

use crate::text::concat2;
use vstd::prelude::*;

verus! {

/// Why a request could not be translated or its upstream exchange failed.
#[derive(Clone, Debug, PartialEq, Eq)]
pub enum ProxyError {
    InvalidRequest(String),
    Unsupported(String),
    Upstream(String),
    /// The upstream answered with a non-success status. `status_text` is the
    /// status as HTTP prints it, such as `503 Service Unavailable`.
    UpstreamHttp { status: u16, status_text: String, message: String },
    InvalidUpstream(String),
}

impl ProxyError {
    /// The HTTP status the proxy answers with.
    pub open spec fn spec_status(&self) -> u16 {
        match self {
            ProxyError::InvalidRequest(_) | ProxyError::Unsupported(_) => 400,
            ProxyError::UpstreamHttp { status, .. } => *status,
            ProxyError::Upstream(_) | ProxyError::InvalidUpstream(_) => 502,
        }
    }

    pub fn status(&self) -> (res: u16)
        ensures
            res == self.spec_status(),
    {
        match self {
            ProxyError::InvalidRequest(_) | ProxyError::Unsupported(_) => 400,
            ProxyError::UpstreamHttp { status, .. } => *status,
            ProxyError::Upstream(_) | ProxyError::InvalidUpstream(_) => 502,
        }
    }

    /// The `error.type` of the JSON error body.
    pub open spec fn spec_error_type(&self) -> Seq<char> {
        match self {
            ProxyError::InvalidRequest(_) => "invalid_request_error"@,
            ProxyError::Unsupported(_) => "unsupported_feature_error"@,
            _ => "upstream_error"@,
        }
    }

    pub fn error_type(&self) -> (res: &'static str)
        ensures
            res@ == self.spec_error_type(),
    {
        match self {
            ProxyError::InvalidRequest(_) => "invalid_request_error",
            ProxyError::Unsupported(_) => "unsupported_feature_error",
            _ => "upstream_error",
        }
    }

    /// The human-readable message: a category prefix and the detail.
    pub open spec fn spec_message(&self) -> Seq<char> {
        match self {
            ProxyError::InvalidRequest(m) => "invalid Responses request: "@ + m@,
            ProxyError::Unsupported(m) => "unsupported Responses feature: "@ + m@,
            ProxyError::Upstream(m) => "upstream Chat Completions request failed: "@ + m@,
            ProxyError::UpstreamHttp { status_text, message, .. } =>
                "upstream Chat Completions returned HTTP "@ + status_text@ + ": "@ + message@,
            ProxyError::InvalidUpstream(m) => "upstream Chat Completions stream is invalid: "@
                + m@,
        }
    }

    pub fn message(&self) -> (res: String)
        ensures
            res@ == self.spec_message(),
            res@ == error_message(self@),
    {
        match self {
            ProxyError::InvalidRequest(m) => concat2("invalid Responses request: ", m.as_str()),
            ProxyError::Unsupported(m) => concat2("unsupported Responses feature: ", m.as_str()),
            ProxyError::Upstream(m) => concat2(
                "upstream Chat Completions request failed: ",
                m.as_str(),
            ),
            ProxyError::UpstreamHttp { status_text, message, .. } => {
                let mut s = String::from_str("upstream Chat Completions returned HTTP ");
                s.append(status_text.as_str());
                s.append(": ");
                s.append(message.as_str());
                s
            },
            ProxyError::InvalidUpstream(m) => concat2(
                "upstream Chat Completions stream is invalid: ",
                m.as_str(),
            ),
        }
    }
}

/// The human-readable message of an error value.
pub open spec fn error_message(e: ProxyErrorV) -> Seq<char> {
    match e {
        ProxyErrorV::InvalidRequest(m) => "invalid Responses request: "@ + m,
        ProxyErrorV::Unsupported(m) => "unsupported Responses feature: "@ + m,
        ProxyErrorV::Upstream(m) => "upstream Chat Completions request failed: "@ + m,
        ProxyErrorV::UpstreamHttp { status_text, message, .. } =>
            "upstream Chat Completions returned HTTP "@ + status_text + ": "@ + message,
        ProxyErrorV::InvalidUpstream(m) => "upstream Chat Completions stream is invalid: "@ + m,
    }
}

/// The value of a [`ProxyError`].
pub enum ProxyErrorV {
    InvalidRequest(Seq<char>),
    Unsupported(Seq<char>),
    Upstream(Seq<char>),
    UpstreamHttp { status: u16, status_text: Seq<char>, message: Seq<char> },
    InvalidUpstream(Seq<char>),
}

impl View for ProxyError {
    type V = ProxyErrorV;

    open spec fn view(&self) -> ProxyErrorV {
        match self {
            ProxyError::InvalidRequest(m) => ProxyErrorV::InvalidRequest(m@),
            ProxyError::Unsupported(m) => ProxyErrorV::Unsupported(m@),
            ProxyError::Upstream(m) => ProxyErrorV::Upstream(m@),
            ProxyError::UpstreamHttp { status, status_text, message } => ProxyErrorV::UpstreamHttp {
                status: *status,
                status_text: status_text@,
                message: message@,
            },
            ProxyError::InvalidUpstream(m) => ProxyErrorV::InvalidUpstream(m@),
        }
    }
}

}
