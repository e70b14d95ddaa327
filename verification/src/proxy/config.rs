//! What the Chat Completions backend is declared to support.

use vstd::prelude::*;

verus! {

/// Whether the prompt cache key of a request is forwarded upstream.
#[derive(Clone, Copy, Debug, PartialEq, Eq, Structural)]
pub enum PromptCacheKeyPolicy {
    Omit,
    Forward,
}

/// Whether the backend exchanges plaintext `reasoning_content`.
#[derive(Clone, Copy, Debug, PartialEq, Eq, Structural)]
pub enum ReasoningContentPolicy {
    Unsupported,
    Plaintext,
}

/// Features of the upstream Chat Completions backend, declared by the operator.
#[derive(Clone, Copy, Debug, PartialEq, Eq, Structural)]
pub struct BackendCapabilities {
    pub developer_role: bool,
    pub image_input: bool,
    /// Whether tool-call outputs may carry images (which also needs `image_input`).
    pub image_tool_output: bool,
    pub parallel_tool_calls: bool,
    pub prompt_cache_key: PromptCacheKeyPolicy,
    pub reasoning_content: ReasoningContentPolicy,
    pub reasoning_effort: bool,
    pub streaming: bool,
    pub structured_output: bool,
}

/// The conservative profile: only streaming is assumed.
pub open spec fn default_capabilities() -> BackendCapabilities {
    BackendCapabilities {
        developer_role: false,
        image_input: false,
        image_tool_output: false,
        parallel_tool_calls: false,
        prompt_cache_key: PromptCacheKeyPolicy::Omit,
        reasoning_content: ReasoningContentPolicy::Unsupported,
        reasoning_effort: false,
        streaming: true,
        structured_output: false,
    }
}

impl Default for BackendCapabilities {
    fn default() -> (res: Self)
        ensures
            res == default_capabilities(),
    {
        BackendCapabilities {
            developer_role: false,
            image_input: false,
            image_tool_output: false,
            parallel_tool_calls: false,
            prompt_cache_key: PromptCacheKeyPolicy::Omit,
            reasoning_content: ReasoningContentPolicy::Unsupported,
            reasoning_effort: false,
            streaming: true,
            structured_output: false,
        }
    }
}

/// The command-line switches that declare backend features.
#[derive(Clone, Copy, Debug, PartialEq, Eq, Structural)]
pub struct CapabilityFlags {
    pub disable_upstream_streaming: bool,
    pub supports_developer_role: bool,
    pub supports_image_input: bool,
    pub supports_image_tool_output: bool,
    pub supports_parallel_tool_calls: bool,
    pub forwards_prompt_cache_key: bool,
    pub supports_reasoning_content: bool,
    pub supports_reasoning_effort: bool,
    pub supports_structured_output: bool,
}

pub open spec fn spec_capabilities_from_flags(flags: CapabilityFlags) -> BackendCapabilities {
    BackendCapabilities {
        developer_role: flags.supports_developer_role,
        image_input: flags.supports_image_input,
        image_tool_output: flags.supports_image_tool_output,
        parallel_tool_calls: flags.supports_parallel_tool_calls,
        prompt_cache_key: if flags.forwards_prompt_cache_key {
            PromptCacheKeyPolicy::Forward
        } else {
            PromptCacheKeyPolicy::Omit
        },
        reasoning_content: if flags.supports_reasoning_content {
            ReasoningContentPolicy::Plaintext
        } else {
            ReasoningContentPolicy::Unsupported
        },
        reasoning_effort: flags.supports_reasoning_effort,
        streaming: !flags.disable_upstream_streaming,
        structured_output: flags.supports_structured_output,
    }
}

/// The capabilities that the command-line switches declare.
pub fn capabilities_from_flags(flags: CapabilityFlags) -> (res: BackendCapabilities)
    ensures
        res == spec_capabilities_from_flags(flags),
{
    BackendCapabilities {
        developer_role: flags.supports_developer_role,
        image_input: flags.supports_image_input,
        image_tool_output: flags.supports_image_tool_output,
        parallel_tool_calls: flags.supports_parallel_tool_calls,
        prompt_cache_key: if flags.forwards_prompt_cache_key {
            PromptCacheKeyPolicy::Forward
        } else {
            PromptCacheKeyPolicy::Omit
        },
        reasoning_content: if flags.supports_reasoning_content {
            ReasoningContentPolicy::Plaintext
        } else {
            ReasoningContentPolicy::Unsupported
        },
        reasoning_effort: flags.supports_reasoning_effort,
        streaming: !flags.disable_upstream_streaming,
        structured_output: flags.supports_structured_output,
    }
}

/// Why the proxy's credential settings were rejected.
#[derive(Clone, Copy, Debug, PartialEq, Eq, Structural)]
pub enum CredentialConflict {
    /// `--upstream-api-key-env` together with `--forward-inbound-authorization`.
    KeyEnvWithForwarding,
}

/// `value`, unless it is an empty string.
pub open spec fn nonempty(value: Option<String>) -> Option<String> {
    match value {
        Some(v) => if v@.len() == 0 {
            None
        } else {
            Some(v)
        },
        None => None,
    }
}

/// Decides the proxy-owned bearer credential: an API key read from the named
/// environment variable is never combined with forwarding the inbound
/// `Authorization` header, and an empty key counts as no key.
pub fn resolve_upstream_bearer(
    api_key_env_named: bool,
    forward_inbound_authorization: bool,
    env_value: Option<String>,
) -> (res: Result<Option<String>, CredentialConflict>)
    ensures
        api_key_env_named && forward_inbound_authorization ==> res == Err::<
            Option<String>,
            CredentialConflict,
        >(CredentialConflict::KeyEnvWithForwarding),
        !(api_key_env_named && forward_inbound_authorization) ==> res == Ok::<
            Option<String>,
            CredentialConflict,
        >(nonempty(env_value)),
{
    if api_key_env_named && forward_inbound_authorization {
        return Err(CredentialConflict::KeyEnvWithForwarding);
    }
    match env_value {
        Some(v) => if v.as_str().is_empty() {
            Ok(None)
        } else {
            Ok(Some(v))
        },
        None => Ok(None),
    }
}

}
