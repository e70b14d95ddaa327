//! Translates a Responses request into a Chat Completions request.
//!
//! The request is first held to the compatibility profile (controls that the
//! backend cannot honour are refused, never dropped), then its tools, history
//! and text controls are translated.

use crate::proxy::config::{BackendCapabilities, PromptCacheKeyPolicy, ReasoningContentPolicy};
use crate::proxy::error::{ProxyError, ProxyErrorV};
use crate::proxy::history::{compile_history, messages_view, spec_compile_history};
use crate::proxy::protocol::{
    ChatMessageV, ChatRequest, ChatTool, ChatToolV, ReasoningControls, ResponseFormat,
    ResponsesRequest, TextControls, ToolChoice,
};
use crate::proxy::tool_registry::{spec_from_responses_tools, RegistryV, ToolRegistry};
use crate::text::{
    chars_of, concat2, debug_str, debug_strings, opt_str_view, opt_string_view, str_debug, str_is,
    strings_debug, strings_view, trim, trim_chars,
};
use vstd::prelude::*;

verus! {

/// The one `include` entry the proxy accepts.
pub open spec fn accepted_include() -> Seq<char> {
    "reasoning.encrypted_content"@
}

/// The `include` entries the proxy does not support, in request order.
pub open spec fn unsupported_includes(entries: Seq<Seq<char>>) -> Seq<Seq<char>>
    decreases entries.len(),
{
    if entries.len() == 0 {
        Seq::empty()
    } else {
        let rest = unsupported_includes(entries.drop_last());
        if entries.last() == accepted_include() {
            rest
        } else {
            rest.push(entries.last())
        }
    }
}

/// Whether a string `tool_choice` is one Chat Completions shares.
pub open spec fn is_portable_tool_choice(choice: Seq<char>) -> bool {
    choice == "auto"@ || choice == "none"@ || choice == "required"@
}

pub open spec fn parallel_tool_calls_message() -> Seq<char> {
    "parallel_tool_calls=true; start the proxy with --supports-parallel-tool-calls or disable it in the model profile"@
}

pub open spec fn reasoning_effort_message() -> Seq<char> {
    "reasoning.effort; start the proxy with --supports-reasoning-effort or use a non-reasoning model profile"@
}

pub open spec fn structured_output_message() -> Seq<char> {
    "text.format; start the proxy with --supports-structured-output or disable output schemas"@
}

/// The checks on the reasoning controls, in order.
pub open spec fn spec_validate_reasoning(r: ReasoningControls, caps: BackendCapabilities) -> Result<
    (),
    ProxyErrorV,
> {
    if r.effort is Some && !caps.reasoning_effort {
        Err(ProxyErrorV::Unsupported(reasoning_effort_message()))
    } else if r.summary_json is Some && caps.reasoning_content != ReasoningContentPolicy::Plaintext {
        Err(ProxyErrorV::Unsupported("reasoning summaries"@))
    } else if r.context_json is Some {
        Err(ProxyErrorV::Unsupported("reasoning context replay controls"@))
    } else {
        Ok(())
    }
}

/// The request-level controls the compatibility profile accepts; the first
/// check that fails decides the error.
pub open spec fn spec_validate_request(r: ResponsesRequest, caps: BackendCapabilities) -> Result<
    (),
    ProxyErrorV,
> {
    if trim(r.model@).len() == 0 {
        Err(ProxyErrorV::InvalidRequest("model must not be empty"@))
    } else if !r.stream {
        Err(ProxyErrorV::Unsupported("stream=false is outside the Codex V1 compatibility profile"@))
    } else if r.tool_choice is Other {
        Err(ProxyErrorV::Unsupported("non-string tool_choice"@))
    } else if !is_portable_tool_choice(r.tool_choice->Named_0@) {
        Err(ProxyErrorV::Unsupported("tool_choice "@ + str_debug(r.tool_choice->Named_0@)))
    } else if r.parallel_tool_calls && !caps.parallel_tool_calls {
        Err(ProxyErrorV::Unsupported(parallel_tool_calls_message()))
    } else if r.stream_options_json is Some {
        Err(
            ProxyErrorV::Unsupported(
                "Responses stream_options (including concurrent reasoning summaries)"@,
            ),
        )
    } else if unsupported_includes(strings_view(r.include_entries@)).len() > 0 {
        Err(
            ProxyErrorV::Unsupported(
                "Responses include entries "@ + strings_debug(
                    unsupported_includes(strings_view(r.include_entries@)),
                ),
            ),
        )
    } else {
        match r.reasoning {
            Some(rc) => spec_validate_reasoning(rc, caps),
            None => Ok(()),
        }
    }
}

fn unsupported_include_entries(entries: &Vec<String>) -> (res: Vec<String>)
    ensures
        strings_view(res@) == unsupported_includes(strings_view(entries@)),
{
    let mut out: Vec<String> = Vec::new();
    let n = entries.len();
    let mut i: usize = 0;
    while i < n
        invariant
            n == entries@.len(),
            i <= n,
            strings_view(out@) == unsupported_includes(strings_view(entries@.subrange(0, i as int))),
        decreases n - i,
    {
        proof {
            assert(strings_view(entries@.subrange(0, i + 1)).drop_last() =~= strings_view(
                entries@.subrange(0, i as int),
            ));
        }
        if !str_is(entries[i].as_str(), "reasoning.encrypted_content") {
            proof {
                reveal_strlit("reasoning.encrypted_content");
            }
            out.push(entries[i].clone());
            assert(strings_view(out@) =~= unsupported_includes(
                strings_view(entries@.subrange(0, i as int)),
            ).push(entries@[i as int]@));
        }
        i += 1;
    }
    assert(entries@.subrange(0, n as int) =~= entries@);
    out
}

fn validate_reasoning(r: &ReasoningControls, caps: BackendCapabilities) -> (res: Result<(), ProxyError>)
    ensures
        match spec_validate_reasoning(*r, caps) {
            Ok(_) => res is Ok,
            Err(e) => res matches Err(err) && err@ == e,
        },
{
    if r.effort.is_some() && !caps.reasoning_effort {
        return Err(
            ProxyError::Unsupported(
                String::from_str(
                    "reasoning.effort; start the proxy with --supports-reasoning-effort or use a non-reasoning model profile",
                ),
            ),
        );
    }
    if r.summary_json.is_some() && caps.reasoning_content != ReasoningContentPolicy::Plaintext {
        return Err(ProxyError::Unsupported(String::from_str("reasoning summaries")));
    }
    if r.context_json.is_some() {
        return Err(ProxyError::Unsupported(String::from_str("reasoning context replay controls")));
    }
    Ok(())
}

/// Holds the request's controls to the compatibility profile.
pub fn validate_request_controls(request: &ResponsesRequest, caps: BackendCapabilities) -> (res:
    Result<(), ProxyError>)
    ensures
        match spec_validate_request(*request, caps) {
            Ok(_) => res is Ok,
            Err(e) => res matches Err(err) && err@ == e,
        },
{
    let model = trim_chars(&chars_of(request.model.as_str()));
    if model.len() == 0 {
        return Err(ProxyError::InvalidRequest(String::from_str("model must not be empty")));
    }
    if !request.stream {
        return Err(
            ProxyError::Unsupported(
                String::from_str("stream=false is outside the Codex V1 compatibility profile"),
            ),
        );
    }
    match &request.tool_choice {
        ToolChoice::Other(_) => {
            return Err(ProxyError::Unsupported(String::from_str("non-string tool_choice")));
        },
        ToolChoice::Named(choice) => {
            proof {
                reveal_strlit("auto");
                reveal_strlit("none");
                reveal_strlit("required");
            }
            if !(str_is(choice.as_str(), "auto") || str_is(choice.as_str(), "none") || str_is(
                choice.as_str(),
                "required",
            )) {
                return Err(
                    ProxyError::Unsupported(
                        concat2("tool_choice ", debug_str(choice.as_str()).as_str()),
                    ),
                );
            }
        },
    }
    if request.parallel_tool_calls && !caps.parallel_tool_calls {
        return Err(
            ProxyError::Unsupported(
                String::from_str(
                    "parallel_tool_calls=true; start the proxy with --supports-parallel-tool-calls or disable it in the model profile",
                ),
            ),
        );
    }
    if request.stream_options_json.is_some() {
        return Err(
            ProxyError::Unsupported(
                String::from_str(
                    "Responses stream_options (including concurrent reasoning summaries)",
                ),
            ),
        );
    }
    let unsupported = unsupported_include_entries(&request.include_entries);
    if unsupported.len() > 0 {
        return Err(
            ProxyError::Unsupported(
                concat2("Responses include entries ", debug_strings(&unsupported).as_str()),
            ),
        );
    }
    match &request.reasoning {
        Some(r) => validate_reasoning(r, caps),
        None => Ok(()),
    }
}

/// The value of a [`ResponseFormat`].
pub struct ResponseFormatV {
    pub name: Seq<char>,
    pub strict: bool,
    pub schema_json: Seq<char>,
}

impl View for ResponseFormat {
    type V = ResponseFormatV;

    open spec fn view(&self) -> ResponseFormatV {
        ResponseFormatV { name: self.name@, strict: self.strict, schema_json: self.schema_json@ }
    }
}

pub open spec fn opt_format_view(f: Option<ResponseFormat>) -> Option<ResponseFormatV> {
    match f {
        Some(v) => Some(v@),
        None => None,
    }
}

/// The Chat `response_format` of the `text` controls: only a JSON-schema
/// format, on a backend with structured output, and no verbosity.
pub open spec fn spec_text_controls(text: Option<TextControls>, caps: BackendCapabilities) -> Result<
    Option<ResponseFormatV>,
    ProxyErrorV,
> {
    match text {
        None => Ok(None),
        Some(t) => match t.verbosity {
            Some(v) => Err(ProxyErrorV::Unsupported("text.verbosity="@ + str_debug(v@))),
            None => match t.format {
                None => Ok(None),
                Some(f) => if !caps.structured_output {
                    Err(ProxyErrorV::Unsupported(structured_output_message()))
                } else if f.kind@ != "json_schema"@ {
                    Err(ProxyErrorV::Unsupported("text.format.type="@ + str_debug(f.kind@)))
                } else {
                    Ok(
                        Some(
                            ResponseFormatV {
                                name: f.name@,
                                strict: f.strict,
                                schema_json: f.schema_json@,
                            },
                        ),
                    )
                },
            },
        },
    }
}

/// Translates the `text` controls into a Chat `response_format`.
pub fn translate_text_controls(text: Option<TextControls>, caps: BackendCapabilities) -> (res: Result<
    Option<ResponseFormat>,
    ProxyError,
>)
    ensures
        match spec_text_controls(text, caps) {
            Ok(f) => res matches Ok(r) && opt_format_view(r) == f,
            Err(e) => res matches Err(err) && err@ == e,
        },
{
    let t = match text {
        None => return Ok(None),
        Some(t) => t,
    };
    if let Some(v) = &t.verbosity {
        return Err(ProxyError::Unsupported(concat2("text.verbosity=", debug_str(v.as_str()).as_str())));
    }
    let f = match t.format {
        None => return Ok(None),
        Some(f) => f,
    };
    if !caps.structured_output {
        return Err(
            ProxyError::Unsupported(
                String::from_str(
                    "text.format; start the proxy with --supports-structured-output or disable output schemas",
                ),
            ),
        );
    }
    proof {
        reveal_strlit("json_schema");
    }
    if !str_is(f.kind.as_str(), "json_schema") {
        return Err(
            ProxyError::Unsupported(concat2("text.format.type=", debug_str(f.kind.as_str()).as_str())),
        );
    }
    Ok(Some(ResponseFormat { name: f.name, strict: f.strict, schema_json: f.schema_json }))
}

/// The value of a [`ChatRequest`].
pub struct ChatRequestV {
    pub model: Seq<char>,
    pub messages: Seq<ChatMessageV>,
    pub tools: Option<Seq<ChatToolV>>,
    pub tool_choice: Seq<char>,
    pub parallel_tool_calls: bool,
    pub stream: bool,
    pub stream_options_include_usage: Option<bool>,
    pub response_format: Option<ResponseFormatV>,
    pub reasoning_effort: Option<Seq<char>>,
    pub prompt_cache_key: Option<Seq<char>>,
}

pub open spec fn opt_tools_view(t: Option<Vec<ChatTool>>) -> Option<Seq<ChatToolV>> {
    match t {
        Some(v) => Some(v@.map_values(|x: ChatTool| x@)),
        None => None,
    }
}

impl View for ChatRequest {
    type V = ChatRequestV;

    open spec fn view(&self) -> ChatRequestV {
        ChatRequestV {
            model: self.model@,
            messages: messages_view(self.messages@),
            tools: opt_tools_view(self.tools),
            tool_choice: self.tool_choice@,
            parallel_tool_calls: self.parallel_tool_calls,
            stream: self.stream,
            stream_options_include_usage: self.stream_options_include_usage,
            response_format: opt_format_view(self.response_format),
            reasoning_effort: opt_string_view(self.reasoning_effort),
            prompt_cache_key: opt_string_view(self.prompt_cache_key),
        }
    }
}

/// A translated request: the Chat request and the registry that restores
/// the tool names of the reply.
pub struct TranslatedRequest {
    pub chat: ChatRequest,
    pub tools: ToolRegistry,
}

/// The value of a [`TranslatedRequest`].
pub struct TranslatedRequestV {
    pub chat: ChatRequestV,
    pub tools: RegistryV,
}

pub open spec fn tool_choice_text(c: ToolChoice) -> Seq<char> {
    match c {
        ToolChoice::Named(s) => s@,
        ToolChoice::Other(j) => j@,
    }
}

/// The Chat request built from a request that passed every check.
pub open spec fn chat_request_of(
    r: ResponsesRequest,
    caps: BackendCapabilities,
    upstream_model: Option<Seq<char>>,
    tools: RegistryV,
    messages: Seq<ChatMessageV>,
    format: Option<ResponseFormatV>,
) -> ChatRequestV {
    ChatRequestV {
        model: match upstream_model {
            Some(m) => m,
            None => r.model@,
        },
        messages,
        tools: if tools.chat_tools.len() == 0 {
            None
        } else {
            Some(tools.chat_tools)
        },
        tool_choice: tool_choice_text(r.tool_choice),
        parallel_tool_calls: r.parallel_tool_calls,
        stream: caps.streaming,
        stream_options_include_usage: if caps.streaming {
            Some(true)
        } else {
            None
        },
        response_format: format,
        reasoning_effort: match r.reasoning {
            Some(rc) => opt_string_view(rc.effort),
            None => None,
        },
        prompt_cache_key: match caps.prompt_cache_key {
            PromptCacheKeyPolicy::Omit => None,
            PromptCacheKeyPolicy::Forward => opt_string_view(r.prompt_cache_key),
        },
    }
}

/// The translation of a whole request: the checks, then the tools, the
/// history and the text controls, each of which may refuse it.
pub open spec fn spec_translate_request(
    r: ResponsesRequest,
    caps: BackendCapabilities,
    upstream_model: Option<Seq<char>>,
) -> Result<TranslatedRequestV, ProxyErrorV> {
    match spec_validate_request(r, caps) {
        Err(e) => Err(e),
        Ok(_) => match spec_from_responses_tools(r.tools) {
            Err(e) => Err(e),
            Ok(tools) => match spec_compile_history(r.instructions@, r.input@, caps) {
                Err(e) => Err(e),
                Ok(messages) => match spec_text_controls(r.text, caps) {
                    Err(e) => Err(e),
                    Ok(format) => Ok(
                        TranslatedRequestV {
                            chat: chat_request_of(r, caps, upstream_model, tools, messages, format),
                            tools,
                        },
                    ),
                },
            },
        },
    }
}

/// Translates a Responses request for the backend; `upstream_model`, when
/// given, replaces the requested model.
pub fn translate_request(
    request: ResponsesRequest,
    caps: BackendCapabilities,
    upstream_model: Option<&str>,
) -> (res: Result<TranslatedRequest, ProxyError>)
    ensures
        match spec_translate_request(request, caps, opt_str_view(upstream_model)) {
            Ok(t) => res matches Ok(tr) && tr.chat@ == t.chat && tr.tools@ == t.tools && tr.tools.wf(),
            Err(e) => res matches Err(err) && err@ == e,
        },
{
    match validate_request_controls(&request, caps) {
        Ok(()) => {},
        Err(e) => return Err(e),
    }
    let tools = match ToolRegistry::from_responses_tools(&request.tools) {
        Ok(t) => t,
        Err(e) => return Err(e),
    };
    let ghost r = request;
    let ResponsesRequest {
        model,
        instructions,
        input,
        tool_choice,
        parallel_tool_calls,
        reasoning,
        prompt_cache_key,
        text,
        ..
    } = request;
    let messages = match compile_history(instructions, &input, &tools, caps) {
        Ok(m) => m,
        Err(e) => return Err(e),
    };
    let response_format = match translate_text_controls(text, caps) {
        Ok(f) => f,
        Err(e) => return Err(e),
    };
    let reasoning_effort = match reasoning {
        Some(rc) => rc.effort,
        None => None,
    };
    let prompt_cache_key = match caps.prompt_cache_key {
        PromptCacheKeyPolicy::Omit => None,
        PromptCacheKeyPolicy::Forward => prompt_cache_key,
    };
    let model = match upstream_model {
        Some(m) => String::from_str(m),
        None => model,
    };
    let tool_choice = match tool_choice {
        ToolChoice::Named(s) => s,
        ToolChoice::Other(j) => j,
    };
    let chat = ChatRequest {
        model,
        messages,
        tools: tools.chat_tools(),
        tool_choice,
        parallel_tool_calls,
        stream: caps.streaming,
        stream_options_include_usage: if caps.streaming {
            Some(true)
        } else {
            None
        },
        response_format,
        reasoning_effort,
        prompt_cache_key,
    };
    proof {
        assert(chat@.tools == chat_request_of(
            r,
            caps,
            opt_str_view(upstream_model),
            tools@,
            messages_view(chat.messages@),
            opt_format_view(chat.response_format),
        ).tools);
    }
    Ok(TranslatedRequest { chat, tools })
}

/// What a successful translation carries over from the request: the model
/// (or the upstream override), the named tool choice, parallel tool calls,
/// the requested reasoning effort, and the prompt cache key when the backend
/// takes it; it streams exactly when the backend does. A request is only
/// translated when it streams, and it asks for parallel tool calls or a
/// reasoning effort only where the backend declares them.
pub proof fn lemma_translation_carries_controls(
    r: ResponsesRequest,
    caps: BackendCapabilities,
    upstream_model: Option<Seq<char>>,
)
    requires
        spec_translate_request(r, caps, upstream_model) is Ok,
    ensures
        ({
            let chat = spec_translate_request(r, caps, upstream_model)->Ok_0.chat;
            &&& r.stream
            &&& chat.model == match upstream_model {
                Some(m) => m,
                None => r.model@,
            }
            &&& r.tool_choice matches ToolChoice::Named(n) && chat.tool_choice == n@
            &&& chat.parallel_tool_calls == r.parallel_tool_calls
            &&& r.parallel_tool_calls ==> caps.parallel_tool_calls
            &&& chat.stream == caps.streaming
            &&& chat.stream_options_include_usage == if caps.streaming {
                Some(true)
            } else {
                None
            }
            &&& match r.reasoning {
                Some(rc) => match rc.effort {
                    Some(e) => chat.reasoning_effort == Some(e@) && caps.reasoning_effort,
                    None => chat.reasoning_effort is None,
                },
                None => chat.reasoning_effort is None,
            }
            &&& match r.prompt_cache_key {
                Some(k) => chat.prompt_cache_key == if caps.prompt_cache_key == PromptCacheKeyPolicy::Forward {
                    Some(k@)
                } else {
                    None
                },
                None => chat.prompt_cache_key is None,
            }
        }),
{
}

} // verus!
