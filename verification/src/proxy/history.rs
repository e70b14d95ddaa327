//! Compiles the Responses `input` history into Chat Completions messages.
//!
//! Consecutive assistant output (text, plaintext reasoning and tool calls) is
//! merged into one Chat assistant message; every tool call must be answered by
//! exactly one output of the same kind before the next message and before the
//! end of the request.

use crate::json::{encode_string_object, json_string_object};
use crate::proxy::config::{BackendCapabilities, ReasoningContentPolicy};
use crate::proxy::error::{ProxyError, ProxyErrorV};
use crate::proxy::protocol::{
    AgentMessageContent, ChatContentPart, ChatContentPartV, ChatMessage, ChatMessageV,
    ChatToolCall, ChatToolCallV, ContentItem, FunctionCallOutputBody, InputItem,
    ReasoningItemContent, ToolOutputPart, UserContent, UserContentV,
};
use crate::proxy::tool_registry::{spec_safe_name, ToolIdentity, ToolIdentityV, ToolKind, ToolRegistry};
use crate::text::{
    concat2, concat3, debug_str, join_strings, join_with, opt_string_view, sort_string_vec,
    sort_strings, str_debug, str_is, strings_view,
};
use vstd::prelude::*;

verus! {

/// Whether a history call is a function call or a freeform tool call.
#[derive(Clone, Copy, Debug, PartialEq, Eq, Structural)]
pub enum HistoryCallKind {
    Function,
    Custom,
}

/// A tool call seen in the history, and whether its output was seen yet.
pub struct CallV {
    pub id: Seq<char>,
    pub kind: HistoryCallKind,
    pub has_output: bool,
}

/// Assistant output not yet written as a Chat message.
pub struct PendingV {
    pub reasoning: Seq<Seq<char>>,
    pub text: Seq<Seq<char>>,
    pub tool_calls: Seq<ChatToolCallV>,
}

/// The state of the compilation after a prefix of the history.
pub struct HistoryV {
    pub messages: Seq<ChatMessageV>,
    pub pending: PendingV,
    pub calls: Seq<CallV>,
}

pub open spec fn empty_pending() -> PendingV {
    PendingV { reasoning: Seq::empty(), text: Seq::empty(), tool_calls: Seq::empty() }
}

pub open spec fn pending_is_empty(p: PendingV) -> bool {
    p.reasoning.len() == 0 && p.text.len() == 0 && p.tool_calls.len() == 0
}

pub open spec fn joined_or_none(parts: Seq<Seq<char>>) -> Option<Seq<char>> {
    if parts.len() == 0 {
        None
    } else {
        Some(join_with(parts, Seq::empty()))
    }
}

/// Writes the pending assistant output as one Chat assistant message, if any.
pub open spec fn spec_flush(s: HistoryV) -> HistoryV {
    if pending_is_empty(s.pending) {
        s
    } else {
        HistoryV {
            messages: s.messages.push(
                ChatMessageV::Assistant {
                    content: joined_or_none(s.pending.text),
                    reasoning_content: joined_or_none(s.pending.reasoning),
                    tool_calls: s.pending.tool_calls,
                },
            ),
            pending: empty_pending(),
            calls: s.calls,
        }
    }
}

/// Instructions and developer/system messages: a `developer` message when the
/// backend accepts that role, otherwise a `system` message.
pub open spec fn control_message(content: Seq<char>, caps: BackendCapabilities) -> ChatMessageV {
    if caps.developer_role {
        ChatMessageV::Developer(content)
    } else {
        ChatMessageV::System(content)
    }
}

/// Index of the call with this ID, or -1.
pub open spec fn call_index(calls: Seq<CallV>, id: Seq<char>) -> int
    decreases calls.len(),
{
    if calls.len() == 0 {
        -1
    } else if calls[0].id == id {
        0
    } else {
        let k = call_index(calls.drop_first(), id);
        if k < 0 {
            -1
        } else {
            k + 1
        }
    }
}

pub open spec fn spec_register_call(calls: Seq<CallV>, id: Seq<char>, kind: HistoryCallKind) -> Result<
    Seq<CallV>,
    ProxyErrorV,
> {
    if id.len() == 0 {
        Err(ProxyErrorV::InvalidRequest("tool call has an empty call_id"@))
    } else if call_index(calls, id) >= 0 {
        Err(ProxyErrorV::InvalidRequest("duplicate tool call ID "@ + str_debug(id)))
    } else {
        Ok(calls.push(CallV { id: id, kind: kind, has_output: false }))
    }
}

pub open spec fn spec_resolve_call(calls: Seq<CallV>, id: Seq<char>, kind: HistoryCallKind) -> Result<
    Seq<CallV>,
    ProxyErrorV,
> {
    let k = call_index(calls, id);
    if k < 0 {
        Err(ProxyErrorV::InvalidRequest("tool output refers to unknown call ID "@ + str_debug(id)))
    } else if calls[k].kind != kind {
        Err(ProxyErrorV::InvalidRequest("tool output kind does not match call ID "@ + str_debug(id)))
    } else if calls[k].has_output {
        Err(
            ProxyErrorV::InvalidRequest(
                "tool call ID "@ + str_debug(id) + " has more than one output"@,
            ),
        )
    } else {
        Ok(calls.update(k, CallV { id: calls[k].id, kind: calls[k].kind, has_output: true }))
    }
}

/// IDs of the calls without output, in the order they were made.
pub open spec fn unresolved_ids(calls: Seq<CallV>) -> Seq<Seq<char>>
    decreases calls.len(),
{
    if calls.len() == 0 {
        Seq::empty()
    } else if calls.last().has_output {
        unresolved_ids(calls.drop_last())
    } else {
        unresolved_ids(calls.drop_last()).push(calls.last().id)
    }
}

/// Fails, naming the unanswered calls in sorted order, when a call has no output
/// before `next`.
pub open spec fn spec_ensure_resolved(calls: Seq<CallV>, next: Seq<char>) -> Result<(), ProxyErrorV> {
    let unresolved = sort_strings(unresolved_ids(calls));
    if unresolved.len() == 0 {
        Ok(())
    } else {
        Err(
            ProxyErrorV::InvalidRequest(
                "unresolved tool calls before "@ + next + ": "@ + join_with(unresolved, ", "@),
            ),
        )
    }
}

pub open spec fn image_input_message() -> Seq<char> {
    "image input; start the proxy with --supports-image-input or use text-only input"@
}

/// The Chat parts of a user message, and whether one is an image.
pub open spec fn user_parts(content: Seq<ContentItem>, caps: BackendCapabilities) -> Result<
    (Seq<ChatContentPartV>, bool),
    ProxyErrorV,
>
    decreases content.len(),
{
    if content.len() == 0 {
        Ok((Seq::empty(), false))
    } else {
        match user_parts(content.drop_last(), caps) {
            Err(e) => Err(e),
            Ok((parts, image)) => match content.last() {
                ContentItem::InputText { text } => Ok((parts.push(ChatContentPartV::Text(text@)), image)),
                ContentItem::OutputText { text } => Ok((parts.push(ChatContentPartV::Text(text@)), image)),
                ContentItem::InputImage { image_url, detail } => if !caps.image_input {
                    Err(ProxyErrorV::Unsupported(image_input_message()))
                } else {
                    Ok((parts.push(ChatContentPartV::ImageUrl { url: image_url@, detail: detail }), true))
                },
                ContentItem::InputAudio => Err(ProxyErrorV::Unsupported("audio input"@)),
            },
        }
    }
}

pub open spec fn part_text(p: ChatContentPartV) -> Seq<char> {
    match p {
        ChatContentPartV::Text(t) => t,
        ChatContentPartV::ImageUrl { .. } => Seq::empty(),
    }
}

/// A user message: a plain string when it is one text part, otherwise parts.
pub open spec fn spec_user_content(content: Seq<ContentItem>, caps: BackendCapabilities) -> Result<
    UserContentV,
    ProxyErrorV,
> {
    match user_parts(content, caps) {
        Err(e) => Err(e),
        Ok((parts, image)) => if !image && parts.len() == 1 {
            Ok(UserContentV::Text(part_text(parts[0])))
        } else {
            Ok(UserContentV::Parts(parts))
        },
    }
}

/// The text parts of a developer or system message, which may hold only text.
pub open spec fn text_parts(content: Seq<ContentItem>, role: Seq<char>) -> Result<Seq<Seq<char>>, ProxyErrorV>
    decreases content.len(),
{
    if content.len() == 0 {
        Ok(Seq::empty())
    } else {
        match text_parts(content.drop_last(), role) {
            Err(e) => Err(e),
            Ok(parts) => match content.last() {
                ContentItem::InputText { text } => Ok(parts.push(text@)),
                ContentItem::OutputText { text } => Ok(parts.push(text@)),
                ContentItem::InputImage { .. } => Err(
                    ProxyErrorV::Unsupported("image content in a "@ + role + " message"@),
                ),
                ContentItem::InputAudio => Err(
                    ProxyErrorV::Unsupported("audio content in a "@ + role + " message"@),
                ),
            },
        }
    }
}

/// The text parts of an assistant message, which may hold only text.
pub open spec fn assistant_parts(content: Seq<ContentItem>) -> Result<Seq<Seq<char>>, ProxyErrorV>
    decreases content.len(),
{
    if content.len() == 0 {
        Ok(Seq::empty())
    } else {
        match assistant_parts(content.drop_last()) {
            Err(e) => Err(e),
            Ok(parts) => match content.last() {
                ContentItem::InputText { text } => Ok(parts.push(text@)),
                ContentItem::OutputText { text } => Ok(parts.push(text@)),
                ContentItem::InputImage { .. } => Err(
                    ProxyErrorV::Unsupported("image content in an assistant message"@),
                ),
                ContentItem::InputAudio => Err(
                    ProxyErrorV::Unsupported("audio content in an assistant message"@),
                ),
            },
        }
    }
}

/// The plaintext of a reasoning item; legacy `text` content is refused.
pub open spec fn reasoning_text(content: Seq<ReasoningItemContent>) -> Result<Seq<char>, ProxyErrorV>
    decreases content.len(),
{
    if content.len() == 0 {
        Ok(Seq::empty())
    } else {
        match reasoning_text(content.drop_last()) {
            Err(e) => Err(e),
            Ok(t) => match content.last() {
                ReasoningItemContent::ReasoningText { text } => Ok(t + text@),
                ReasoningItemContent::Text { .. } => Err(
                    ProxyErrorV::Unsupported("reasoning history with legacy text content"@),
                ),
            },
        }
    }
}

pub open spec fn opt_reasoning_text(content: Option<Vec<ReasoningItemContent>>) -> Result<
    Seq<char>,
    ProxyErrorV,
> {
    match content {
        Some(c) => reasoning_text(c@),
        None => Ok(Seq::empty()),
    }
}

/// The concatenated text parts of an inter-agent message.
pub open spec fn agent_text(content: Seq<AgentMessageContent>) -> Seq<char>
    decreases content.len(),
{
    if content.len() == 0 {
        Seq::empty()
    } else {
        agent_text(content.drop_last()) + match content.last() {
            AgentMessageContent::Text { text } => text@,
            AgentMessageContent::Encrypted => Seq::empty(),
        }
    }
}

pub open spec fn agent_has_encrypted(content: Seq<AgentMessageContent>) -> bool {
    exists|i: int| 0 <= i < content.len() && content[i] is Encrypted
}

pub open spec fn plaintext_reasoning_message() -> Seq<char> {
    "plaintext reasoning history; start the proxy with --supports-reasoning-content or use a profile that enables it"@
}

pub open spec fn image_tool_output_message() -> Seq<char> {
    "image tool-call output; start the proxy with --supports-image-input and --supports-image-tool-output or use a profile that enables them"@
}

/// The parts of a structured tool output as message content, its text
/// parts, and whether one is an image. Images need `image_tool_output`;
/// audio and encrypted parts are refused, never dropped.
pub open spec fn tool_parts(items: Seq<ToolOutputPart>, caps: BackendCapabilities) -> Result<
    (Seq<ContentItem>, Seq<Seq<char>>, bool),
    ProxyErrorV,
>
    decreases items.len(),
{
    if items.len() == 0 {
        Ok((Seq::empty(), Seq::empty(), false))
    } else {
        match tool_parts(items.drop_last(), caps) {
            Err(e) => Err(e),
            Ok((content, texts, image)) => match items.last() {
                ToolOutputPart::InputText { text } => Ok(
                    (content.push(ContentItem::InputText { text }), texts.push(text@), image),
                ),
                ToolOutputPart::InputImage { image_url, detail } => if !caps.image_tool_output {
                    Err(ProxyErrorV::Unsupported(image_tool_output_message()))
                } else {
                    Ok((content.push(ContentItem::InputImage { image_url, detail }), texts, true))
                },
                ToolOutputPart::InputAudio => Err(ProxyErrorV::Unsupported("audio tool-call output"@)),
                ToolOutputPart::Encrypted => Err(
                    ProxyErrorV::Unsupported("encrypted tool-call output"@),
                ),
            },
        }
    }
}

/// The content of the Chat tool message for a tool output: text as it is; a
/// structured output with an image becomes ordered parts as a user message's
/// would (so images also need `image_input`); a text-only one becomes its
/// text parts joined by newlines.
pub open spec fn spec_tool_content(output: FunctionCallOutputBody, caps: BackendCapabilities) -> Result<
    UserContentV,
    ProxyErrorV,
> {
    match output {
        FunctionCallOutputBody::Text(t) => Ok(UserContentV::Text(t@)),
        FunctionCallOutputBody::ContentItems(items) => match tool_parts(items@, caps) {
            Err(e) => Err(e),
            Ok((content, texts, image)) => if image {
                spec_user_content(content, caps)
            } else {
                Ok(UserContentV::Text(join_with(texts, "\n"@)))
            },
        },
    }
}

/// Answers a tool call with its output: the pending assistant output is written
/// first, then a Chat tool message.
pub open spec fn spec_push_tool_output(
    s: HistoryV,
    call_id: Seq<char>,
    output: FunctionCallOutputBody,
    caps: BackendCapabilities,
) -> Result<HistoryV, ProxyErrorV> {
    let f = spec_flush(s);
    match spec_tool_content(output, caps) {
        Err(e) => Err(e),
        Ok(content) => Ok(
            HistoryV {
                messages: f.messages.push(ChatMessageV::Tool { tool_call_id: call_id, content: content }),
                pending: f.pending,
                calls: f.calls,
            },
        ),
    }
}

pub open spec fn with_calls(s: HistoryV, calls: Seq<CallV>) -> HistoryV {
    HistoryV { messages: s.messages, pending: s.pending, calls: calls }
}

pub open spec fn with_pending(s: HistoryV, p: PendingV) -> HistoryV {
    HistoryV { messages: s.messages, pending: p, calls: s.calls }
}

pub open spec fn push_message(s: HistoryV, m: ChatMessageV) -> HistoryV {
    HistoryV { messages: s.messages.push(m), pending: s.pending, calls: s.calls }
}

pub open spec fn push_tool_call(s: HistoryV, c: ChatToolCallV) -> HistoryV {
    with_pending(
        s,
        PendingV { reasoning: s.pending.reasoning, text: s.pending.text, tool_calls: s.pending.tool_calls.push(c) },
    )
}

pub open spec fn opt_view_or_empty(s: Option<String>) -> Seq<char> {
    match s {
        Some(v) => v@,
        None => Seq::empty(),
    }
}

/// Compiles one input item.
pub open spec fn spec_step(s: HistoryV, item: InputItem, caps: BackendCapabilities) -> Result<
    HistoryV,
    ProxyErrorV,
> {
    match item {
        InputItem::MissingType => Err(ProxyErrorV::InvalidRequest("input item is missing a string type"@)),
        InputItem::UnsupportedType { item_type } => Err(
            ProxyErrorV::Unsupported("input item type "@ + str_debug(item_type@)),
        ),
        InputItem::Malformed { item_type, error } => Err(
            ProxyErrorV::InvalidRequest("invalid "@ + item_type@ + " input item: "@ + error@),
        ),
        InputItem::Message { role, content } => if role@ == "assistant"@ {
            match spec_ensure_resolved(s.calls, "an assistant message"@) {
                Err(e) => Err(e),
                Ok(_) => match assistant_parts(content@) {
                    Err(e) => Err(e),
                    Ok(parts) => Ok(
                        with_pending(
                            s,
                            PendingV {
                                reasoning: s.pending.reasoning,
                                text: s.pending.text + parts,
                                tool_calls: s.pending.tool_calls,
                            },
                        ),
                    ),
                },
            }
        } else if role@ == "user"@ {
            match spec_ensure_resolved(s.calls, "a user message"@) {
                Err(e) => Err(e),
                Ok(_) => match spec_user_content(content@, caps) {
                    Err(e) => Err(e),
                    Ok(c) => Ok(push_message(spec_flush(s), ChatMessageV::User(c))),
                },
            }
        } else if role@ == "developer"@ || role@ == "system"@ {
            match spec_ensure_resolved(s.calls, "a control message"@) {
                Err(e) => Err(e),
                Ok(_) => match text_parts(content@, role@) {
                    Err(e) => Err(e),
                    Ok(parts) => Ok(
                        push_message(spec_flush(s), control_message(join_with(parts, Seq::empty()), caps)),
                    ),
                },
            }
        } else {
            Err(ProxyErrorV::Unsupported("message role "@ + str_debug(role@)))
        },
        InputItem::AgentMessage { author, recipient, content } => match spec_ensure_resolved(
            s.calls,
            "an agent message"@,
        ) {
            Err(e) => Err(e),
            Ok(_) => if agent_has_encrypted(content@) {
                Err(ProxyErrorV::Unsupported("encrypted agent_message content"@))
            } else if agent_text(content@).len() == 0 {
                Ok(spec_flush(s))
            } else {
                Ok(
                    push_message(
                        spec_flush(s),
                        control_message(
                            "[Agent message from "@ + author@ + " to "@ + recipient@ + "]\n"@
                                + agent_text(content@),
                            caps,
                        ),
                    ),
                )
            },
        },
        InputItem::Reasoning { summary_is_empty, content, has_encrypted_content } => if has_encrypted_content {
            Err(ProxyErrorV::Unsupported("encrypted reasoning history"@))
        } else if !summary_is_empty {
            Err(ProxyErrorV::Unsupported("reasoning summary history"@))
        } else {
            match opt_reasoning_text(content) {
                Err(e) => Err(e),
                Ok(r) => if r.len() == 0 {
                    Ok(s)
                } else if caps.reasoning_content != ReasoningContentPolicy::Plaintext {
                    Err(ProxyErrorV::Unsupported(plaintext_reasoning_message()))
                } else {
                    let f = if s.pending.text.len() > 0 || s.pending.tool_calls.len() > 0 {
                        spec_flush(s)
                    } else {
                        s
                    };
                    Ok(
                        with_pending(
                            f,
                            PendingV {
                                reasoning: f.pending.reasoning.push(r),
                                text: f.pending.text,
                                tool_calls: f.pending.tool_calls,
                            },
                        ),
                    )
                },
            }
        },
        InputItem::FunctionCall { name, namespace, arguments, call_id } => match spec_register_call(
            s.calls,
            call_id@,
            HistoryCallKind::Function,
        ) {
            Err(e) => Err(e),
            Ok(calls) => Ok(
                push_tool_call(
                    with_calls(s, calls),
                    ChatToolCallV {
                        id: call_id@,
                        name: spec_safe_name(
                            ToolIdentityV { kind: ToolKind::Function, namespace: opt_string_view(namespace), name: name@ },
                        ),
                        arguments: arguments@,
                    },
                ),
            ),
        },
        InputItem::CustomToolCall { name, namespace, input, call_id } => match spec_register_call(
            s.calls,
            call_id@,
            HistoryCallKind::Custom,
        ) {
            Err(e) => Err(e),
            Ok(calls) => Ok(
                push_tool_call(
                    with_calls(s, calls),
                    ChatToolCallV {
                        id: call_id@,
                        name: spec_safe_name(
                            ToolIdentityV { kind: ToolKind::Custom, namespace: opt_string_view(namespace), name: name@ },
                        ),
                        arguments: json_string_object("input"@, input@),
                    },
                ),
            ),
        },
        InputItem::FunctionCallOutput { call_id, output } => match call_id {
            None => Err(ProxyErrorV::Unsupported("function call output history without call_id"@)),
            Some(id) => match spec_resolve_call(s.calls, id@, HistoryCallKind::Function) {
                Err(e) => Err(e),
                Ok(calls) => spec_push_tool_output(with_calls(s, calls), id@, output, caps),
            },
        },
        InputItem::CustomToolCallOutput { call_id, output } => match spec_resolve_call(
            s.calls,
            call_id@,
            HistoryCallKind::Custom,
        ) {
            Err(e) => Err(e),
            Ok(calls) => spec_push_tool_output(with_calls(s, calls), call_id@, output, caps),
        },
    }
}

/// Compiles the items in order, stopping at the first error.
pub open spec fn spec_steps(s: HistoryV, items: Seq<InputItem>, caps: BackendCapabilities) -> Result<
    HistoryV,
    ProxyErrorV,
>
    decreases items.len(),
{
    if items.len() == 0 {
        Ok(s)
    } else {
        match spec_step(s, items[0], caps) {
            Err(e) => Err(e),
            Ok(s2) => spec_steps(s2, items.drop_first(), caps),
        }
    }
}

pub open spec fn initial_history(instructions: Seq<char>, caps: BackendCapabilities) -> HistoryV {
    HistoryV {
        messages: if instructions.len() > 0 {
            seq![control_message(instructions, caps)]
        } else {
            Seq::empty()
        },
        pending: empty_pending(),
        calls: Seq::empty(),
    }
}

/// The Chat messages of a request history: the instructions as a control
/// message, then the items compiled in order; every call must be answered.
pub open spec fn spec_compile_history(
    instructions: Seq<char>,
    input: Seq<InputItem>,
    caps: BackendCapabilities,
) -> Result<Seq<ChatMessageV>, ProxyErrorV> {
    match spec_steps(initial_history(instructions, caps), input, caps) {
        Err(e) => Err(e),
        Ok(s) => match spec_ensure_resolved(s.calls, "the end of the request"@) {
            Err(e) => Err(e),
            Ok(_) => Ok(spec_flush(s).messages),
        },
    }
}


struct PendingAssistant {
    reasoning_content: Vec<String>,
    text: Vec<String>,
    tool_calls: Vec<ChatToolCall>,
}

struct HistoryCall {
    call_id: String,
    kind: HistoryCallKind,
    has_output: bool,
}

struct HistoryState {
    messages: Vec<ChatMessage>,
    assistant: PendingAssistant,
    calls: Vec<HistoryCall>,
}

spec fn call_view(c: HistoryCall) -> CallV {
    CallV { id: c.call_id@, kind: c.kind, has_output: c.has_output }
}

spec fn calls_view(v: Seq<HistoryCall>) -> Seq<CallV> {
    v.map_values(|c: HistoryCall| call_view(c))
}

pub open spec fn messages_view(v: Seq<ChatMessage>) -> Seq<ChatMessageV> {
    v.map_values(|m: ChatMessage| m@)
}

spec fn tool_calls_view(v: Seq<ChatToolCall>) -> Seq<ChatToolCallV> {
    v.map_values(|c: ChatToolCall| c@)
}

spec fn pending_view(p: PendingAssistant) -> PendingV {
    PendingV {
        reasoning: strings_view(p.reasoning_content@),
        text: strings_view(p.text@),
        tool_calls: tool_calls_view(p.tool_calls@),
    }
}

spec fn state_view(st: HistoryState) -> HistoryV {
    HistoryV {
        messages: messages_view(st.messages@),
        pending: pending_view(st.assistant),
        calls: calls_view(st.calls@),
    }
}

/// Relates an operation's outcome to its specification.
pub open spec fn history_outcome(
    res: Result<(), ProxyError>,
    after: HistoryV,
    expected: Result<HistoryV, ProxyErrorV>,
) -> bool {
    match expected {
        Ok(v) => res is Ok && after == v,
        Err(e) => res matches Err(err) && err@ == e,
    }
}

fn push_message_vec(v: &mut Vec<ChatMessage>, m: ChatMessage)
    ensures
        messages_view(final(v)@) == messages_view(old(v)@).push(m@),
{
    v.push(m);
    assert(messages_view(v@) =~= messages_view(old(v)@).push(m@));
}

fn joined_or_none_exec(parts: &Vec<String>) -> (res: Option<String>)
    ensures
        opt_string_view(res) == joined_or_none(strings_view(parts@)),
{
    if parts.len() == 0 {
        None
    } else {
        proof {
            reveal_strlit("");
        }
        assert(""@ =~= Seq::<char>::empty());
        Some(join_strings(parts, ""))
    }
}

fn flush(st: &mut HistoryState)
    ensures
        state_view(*final(st)) == spec_flush(state_view(*old(st))),
{
    if st.assistant.reasoning_content.len() == 0 && st.assistant.text.len() == 0
        && st.assistant.tool_calls.len() == 0 {
        return ;
    }
    let content = joined_or_none_exec(&st.assistant.text);
    let reasoning_content = joined_or_none_exec(&st.assistant.reasoning_content);
    let mut tool_calls: Vec<ChatToolCall> = Vec::new();
    std::mem::swap(&mut tool_calls, &mut st.assistant.tool_calls);
    let ghost old_calls = tool_calls@;
    push_message_vec(
        &mut st.messages,
        ChatMessage::Assistant { content, reasoning_content, tool_calls },
    );
    st.assistant.reasoning_content = Vec::new();
    st.assistant.text = Vec::new();
    proof {
        assert(strings_view(st.assistant.reasoning_content@) =~= Seq::<Seq<char>>::empty());
        assert(strings_view(st.assistant.text@) =~= Seq::<Seq<char>>::empty());
        assert(tool_calls_view(st.assistant.tool_calls@) =~= Seq::<ChatToolCallV>::empty());
    }
}

fn control_message_exec(content: String, caps: BackendCapabilities) -> (res: ChatMessage)
    ensures
        res@ == control_message(content@, caps),
{
    if caps.developer_role {
        ChatMessage::Developer { content }
    } else {
        ChatMessage::System { content }
    }
}

fn find_call(calls: &Vec<HistoryCall>, id: &str) -> (res: Option<usize>)
    ensures
        match res {
            Some(k) => call_index(calls_view(calls@), id@) == k && k < calls@.len(),
            None => call_index(calls_view(calls@), id@) < 0,
        },
{
    let ghost cv = calls_view(calls@);
    let n = calls.len();
    let mut i: usize = 0;
    assert(cv.subrange(0, n as int) =~= cv);
    while i < n
        invariant
            n == calls@.len(),
            cv == calls_view(calls@),
            i <= n,
            forall|j: int| 0 <= j < i ==> (#[trigger] cv[j]).id != id@,
        decreases n - i,
    {
        assert(cv[i as int] == call_view(calls@[i as int]));
        if str_is(calls[i].call_id.as_str(), id) {
            proof {
                lemma_call_index_first(cv, id@, i as int);
            }
            return Some(i);
        }
        i += 1;
    }
    proof {
        lemma_call_index_absent(cv, id@);
    }
    None
}

pub(crate) proof fn lemma_call_index_first(calls: Seq<CallV>, id: Seq<char>, k: int)
    requires
        0 <= k < calls.len(),
        calls[k].id == id,
        forall|j: int| 0 <= j < k ==> (#[trigger] calls[j]).id != id,
    ensures
        call_index(calls, id) == k,
    decreases k,
{
    if k > 0 {
        assert forall|j: int| 0 <= j < k - 1 implies (#[trigger] calls.drop_first()[j]).id != id by {
            assert(calls.drop_first()[j] == calls[j + 1]);
        }
        lemma_call_index_first(calls.drop_first(), id, k - 1);
    }
}

pub(crate) proof fn lemma_call_index_absent(calls: Seq<CallV>, id: Seq<char>)
    requires
        forall|j: int| 0 <= j < calls.len() ==> (#[trigger] calls[j]).id != id,
    ensures
        call_index(calls, id) < 0,
    decreases calls.len(),
{
    if calls.len() > 0 {
        assert(calls[0].id != id);
        assert forall|j: int| 0 <= j < calls.len() - 1 implies (#[trigger] calls.drop_first()[j]).id
            != id by {
            assert(calls.drop_first()[j] == calls[j + 1]);
        }
        lemma_call_index_absent(calls.drop_first(), id);
    }
}

fn register_call(calls: &mut Vec<HistoryCall>, call_id: &str, kind: HistoryCallKind) -> (res: Result<
    (),
    ProxyError,
>)
    ensures
        match spec_register_call(calls_view(old(calls)@), call_id@, kind) {
            Ok(c) => res is Ok && calls_view(final(calls)@) == c,
            Err(e) => res matches Err(err) && err@ == e,
        },
{
    if call_id.is_empty() {
        return Err(ProxyError::InvalidRequest(String::from_str("tool call has an empty call_id")));
    }
    if find_call(calls, call_id).is_some() {
        return Err(
            ProxyError::InvalidRequest(concat2("duplicate tool call ID ", debug_str(call_id).as_str())),
        );
    }
    let ghost before = calls@;
    calls.push(HistoryCall { call_id: String::from_str(call_id), kind, has_output: false });
    assert(calls_view(calls@) =~= calls_view(before).push(
        CallV { id: call_id@, kind: kind, has_output: false },
    ));
    Ok(())
}

fn resolve_call(calls: &mut Vec<HistoryCall>, call_id: &str, kind: HistoryCallKind) -> (res: Result<
    (),
    ProxyError,
>)
    ensures
        match spec_resolve_call(calls_view(old(calls)@), call_id@, kind) {
            Ok(c) => res is Ok && calls_view(final(calls)@) == c,
            Err(e) => res matches Err(err) && err@ == e,
        },
{
    let ghost cv = calls_view(calls@);
    let k = match find_call(calls, call_id) {
        Some(k) => k,
        None => {
            return Err(
                ProxyError::InvalidRequest(
                    concat2("tool output refers to unknown call ID ", debug_str(call_id).as_str()),
                ),
            );
        },
    };
    assert(cv[k as int] == call_view(calls@[k as int]));
    if calls[k].kind != kind {
        return Err(
            ProxyError::InvalidRequest(
                concat2("tool output kind does not match call ID ", debug_str(call_id).as_str()),
            ),
        );
    }
    if calls[k].has_output {
        return Err(
            ProxyError::InvalidRequest(
                concat3("tool call ID ", debug_str(call_id).as_str(), " has more than one output"),
            ),
        );
    }
    let updated = HistoryCall { call_id: calls[k].call_id.clone(), kind: calls[k].kind, has_output: true };
    calls.set(k, updated);
    assert(calls_view(calls@) =~= cv.update(
        k as int,
        CallV { id: cv[k as int].id, kind: cv[k as int].kind, has_output: true },
    ));
    Ok(())
}

fn ensure_no_unresolved_calls(calls: &Vec<HistoryCall>, next: &str) -> (res: Result<(), ProxyError>)
    ensures
        match spec_ensure_resolved(calls_view(calls@), next@) {
            Ok(_) => res is Ok,
            Err(e) => res matches Err(err) && err@ == e,
        },
{
    let ghost cv = calls_view(calls@);
    let n = calls.len();
    let mut unresolved: Vec<String> = Vec::new();
    let mut i: usize = 0;
    while i < n
        invariant
            n == calls@.len(),
            cv == calls_view(calls@),
            i <= n,
            strings_view(unresolved@) == unresolved_ids(cv.subrange(0, i as int)),
        decreases n - i,
    {
        proof {
            let t = cv.subrange(0, i + 1);
            assert(t.drop_last() =~= cv.subrange(0, i as int));
            assert(t.last() == call_view(calls@[i as int]));
        }
        if !calls[i].has_output {
            let ghost before = unresolved@;
            unresolved.push(calls[i].call_id.clone());
            assert(strings_view(unresolved@) =~= strings_view(before).push(calls@[i as int].call_id@));
        }
        i += 1;
    }
    assert(cv.subrange(0, n as int) =~= cv);
    let sorted = sort_string_vec(unresolved);
    if sorted.len() == 0 {
        return Ok(());
    }
    let mut msg = String::from_str("unresolved tool calls before ");
    msg.append(next);
    msg.append(": ");
    msg.append(join_strings(&sorted, ", ").as_str());
    Err(ProxyError::InvalidRequest(msg))
}


spec fn parts_view(v: Seq<ChatContentPart>) -> Seq<ChatContentPartV> {
    v.map_values(|x: ChatContentPart| x@)
}

fn clone_detail(d: &Option<crate::proxy::protocol::ImageDetail>) -> (res: Option<
    crate::proxy::protocol::ImageDetail,
>)
    ensures
        res == *d,
{
    match d {
        Some(x) => Some(*x),
        None => None,
    }
}

proof fn lemma_user_parts_err(content: Seq<ContentItem>, caps: BackendCapabilities, k: int)
    requires
        0 <= k <= content.len(),
        user_parts(content.subrange(0, k), caps) is Err,
    ensures
        user_parts(content, caps) == user_parts(content.subrange(0, k), caps),
    decreases content.len() - k,
{
    if k == content.len() {
        assert(content.subrange(0, k) =~= content);
    } else {
        assert(content.drop_last().subrange(0, k) =~= content.subrange(0, k));
        lemma_user_parts_err(content.drop_last(), caps, k);
    }
}

proof fn lemma_text_parts_err(content: Seq<ContentItem>, role: Seq<char>, k: int)
    requires
        0 <= k <= content.len(),
        text_parts(content.subrange(0, k), role) is Err,
    ensures
        text_parts(content, role) == text_parts(content.subrange(0, k), role),
    decreases content.len() - k,
{
    if k == content.len() {
        assert(content.subrange(0, k) =~= content);
    } else {
        assert(content.drop_last().subrange(0, k) =~= content.subrange(0, k));
        lemma_text_parts_err(content.drop_last(), role, k);
    }
}

proof fn lemma_assistant_parts_err(content: Seq<ContentItem>, k: int)
    requires
        0 <= k <= content.len(),
        assistant_parts(content.subrange(0, k)) is Err,
    ensures
        assistant_parts(content) == assistant_parts(content.subrange(0, k)),
    decreases content.len() - k,
{
    if k == content.len() {
        assert(content.subrange(0, k) =~= content);
    } else {
        assert(content.drop_last().subrange(0, k) =~= content.subrange(0, k));
        lemma_assistant_parts_err(content.drop_last(), k);
    }
}

proof fn lemma_reasoning_text_err(content: Seq<ReasoningItemContent>, k: int)
    requires
        0 <= k <= content.len(),
        reasoning_text(content.subrange(0, k)) is Err,
    ensures
        reasoning_text(content) == reasoning_text(content.subrange(0, k)),
    decreases content.len() - k,
{
    if k == content.len() {
        assert(content.subrange(0, k) =~= content);
    } else {
        assert(content.drop_last().subrange(0, k) =~= content.subrange(0, k));
        lemma_reasoning_text_err(content.drop_last(), k);
    }
}

fn user_content(content: &Vec<ContentItem>, caps: BackendCapabilities) -> (res: Result<
    UserContent,
    ProxyError,
>)
    ensures
        match spec_user_content(content@, caps) {
            Ok(v) => res matches Ok(c) && c@ == v,
            Err(e) => res matches Err(err) && err@ == e,
        },
{
    let n = content.len();
    let mut parts: Vec<ChatContentPart> = Vec::new();
    let mut contains_image = false;
    let mut i: usize = 0;
    assert(parts_view(parts@) =~= Seq::<ChatContentPartV>::empty());
    while i < n
        invariant
            n == content@.len(),
            i <= n,
            user_parts(content@.subrange(0, i as int), caps) == Ok::<
                (Seq<ChatContentPartV>, bool),
                ProxyErrorV,
            >((parts_view(parts@), contains_image)),
        decreases n - i,
    {
        proof {
            let t = content@.subrange(0, i + 1);
            assert(t.drop_last() =~= content@.subrange(0, i as int));
            assert(t.last() == content@[i as int]);
        }
        let ghost before = parts@;
        match &content[i] {
            ContentItem::InputText { text } | ContentItem::OutputText { text } => {
                parts.push(ChatContentPart::Text { text: text.clone() });
            },
            ContentItem::InputImage { image_url, detail } => {
                if !caps.image_input {
                    proof {
                        lemma_user_parts_err(content@, caps, i + 1);
                    }
                    return Err(
                        ProxyError::Unsupported(
                            String::from_str(
                                "image input; start the proxy with --supports-image-input or use text-only input",
                            ),
                        ),
                    );
                }
                contains_image = true;
                parts.push(ChatContentPart::ImageUrl { url: image_url.clone(), detail: clone_detail(detail) });
            },
            ContentItem::InputAudio => {
                proof {
                    lemma_user_parts_err(content@, caps, i + 1);
                }
                return Err(ProxyError::Unsupported(String::from_str("audio input")));
            },
        }
        assert(parts_view(parts@) =~= parts_view(before).push(parts@.last()@));
        i += 1;
    }
    assert(content@.subrange(0, n as int) =~= content@);
    if !contains_image && parts.len() == 1 {
        let text = match &parts[0] {
            ChatContentPart::Text { text } => text.clone(),
            ChatContentPart::ImageUrl { .. } => String::new(),
        };
        assert(parts_view(parts@)[0] == parts@[0]@);
        Ok(UserContent::Text(text))
    } else {
        Ok(UserContent::Parts(parts))
    }
}

fn text_content(content: &Vec<ContentItem>, role: &str) -> (res: Result<String, ProxyError>)
    ensures
        match text_parts(content@, role@) {
            Ok(parts) => res matches Ok(t) && t@ == join_with(parts, Seq::empty()),
            Err(e) => res matches Err(err) && err@ == e,
        },
{
    let n = content.len();
    let mut parts: Vec<String> = Vec::new();
    let mut i: usize = 0;
    assert(strings_view(parts@) =~= Seq::<Seq<char>>::empty());
    while i < n
        invariant
            n == content@.len(),
            i <= n,
            text_parts(content@.subrange(0, i as int), role@) == Ok::<Seq<Seq<char>>, ProxyErrorV>(
                strings_view(parts@),
            ),
        decreases n - i,
    {
        proof {
            let t = content@.subrange(0, i + 1);
            assert(t.drop_last() =~= content@.subrange(0, i as int));
            assert(t.last() == content@[i as int]);
        }
        let ghost before = parts@;
        match &content[i] {
            ContentItem::InputText { text } | ContentItem::OutputText { text } => {
                parts.push(text.clone());
            },
            ContentItem::InputImage { .. } => {
                proof {
                    lemma_text_parts_err(content@, role@, i + 1);
                }
                return Err(ProxyError::Unsupported(concat3("image content in a ", role, " message")));
            },
            ContentItem::InputAudio => {
                proof {
                    lemma_text_parts_err(content@, role@, i + 1);
                }
                return Err(ProxyError::Unsupported(concat3("audio content in a ", role, " message")));
            },
        }
        assert(strings_view(parts@) =~= strings_view(before).push(parts@.last()@));
        i += 1;
    }
    assert(content@.subrange(0, n as int) =~= content@);
    proof {
        reveal_strlit("");
    }
    assert(""@ =~= Seq::<char>::empty());
    Ok(join_strings(&parts, ""))
}

fn assistant_content(content: &Vec<ContentItem>) -> (res: Result<Vec<String>, ProxyError>)
    ensures
        match assistant_parts(content@) {
            Ok(parts) => res matches Ok(t) && strings_view(t@) == parts,
            Err(e) => res matches Err(err) && err@ == e,
        },
{
    let n = content.len();
    let mut parts: Vec<String> = Vec::new();
    let mut i: usize = 0;
    assert(strings_view(parts@) =~= Seq::<Seq<char>>::empty());
    while i < n
        invariant
            n == content@.len(),
            i <= n,
            assistant_parts(content@.subrange(0, i as int)) == Ok::<Seq<Seq<char>>, ProxyErrorV>(
                strings_view(parts@),
            ),
        decreases n - i,
    {
        proof {
            let t = content@.subrange(0, i + 1);
            assert(t.drop_last() =~= content@.subrange(0, i as int));
            assert(t.last() == content@[i as int]);
        }
        let ghost before = parts@;
        match &content[i] {
            ContentItem::InputText { text } | ContentItem::OutputText { text } => {
                parts.push(text.clone());
            },
            ContentItem::InputImage { .. } => {
                proof {
                    lemma_assistant_parts_err(content@, i + 1);
                }
                return Err(
                    ProxyError::Unsupported(String::from_str("image content in an assistant message")),
                );
            },
            ContentItem::InputAudio => {
                proof {
                    lemma_assistant_parts_err(content@, i + 1);
                }
                return Err(
                    ProxyError::Unsupported(String::from_str("audio content in an assistant message")),
                );
            },
        }
        assert(strings_view(parts@) =~= strings_view(before).push(parts@.last()@));
        i += 1;
    }
    assert(content@.subrange(0, n as int) =~= content@);
    Ok(parts)
}

fn plaintext_reasoning(content: &Option<Vec<ReasoningItemContent>>) -> (res: Result<String, ProxyError>)
    ensures
        match opt_reasoning_text(*content) {
            Ok(t) => res matches Ok(r) && r@ == t,
            Err(e) => res matches Err(err) && err@ == e,
        },
{
    let mut reasoning = String::new();
    match content {
        None => Ok(reasoning),
        Some(items) => {
            let n = items.len();
            let mut i: usize = 0;
            while i < n
                invariant
                    n == items@.len(),
                    i <= n,
                    opt_reasoning_text(*content) == reasoning_text(items@),
                    reasoning_text(items@.subrange(0, i as int)) == Ok::<Seq<char>, ProxyErrorV>(
                        reasoning@,
                    ),
                decreases n - i,
            {
                proof {
                    let t = items@.subrange(0, i + 1);
                    assert(t.drop_last() =~= items@.subrange(0, i as int));
                    assert(t.last() == items@[i as int]);
                }
                match &items[i] {
                    ReasoningItemContent::ReasoningText { text } => reasoning.append(text.as_str()),
                    ReasoningItemContent::Text { .. } => {
                        proof {
                            lemma_reasoning_text_err(items@, i + 1);
                        }
                        return Err(
                            ProxyError::Unsupported(
                                String::from_str("reasoning history with legacy text content"),
                            ),
                        );
                    },
                }
                i += 1;
            }
            assert(items@.subrange(0, n as int) =~= items@);
            Ok(reasoning)
        },
    }
}

fn agent_plaintext(content: &Vec<AgentMessageContent>) -> (res: (bool, String))
    ensures
        res.0 == agent_has_encrypted(content@),
        res.1@ == agent_text(content@),
{
    let n = content.len();
    let mut encrypted = false;
    let mut text = String::new();
    let mut i: usize = 0;
    while i < n
        invariant
            n == content@.len(),
            i <= n,
            text@ == agent_text(content@.subrange(0, i as int)),
            encrypted == exists|j: int| 0 <= j < i && content@[j] is Encrypted,
        decreases n - i,
    {
        proof {
            let t = content@.subrange(0, i + 1);
            assert(t.drop_last() =~= content@.subrange(0, i as int));
            assert(t.last() == content@[i as int]);
        }
        match &content[i] {
            AgentMessageContent::Text { text: part } => text.append(part.as_str()),
            AgentMessageContent::Encrypted => {
                encrypted = true;
            },
        }
        i += 1;
    }
    assert(content@.subrange(0, n as int) =~= content@);
    (encrypted, text)
}


fn opt_as_str(s: &Option<String>) -> (res: Option<&str>)
    ensures
        crate::text::opt_str_view(res) == opt_string_view(*s),
{
    match s {
        Some(v) => Some(v.as_str()),
        None => None,
    }
}

fn append_strings(dst: &mut Vec<String>, src: Vec<String>)
    ensures
        strings_view(final(dst)@) == strings_view(old(dst)@) + strings_view(src@),
{
    let mut src = src;
    let ghost added = src@;
    dst.append(&mut src);
    assert(strings_view(dst@) =~= strings_view(old(dst)@) + strings_view(added));
}

fn push_tool_output(
    st: &mut HistoryState,
    call_id: String,
    output: &FunctionCallOutputBody,
    caps: BackendCapabilities,
) -> (res: Result<(), ProxyError>)
    ensures
        history_outcome(
            res,
            state_view(*final(st)),
            spec_push_tool_output(state_view(*old(st)), call_id@, *output, caps),
        ),
{
    flush(st);
    match tool_content(output, caps) {
        Ok(content) => {
            push_message_vec(&mut st.messages, ChatMessage::Tool { tool_call_id: call_id, content });
            Ok(())
        },
        Err(e) => Err(e),
    }
}

proof fn lemma_tool_parts_err(items: Seq<ToolOutputPart>, caps: BackendCapabilities, k: int)
    requires
        0 <= k <= items.len(),
        tool_parts(items.subrange(0, k), caps) is Err,
    ensures
        tool_parts(items, caps) == tool_parts(items.subrange(0, k), caps),
    decreases items.len() - k,
{
    if k == items.len() {
        assert(items.subrange(0, k) =~= items);
    } else {
        assert(items.drop_last().subrange(0, k) =~= items.subrange(0, k));
        lemma_tool_parts_err(items.drop_last(), caps, k);
    }
}

/// The content of the Chat tool message that answers a call with `output`.
pub fn tool_content(output: &FunctionCallOutputBody, caps: BackendCapabilities) -> (res: Result<
    UserContent,
    ProxyError,
>)
    ensures
        match spec_tool_content(*output, caps) {
            Ok(v) => res matches Ok(c) && c@ == v,
            Err(e) => res matches Err(err) && err@ == e,
        },
{
    let items = match output {
        FunctionCallOutputBody::Text(t) => return Ok(UserContent::Text(t.clone())),
        FunctionCallOutputBody::ContentItems(items) => items,
    };
    assert(*output == FunctionCallOutputBody::ContentItems(*items));
    let n = items.len();
    let mut content: Vec<ContentItem> = Vec::new();
    let mut texts: Vec<String> = Vec::new();
    let mut image = false;
    let mut i: usize = 0;
    assert(strings_view(texts@) =~= Seq::<Seq<char>>::empty());
    assert(content@ =~= Seq::<ContentItem>::empty());
    while i < n
        invariant
            *output == FunctionCallOutputBody::ContentItems(*items),
            n == items@.len(),
            i <= n,
            tool_parts(items@.subrange(0, i as int), caps) == Ok::<
                (Seq<ContentItem>, Seq<Seq<char>>, bool),
                ProxyErrorV,
            >((content@, strings_view(texts@), image)),
        decreases n - i,
    {
        proof {
            let t = items@.subrange(0, i + 1);
            assert(t.drop_last() =~= items@.subrange(0, i as int));
            assert(t.last() == items@[i as int]);
        }
        let ghost before_content = content@;
        let ghost before_texts = strings_view(texts@);
        match &items[i] {
            ToolOutputPart::InputText { text } => {
                content.push(ContentItem::InputText { text: text.clone() });
                texts.push(text.clone());
                assert(strings_view(texts@) =~= before_texts.push(text@));
            },
            ToolOutputPart::InputImage { image_url, detail } => {
                if !caps.image_tool_output {
                    proof {
                        lemma_tool_parts_err(items@, caps, i + 1);
                    }
                    return Err(
                        ProxyError::Unsupported(
                            String::from_str(
                                "image tool-call output; start the proxy with --supports-image-input and --supports-image-tool-output or use a profile that enables them",
                            ),
                        ),
                    );
                }
                image = true;
                content.push(ContentItem::InputImage { image_url: image_url.clone(), detail: clone_detail(detail) });
                assert(strings_view(texts@) =~= before_texts);
            },
            ToolOutputPart::InputAudio => {
                proof {
                    lemma_tool_parts_err(items@, caps, i + 1);
                }
                return Err(ProxyError::Unsupported(String::from_str("audio tool-call output")));
            },
            ToolOutputPart::Encrypted => {
                proof {
                    lemma_tool_parts_err(items@, caps, i + 1);
                }
                return Err(ProxyError::Unsupported(String::from_str("encrypted tool-call output")));
            },
        }
        i += 1;
    }
    assert(items@.subrange(0, n as int) =~= items@);
    if image {
        user_content(&content, caps)
    } else {
        proof {
            reveal_strlit("\n");
        }
        Ok(UserContent::Text(join_strings(&texts, "\n")))
    }
}

fn message_step(
    st: &mut HistoryState,
    role: &String,
    content: &Vec<ContentItem>,
    caps: BackendCapabilities,
) -> (res: Result<(), ProxyError>)
    ensures
        history_outcome(
            res,
            state_view(*final(st)),
            spec_step(state_view(*old(st)), InputItem::Message { role: *role, content: *content }, caps),
        ),
{
    if str_is(role.as_str(), "assistant") {
        match ensure_no_unresolved_calls(&st.calls, "an assistant message") {
            Ok(()) => {},
            Err(e) => return Err(e),
        }
        let parts = match assistant_content(content) {
            Ok(p) => p,
            Err(e) => return Err(e),
        };
        append_strings(&mut st.assistant.text, parts);
        Ok(())
    } else if str_is(role.as_str(), "user") {
        match ensure_no_unresolved_calls(&st.calls, "a user message") {
            Ok(()) => {},
            Err(e) => return Err(e),
        }
        flush(st);
        let c = match user_content(content, caps) {
            Ok(c) => c,
            Err(e) => return Err(e),
        };
        push_message_vec(&mut st.messages, ChatMessage::User { content: c });
        Ok(())
    } else if str_is(role.as_str(), "developer") || str_is(role.as_str(), "system") {
        match ensure_no_unresolved_calls(&st.calls, "a control message") {
            Ok(()) => {},
            Err(e) => return Err(e),
        }
        flush(st);
        let text = match text_content(content, role.as_str()) {
            Ok(t) => t,
            Err(e) => return Err(e),
        };
        push_message_vec(&mut st.messages, control_message_exec(text, caps));
        Ok(())
    } else {
        Err(ProxyError::Unsupported(concat2("message role ", debug_str(role.as_str()).as_str())))
    }
}

fn agent_step(
    st: &mut HistoryState,
    author: &String,
    recipient: &String,
    content: &Vec<AgentMessageContent>,
    caps: BackendCapabilities,
) -> (res: Result<(), ProxyError>)
    ensures
        history_outcome(
            res,
            state_view(*final(st)),
            spec_step(
                state_view(*old(st)),
                InputItem::AgentMessage { author: *author, recipient: *recipient, content: *content },
                caps,
            ),
        ),
{
    match ensure_no_unresolved_calls(&st.calls, "an agent message") {
        Ok(()) => {},
        Err(e) => return Err(e),
    }
    flush(st);
    let (encrypted, text) = agent_plaintext(content);
    if encrypted {
        return Err(ProxyError::Unsupported(String::from_str("encrypted agent_message content")));
    }
    if text.as_str().is_empty() {
        return Ok(());
    }
    let mut message = String::from_str("[Agent message from ");
    message.append(author.as_str());
    message.append(" to ");
    message.append(recipient.as_str());
    message.append("]\n");
    message.append(text.as_str());
    push_message_vec(&mut st.messages, control_message_exec(message, caps));
    Ok(())
}

fn reasoning_step(
    st: &mut HistoryState,
    summary_is_empty: bool,
    content: &Option<Vec<ReasoningItemContent>>,
    has_encrypted_content: bool,
    caps: BackendCapabilities,
) -> (res: Result<(), ProxyError>)
    ensures
        history_outcome(
            res,
            state_view(*final(st)),
            spec_step(
                state_view(*old(st)),
                InputItem::Reasoning {
                    summary_is_empty: summary_is_empty,
                    content: *content,
                    has_encrypted_content: has_encrypted_content,
                },
                caps,
            ),
        ),
{
    if has_encrypted_content {
        return Err(ProxyError::Unsupported(String::from_str("encrypted reasoning history")));
    }
    if !summary_is_empty {
        return Err(ProxyError::Unsupported(String::from_str("reasoning summary history")));
    }
    let reasoning = match plaintext_reasoning(content) {
        Ok(r) => r,
        Err(e) => return Err(e),
    };
    if reasoning.as_str().is_empty() {
        return Ok(());
    }
    if caps.reasoning_content != ReasoningContentPolicy::Plaintext {
        return Err(
            ProxyError::Unsupported(
                String::from_str(
                    "plaintext reasoning history; start the proxy with --supports-reasoning-content or use a profile that enables it",
                ),
            ),
        );
    }
    if st.assistant.text.len() > 0 || st.assistant.tool_calls.len() > 0 {
        flush(st);
    }
    let ghost before = st.assistant.reasoning_content@;
    st.assistant.reasoning_content.push(reasoning);
    assert(strings_view(st.assistant.reasoning_content@) =~= strings_view(before).push(
        st.assistant.reasoning_content@.last()@,
    ));
    Ok(())
}

fn push_pending_call(st: &mut HistoryState, call: ChatToolCall)
    ensures
        state_view(*final(st)) == push_tool_call(state_view(*old(st)), call@),
{
    let ghost before = st.assistant.tool_calls@;
    st.assistant.tool_calls.push(call);
    assert(tool_calls_view(st.assistant.tool_calls@) =~= tool_calls_view(before).push(call@));
}

fn function_call_step(
    st: &mut HistoryState,
    tools: &ToolRegistry,
    name: &String,
    namespace: &Option<String>,
    arguments: &String,
    call_id: &String,
    caps: BackendCapabilities,
) -> (res: Result<(), ProxyError>)
    requires
        tools.wf(),
    ensures
        history_outcome(
            res,
            state_view(*final(st)),
            spec_step(
                state_view(*old(st)),
                InputItem::FunctionCall {
                    name: *name,
                    namespace: *namespace,
                    arguments: *arguments,
                    call_id: *call_id,
                },
                caps,
            ),
        ),
{
    match register_call(&mut st.calls, call_id.as_str(), HistoryCallKind::Function) {
        Ok(()) => {},
        Err(e) => return Err(e),
    }
    let identity = ToolIdentity::function(name.as_str(), opt_as_str(namespace));
    let safe = tools.safe_name_of(&identity);
    push_pending_call(st, ChatToolCall { id: call_id.clone(), name: safe, arguments: arguments.clone() });
    Ok(())
}

fn custom_call_step(
    st: &mut HistoryState,
    tools: &ToolRegistry,
    name: &String,
    namespace: &Option<String>,
    input: &String,
    call_id: &String,
    caps: BackendCapabilities,
) -> (res: Result<(), ProxyError>)
    requires
        tools.wf(),
    ensures
        history_outcome(
            res,
            state_view(*final(st)),
            spec_step(
                state_view(*old(st)),
                InputItem::CustomToolCall {
                    name: *name,
                    namespace: *namespace,
                    input: *input,
                    call_id: *call_id,
                },
                caps,
            ),
        ),
{
    match register_call(&mut st.calls, call_id.as_str(), HistoryCallKind::Custom) {
        Ok(()) => {},
        Err(e) => return Err(e),
    }
    let arguments = match encode_string_object("input", input.as_str()) {
        Ok(a) => a,
        Err(m) => {
            return Err(
                ProxyError::InvalidRequest(concat2("failed to encode custom tool input: ", m.as_str())),
            );
        },
    };
    let identity = ToolIdentity::custom(name.as_str(), opt_as_str(namespace));
    let safe = tools.safe_name_of(&identity);
    push_pending_call(st, ChatToolCall { id: call_id.clone(), name: safe, arguments });
    Ok(())
}

fn step(st: &mut HistoryState, tools: &ToolRegistry, item: &InputItem, caps: BackendCapabilities) -> (res:
    Result<(), ProxyError>)
    requires
        tools.wf(),
    ensures
        history_outcome(res, state_view(*final(st)), spec_step(state_view(*old(st)), *item, caps)),
{
    match item {
        InputItem::MissingType => Err(
            ProxyError::InvalidRequest(String::from_str("input item is missing a string type")),
        ),
        InputItem::UnsupportedType { item_type } => Err(
            ProxyError::Unsupported(concat2("input item type ", debug_str(item_type.as_str()).as_str())),
        ),
        InputItem::Malformed { item_type, error } => {
            let mut msg = String::from_str("invalid ");
            msg.append(item_type.as_str());
            msg.append(" input item: ");
            msg.append(error.as_str());
            Err(ProxyError::InvalidRequest(msg))
        },
        InputItem::Message { role, content } => message_step(st, role, content, caps),
        InputItem::AgentMessage { author, recipient, content } => agent_step(
            st,
            author,
            recipient,
            content,
            caps,
        ),
        InputItem::Reasoning { summary_is_empty, content, has_encrypted_content } => reasoning_step(
            st,
            *summary_is_empty,
            content,
            *has_encrypted_content,
            caps,
        ),
        InputItem::FunctionCall { name, namespace, arguments, call_id } => function_call_step(
            st,
            tools,
            name,
            namespace,
            arguments,
            call_id,
            caps,
        ),
        InputItem::CustomToolCall { name, namespace, input, call_id } => custom_call_step(
            st,
            tools,
            name,
            namespace,
            input,
            call_id,
            caps,
        ),
        InputItem::FunctionCallOutput { call_id, output } => match call_id {
            None => Err(
                ProxyError::Unsupported(
                    String::from_str("function call output history without call_id"),
                ),
            ),
            Some(id) => {
                match resolve_call(&mut st.calls, id.as_str(), HistoryCallKind::Function) {
                    Ok(()) => {},
                    Err(e) => return Err(e),
                }
                push_tool_output(st, id.clone(), output, caps)
            },
        },
        InputItem::CustomToolCallOutput { call_id, output } => {
            match resolve_call(&mut st.calls, call_id.as_str(), HistoryCallKind::Custom) {
                Ok(()) => {},
                Err(e) => return Err(e),
            }
            push_tool_output(st, call_id.clone(), output, caps)
        },
    }
}

/// Compiles a request's instructions and `input` history into Chat messages.
#[verifier::loop_isolation(false)]
pub fn compile_history(
    instructions: String,
    input: &Vec<InputItem>,
    tools: &ToolRegistry,
    caps: BackendCapabilities,
) -> (res: Result<Vec<ChatMessage>, ProxyError>)
    requires
        tools.wf(),
    ensures
        match spec_compile_history(instructions@, input@, caps) {
            Ok(ms) => res matches Ok(v) && messages_view(v@) == ms,
            Err(e) => res matches Err(err) && err@ == e,
        },
{
    let mut st = HistoryState {
        messages: Vec::new(),
        assistant: PendingAssistant { reasoning_content: Vec::new(), text: Vec::new(), tool_calls: Vec::new() },
        calls: Vec::new(),
    };
    let ghost init_instructions = instructions@;
    if !instructions.as_str().is_empty() {
        push_message_vec(&mut st.messages, control_message_exec(instructions, caps));
    }
    proof {
        assert(strings_view(st.assistant.reasoning_content@) =~= Seq::<Seq<char>>::empty());
        assert(strings_view(st.assistant.text@) =~= Seq::<Seq<char>>::empty());
        assert(tool_calls_view(st.assistant.tool_calls@) =~= Seq::<ChatToolCallV>::empty());
        assert(calls_view(st.calls@) =~= Seq::<CallV>::empty());
        if init_instructions.len() > 0 {
            assert(messages_view(st.messages@) =~= seq![control_message(init_instructions, caps)]);
        } else {
            assert(messages_view(st.messages@) =~= Seq::<ChatMessageV>::empty());
        }
        assert(state_view(st) == initial_history(init_instructions, caps));
    }
    let n = input.len();
    let mut i: usize = 0;
    assert(input@.subrange(0, n as int) =~= input@);
    while i < n
        invariant
            n == input@.len(),
            i <= n,
            tools.wf(),
            spec_steps(initial_history(init_instructions, caps), input@, caps) == spec_steps(
                state_view(st),
                input@.subrange(i as int, n as int),
                caps,
            ),
        decreases n - i,
    {
        let ghost rest = input@.subrange(i as int, n as int);
        let ghost before = state_view(st);
        assert(rest[0] == input@[i as int]);
        assert(rest.drop_first() =~= input@.subrange(i + 1, n as int));
        match step(&mut st, tools, &input[i], caps) {
            Ok(()) => {},
            Err(e) => {
                assert(spec_steps(before, rest, caps) == Err::<HistoryV, ProxyErrorV>(e@));
                return Err(e);
            },
        }
        i += 1;
    }
    assert(input@.subrange(n as int, n as int) =~= Seq::<InputItem>::empty());
    match ensure_no_unresolved_calls(&st.calls, "the end of the request") {
        Ok(()) => {},
        Err(e) => return Err(e),
    }
    flush(&mut st);
    Ok(st.messages)
}

proof fn lemma_insert_sorted_len(x: Seq<char>, s: Seq<Seq<char>>)
    ensures
        crate::text::insert_sorted(x, s).len() == s.len() + 1,
    decreases s.len(),
{
    if s.len() > 0 {
        lemma_insert_sorted_len(x, s.drop_first());
    }
}

pub(crate) proof fn lemma_sort_len(s: Seq<Seq<char>>)
    ensures
        sort_strings(s).len() == s.len(),
    decreases s.len(),
{
    if s.len() > 0 {
        lemma_sort_len(s.drop_last());
        lemma_insert_sorted_len(s.last(), sort_strings(s.drop_last()));
    }
}

/// `a` is `b` with messages possibly added at the end.
pub open spec fn extends(a: Seq<ChatMessageV>, b: Seq<ChatMessageV>) -> bool {
    b.len() <= a.len() && forall|i: int| 0 <= i < b.len() ==> #[trigger] a[i] == b[i]
}

proof fn lemma_step_extends(s: HistoryV, item: InputItem, caps: BackendCapabilities)
    requires
        spec_step(s, item, caps) is Ok,
    ensures
        extends(spec_step(s, item, caps)->Ok_0.messages, s.messages),
{
    let f = spec_flush(s);
    assert(extends(f.messages, s.messages));
    match item {
        InputItem::FunctionCallOutput { call_id, output } => {
            let id = call_id.unwrap()@;
            let calls = spec_resolve_call(s.calls, id, HistoryCallKind::Function)->Ok_0;
            assert(spec_flush(with_calls(s, calls)).messages == f.messages);
        },
        InputItem::CustomToolCallOutput { call_id, output } => {
            let calls = spec_resolve_call(s.calls, call_id@, HistoryCallKind::Custom)->Ok_0;
            assert(spec_flush(with_calls(s, calls)).messages == f.messages);
        },
        _ => {},
    }
}

proof fn lemma_steps_extend(s: HistoryV, items: Seq<InputItem>, caps: BackendCapabilities)
    requires
        spec_steps(s, items, caps) is Ok,
    ensures
        extends(spec_steps(s, items, caps)->Ok_0.messages, s.messages),
    decreases items.len(),
{
    if items.len() > 0 {
        lemma_step_extends(s, items[0], caps);
        let s2 = spec_step(s, items[0], caps)->Ok_0;
        lemma_steps_extend(s2, items.drop_first(), caps);
    }
}

/// Non-empty instructions open the compiled history as one message: a
/// developer message when the backend takes that role, else a system message.
pub proof fn lemma_instructions_open_history(
    instructions: Seq<char>,
    input: Seq<InputItem>,
    caps: BackendCapabilities,
)
    requires
        instructions.len() > 0,
        spec_compile_history(instructions, input, caps) is Ok,
    ensures
        spec_compile_history(instructions, input, caps)->Ok_0.len() > 0,
        spec_compile_history(instructions, input, caps)->Ok_0[0] == if caps.developer_role {
            ChatMessageV::Developer(instructions)
        } else {
            ChatMessageV::System(instructions)
        },
{
    let s0 = initial_history(instructions, caps);
    lemma_steps_extend(s0, input, caps);
    let s = spec_steps(s0, input, caps)->Ok_0;
    assert(extends(spec_flush(s).messages, s.messages));
    assert(s0.messages[0] == s.messages[0]);
}

/// A developer or system message of the history compiles to a developer
/// message when the backend takes that role, else to a system message.
pub proof fn lemma_control_message_role(s: HistoryV, role: String, content: Vec<ContentItem>, caps: BackendCapabilities)
    requires
        role@ == "developer"@ || role@ == "system"@,
        spec_step(s, InputItem::Message { role, content }, caps) is Ok,
    ensures
        ({
            let ms = spec_step(s, InputItem::Message { role, content }, caps)->Ok_0.messages;
            &&& ms.len() > 0
            &&& caps.developer_role ==> ms.last() is Developer
            &&& !caps.developer_role ==> ms.last() is System
        }),
{
    reveal_strlit("developer");
    reveal_strlit("system");
    reveal_strlit("assistant");
    reveal_strlit("user");
    assert("developer"@ != "assistant"@ && "developer"@ != "user"@) by {
        assert("developer"@[0] != "assistant"@[0]);
        assert("developer"@[0] != "user"@[0]);
    }
    assert("system"@ != "assistant"@ && "system"@ != "user"@) by {
        assert("system"@[0] != "assistant"@[0]);
        assert("system"@[0] != "user"@[0]);
    }
}

}
