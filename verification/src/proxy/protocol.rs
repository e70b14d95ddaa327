//! The Responses request and the Chat Completions request and stream, as the
//! proxy's logic reads and writes them. JSON payloads that the proxy passes on
//! without reading (schemas, parameters, metadata) are held as JSON text.

use crate::text::opt_string_view;
use vstd::prelude::*;

verus! {

/// Image resolution hint of an image input.
#[derive(Clone, Copy, Debug, PartialEq, Eq, Structural)]
pub enum ImageDetail {
    Auto,
    Low,
    High,
    Original,
}

/// One part of a message's content.
#[derive(Clone, Debug, PartialEq, Eq)]
pub enum ContentItem {
    InputText { text: String },
    OutputText { text: String },
    InputImage { image_url: String, detail: Option<ImageDetail> },
    InputAudio,
}

/// One part of an inter-agent message.
#[derive(Clone, Debug, PartialEq, Eq)]
pub enum AgentMessageContent {
    Text { text: String },
    Encrypted,
}

/// One part of the content of a reasoning item.
#[derive(Clone, Debug, PartialEq, Eq)]
pub enum ReasoningItemContent {
    ReasoningText { text: String },
    Text { text: String },
}

/// One part of a structured tool-call output.
#[derive(Clone, Debug, PartialEq, Eq)]
pub enum ToolOutputPart {
    InputText { text: String },
    InputImage { image_url: String, detail: Option<ImageDetail> },
    InputAudio,
    /// Encrypted content, which only the Responses API can read.
    Encrypted,
}

/// The output of a tool call in the request history.
#[derive(Clone, Debug, PartialEq, Eq)]
pub enum FunctionCallOutputBody {
    Text(String),
    /// Structured content: text, images and other parts, in order.
    ContentItems(Vec<ToolOutputPart>),
}

/// One item of the Responses `input` array, classified by its `type`.
#[derive(Clone, Debug, PartialEq, Eq)]
pub enum InputItem {
    /// The item has no string `type` field.
    MissingType,
    /// The item's `type` is not one the proxy translates.
    UnsupportedType { item_type: String },
    /// The item has a known `type` but does not decode; `error` says why.
    Malformed { item_type: String, error: String },
    Message { role: String, content: Vec<ContentItem> },
    AgentMessage { author: String, recipient: String, content: Vec<AgentMessageContent> },
    Reasoning {
        summary_is_empty: bool,
        content: Option<Vec<ReasoningItemContent>>,
        has_encrypted_content: bool,
    },
    FunctionCall { name: String, namespace: Option<String>, arguments: String, call_id: String },
    CustomToolCall { name: String, namespace: Option<String>, input: String, call_id: String },
    FunctionCallOutput { call_id: Option<String>, output: FunctionCallOutputBody },
    CustomToolCallOutput { call_id: String, output: FunctionCallOutputBody },
}

/// A function tool declaration.
#[derive(Clone, Debug, PartialEq, Eq)]
pub struct FunctionTool {
    pub name: String,
    pub description: String,
    pub strict: bool,
    pub defer_loading: Option<bool>,
    /// The JSON schema of the parameters, as JSON text.
    pub parameters_json: String,
}

/// A member of a namespace tool.
#[derive(Clone, Debug, PartialEq, Eq)]
pub enum NamespaceMember {
    Function(FunctionTool),
    /// A member whose `type` is not `function`.
    NonFunction,
    /// A `function` member that does not decode; the text says why.
    Malformed(String),
}

/// A freeform (custom) tool declaration.
#[derive(Clone, Debug, PartialEq, Eq)]
pub struct CustomTool {
    pub name: String,
    pub description: String,
    pub format_kind: String,
    pub format_syntax: String,
    pub format_definition: String,
}

/// The `type` of a tool declaration that the proxy decodes.
#[derive(Clone, Copy, Debug, PartialEq, Eq, Structural)]
pub enum ToolDeclarationKind {
    Function,
    Namespace,
    Custom,
}

/// One entry of the Responses `tools` array, classified by its `type`.
#[derive(Clone, Debug, PartialEq, Eq)]
pub enum ToolDefinition {
    /// The tool has no string `type` field.
    MissingType,
    Function(FunctionTool),
    Namespace { name: String, description: String, tools: Vec<NamespaceMember> },
    Custom(CustomTool),
    /// A known `type` whose declaration does not decode; `error` says why.
    Malformed { kind: ToolDeclarationKind, error: String },
    /// A `type` that Chat Completions cannot represent.
    Unsupported { kind: String },
}

/// The `tool_choice` of a request.
#[derive(Clone, Debug, PartialEq, Eq)]
pub enum ToolChoice {
    Named(String),
    /// Any non-string value, as JSON text.
    Other(String),
}

/// The `reasoning` controls of a request.
#[derive(Clone, Debug, PartialEq, Eq)]
pub struct ReasoningControls {
    pub effort: Option<String>,
    pub summary_json: Option<String>,
    pub context_json: Option<String>,
}

/// A structured-output format.
#[derive(Clone, Debug, PartialEq, Eq)]
pub struct ResponsesTextFormat {
    pub kind: String,
    pub strict: bool,
    pub schema_json: String,
    pub name: String,
}

/// The `text` controls of a request.
#[derive(Clone, Debug, PartialEq, Eq)]
pub struct TextControls {
    pub verbosity: Option<String>,
    pub format: Option<ResponsesTextFormat>,
}

/// A Responses API request.
#[derive(Clone, Debug, PartialEq, Eq)]
pub struct ResponsesRequest {
    pub model: String,
    pub instructions: String,
    pub input: Vec<InputItem>,
    pub tools: Option<Vec<ToolDefinition>>,
    pub tool_choice: ToolChoice,
    pub parallel_tool_calls: bool,
    pub reasoning: Option<ReasoningControls>,
    pub store: bool,
    pub stream: bool,
    pub stream_options_json: Option<String>,
    pub include_entries: Vec<String>,
    pub service_tier: Option<String>,
    pub prompt_cache_key: Option<String>,
    pub text: Option<TextControls>,
    pub client_metadata_json: Option<String>,
}

/// One part of a user message for Chat Completions.
#[derive(Clone, Debug, PartialEq, Eq)]
pub enum ChatContentPart {
    Text { text: String },
    ImageUrl { url: String, detail: Option<ImageDetail> },
}

/// The content of a Chat user or tool message: a plain string or an array of parts.
#[derive(Clone, Debug, PartialEq, Eq)]
pub enum UserContent {
    Text(String),
    Parts(Vec<ChatContentPart>),
}

/// A function call made by the assistant, as Chat Completions writes it.
#[derive(Clone, Debug, PartialEq, Eq)]
pub struct ChatToolCall {
    pub id: String,
    pub name: String,
    pub arguments: String,
}

/// One Chat Completions message.
#[derive(Clone, Debug, PartialEq, Eq)]
pub enum ChatMessage {
    System { content: String },
    Developer { content: String },
    User { content: UserContent },
    Assistant {
        content: Option<String>,
        reasoning_content: Option<String>,
        tool_calls: Vec<ChatToolCall>,
    },
    Tool { tool_call_id: String, content: UserContent },
}

/// The parameters schema of a Chat function tool.
#[derive(Clone, Debug, PartialEq, Eq)]
pub enum ChatToolParameters {
    /// A declared JSON schema, as JSON text.
    Schema(String),
    /// The fixed schema of a freeform tool: an object with one string `input`.
    FreeformInput,
}

/// A function tool as Chat Completions declares it.
#[derive(Clone, Debug, PartialEq, Eq)]
pub struct ChatTool {
    pub name: String,
    pub description: String,
    pub parameters: ChatToolParameters,
    pub strict: bool,
}

/// The Chat `response_format` of a JSON-schema structured output.
#[derive(Clone, Debug, PartialEq, Eq)]
pub struct ResponseFormat {
    pub name: String,
    pub strict: bool,
    pub schema_json: String,
}

/// A Chat Completions request.
#[derive(Clone, Debug, PartialEq, Eq)]
pub struct ChatRequest {
    pub model: String,
    pub messages: Vec<ChatMessage>,
    pub tools: Option<Vec<ChatTool>>,
    pub tool_choice: String,
    pub parallel_tool_calls: bool,
    pub stream: bool,
    /// `stream_options.include_usage`, when stream options are sent.
    pub stream_options_include_usage: Option<bool>,
    pub response_format: Option<ResponseFormat>,
    pub reasoning_effort: Option<String>,
    pub prompt_cache_key: Option<String>,
}

/// Token counts reported by Chat Completions.
#[derive(Clone, Copy, Debug, PartialEq, Eq, Structural)]
pub struct ChatUsage {
    pub prompt_tokens: u64,
    pub completion_tokens: u64,
    pub total_tokens: u64,
    pub cached_tokens: Option<u64>,
    pub reasoning_tokens: Option<u64>,
}

/// A streamed fragment of a tool call.
#[derive(Clone, Debug, PartialEq, Eq)]
pub struct ChatToolCallDelta {
    pub index: usize,
    pub id: Option<String>,
    pub name: Option<String>,
    pub arguments: Option<String>,
}

/// The delta of one streamed choice.
#[derive(Clone, Debug, PartialEq, Eq)]
pub struct ChatDelta {
    pub content: Option<String>,
    pub reasoning_content: Option<String>,
    pub refusal: Option<String>,
    pub tool_calls: Option<Vec<ChatToolCallDelta>>,
}

/// One streamed choice.
#[derive(Clone, Debug, PartialEq, Eq)]
pub struct ChatChoice {
    pub index: usize,
    pub delta: ChatDelta,
    pub finish_reason: Option<String>,
}

/// One streamed Chat Completions chunk.
#[derive(Clone, Debug, PartialEq, Eq)]
pub struct ChatChunk {
    pub choices: Vec<ChatChoice>,
    pub usage: Option<ChatUsage>,
}

/// A tool call of a non-streamed completion.
#[derive(Clone, Debug, PartialEq, Eq)]
pub struct BufferedChatToolCall {
    pub id: String,
    pub name: String,
    pub arguments: String,
}

/// The message of a non-streamed choice.
#[derive(Clone, Debug, PartialEq, Eq)]
pub struct BufferedChatMessage {
    pub content: Option<String>,
    pub reasoning_content: Option<String>,
    pub refusal: Option<String>,
    pub tool_calls: Vec<BufferedChatToolCall>,
}

/// One choice of a non-streamed completion.
#[derive(Clone, Debug, PartialEq, Eq)]
pub struct BufferedChatChoice {
    pub index: usize,
    pub message: BufferedChatMessage,
    pub finish_reason: Option<String>,
}

/// A non-streamed Chat Completions response.
#[derive(Clone, Debug, PartialEq, Eq)]
pub struct BufferedChatCompletion {
    pub choices: Vec<BufferedChatChoice>,
    pub usage: Option<ChatUsage>,
}


/// What a restored tool call carries: JSON arguments or freeform input.
#[derive(Clone, Debug, PartialEq, Eq)]
pub enum ToolCallPayload {
    Arguments(String),
    Input(String),
}

/// A completed tool call in Responses form (`function_call` or `custom_tool_call`).
#[derive(Clone, Debug, PartialEq, Eq)]
pub struct OutputToolCall {
    pub id: String,
    pub call_id: String,
    pub name: String,
    pub namespace: Option<String>,
    pub payload: ToolCallPayload,
}

/// The value of a [`ChatToolParameters`].
pub enum ChatToolParametersV {
    Schema(Seq<char>),
    FreeformInput,
}

/// The value of a [`ChatTool`].
pub struct ChatToolV {
    pub name: Seq<char>,
    pub description: Seq<char>,
    pub parameters: ChatToolParametersV,
    pub strict: bool,
}

impl View for ChatTool {
    type V = ChatToolV;

    open spec fn view(&self) -> ChatToolV {
        ChatToolV {
            name: self.name@,
            description: self.description@,
            parameters: match self.parameters {
                ChatToolParameters::Schema(s) => ChatToolParametersV::Schema(s@),
                ChatToolParameters::FreeformInput => ChatToolParametersV::FreeformInput,
            },
            strict: self.strict,
        }
    }
}

/// The value of a [`ToolCallPayload`].
pub enum ToolCallPayloadV {
    Arguments(Seq<char>),
    Input(Seq<char>),
}

/// The value of an [`OutputToolCall`].
pub struct OutputToolCallV {
    pub id: Seq<char>,
    pub call_id: Seq<char>,
    pub name: Seq<char>,
    pub namespace: Option<Seq<char>>,
    pub payload: ToolCallPayloadV,
}

impl View for OutputToolCall {
    type V = OutputToolCallV;

    open spec fn view(&self) -> OutputToolCallV {
        OutputToolCallV {
            id: self.id@,
            call_id: self.call_id@,
            name: self.name@,
            namespace: opt_string_view(self.namespace),
            payload: match self.payload {
                ToolCallPayload::Arguments(a) => ToolCallPayloadV::Arguments(a@),
                ToolCallPayload::Input(i) => ToolCallPayloadV::Input(i@),
            },
        }
    }
}

/// The value of a [`ChatContentPart`].
pub enum ChatContentPartV {
    Text(Seq<char>),
    ImageUrl { url: Seq<char>, detail: Option<ImageDetail> },
}

/// The value of a [`UserContent`].
pub enum UserContentV {
    Text(Seq<char>),
    Parts(Seq<ChatContentPartV>),
}

/// The value of a [`ChatToolCall`].
pub struct ChatToolCallV {
    pub id: Seq<char>,
    pub name: Seq<char>,
    pub arguments: Seq<char>,
}

/// The value of a [`ChatMessage`].
pub enum ChatMessageV {
    System(Seq<char>),
    Developer(Seq<char>),
    User(UserContentV),
    Assistant {
        content: Option<Seq<char>>,
        reasoning_content: Option<Seq<char>>,
        tool_calls: Seq<ChatToolCallV>,
    },
    Tool { tool_call_id: Seq<char>, content: UserContentV },
}

impl View for ChatContentPart {
    type V = ChatContentPartV;

    open spec fn view(&self) -> ChatContentPartV {
        match self {
            ChatContentPart::Text { text } => ChatContentPartV::Text(text@),
            ChatContentPart::ImageUrl { url, detail } => ChatContentPartV::ImageUrl {
                url: url@,
                detail: *detail,
            },
        }
    }
}

impl View for UserContent {
    type V = UserContentV;

    open spec fn view(&self) -> UserContentV {
        match self {
            UserContent::Text(t) => UserContentV::Text(t@),
            UserContent::Parts(p) => UserContentV::Parts(p@.map_values(|x: ChatContentPart| x@)),
        }
    }
}

impl View for ChatToolCall {
    type V = ChatToolCallV;

    open spec fn view(&self) -> ChatToolCallV {
        ChatToolCallV { id: self.id@, name: self.name@, arguments: self.arguments@ }
    }
}

impl View for ChatMessage {
    type V = ChatMessageV;

    open spec fn view(&self) -> ChatMessageV {
        match self {
            ChatMessage::System { content } => ChatMessageV::System(content@),
            ChatMessage::Developer { content } => ChatMessageV::Developer(content@),
            ChatMessage::User { content } => ChatMessageV::User(content@),
            ChatMessage::Assistant { content, reasoning_content, tool_calls } =>
                ChatMessageV::Assistant {
                content: opt_string_view(*content),
                reasoning_content: opt_string_view(*reasoning_content),
                tool_calls: tool_calls@.map_values(|c: ChatToolCall| c@),
            },
            ChatMessage::Tool { tool_call_id, content } => ChatMessageV::Tool {
                tool_call_id: tool_call_id@,
                content: content@,
            },
        }
    }
}

}
