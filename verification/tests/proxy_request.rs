use codex_kit::proxy::config::{BackendCapabilities, PromptCacheKeyPolicy, ReasoningContentPolicy};
use codex_kit::proxy::protocol::{
    ChatContentPart, ChatMessage, ChatToolCall, ContentItem, FunctionCallOutputBody, FunctionTool,
    ImageDetail, InputItem, ReasoningItemContent, ResponseFormat, ResponsesRequest,
    ResponsesTextFormat, TextControls, ToolChoice, ToolDefinition, UserContent,
};
use codex_kit::proxy::request::translate_request;

fn request(model: &str, input: Vec<InputItem>) -> ResponsesRequest {
    ResponsesRequest {
        model: model.to_string(),
        instructions: String::new(),
        input,
        tools: None,
        tool_choice: ToolChoice::Named("auto".to_string()),
        parallel_tool_calls: false,
        reasoning: None,
        store: false,
        stream: true,
        stream_options_json: None,
        include_entries: Vec::new(),
        service_tier: None,
        prompt_cache_key: None,
        text: None,
        client_metadata_json: None,
    }
}

fn message(role: &str, content: Vec<ContentItem>) -> InputItem {
    InputItem::Message { role: role.to_string(), content }
}

fn call(name: &str, call_id: &str, arguments: &str) -> InputItem {
    InputItem::FunctionCall {
        name: name.to_string(),
        namespace: None,
        arguments: arguments.to_string(),
        call_id: call_id.to_string(),
    }
}

fn error_text(request: ResponsesRequest, capabilities: BackendCapabilities) -> Option<String> {
    translate_request(request, capabilities, None).err().map(|error| error.message())
}

#[test]
fn compiles_calls_outputs_and_text_into_chat_history() {
    let mut request = request(
        "codex-test",
        vec![
            message("user", vec![ContentItem::InputText { text: "Inspect it".to_string() }]),
            message(
                "assistant",
                vec![ContentItem::OutputText { text: "I will inspect.".to_string() }],
            ),
            call("shell", "call_1", "{\"cmd\":\"pwd\"}"),
            InputItem::FunctionCallOutput {
                call_id: Some("call_1".to_string()),
                output: FunctionCallOutputBody::Text("/workspace".to_string()),
            },
            message("assistant", vec![ContentItem::OutputText { text: "Done.".to_string() }]),
        ],
    );
    request.instructions = "Be exact.".to_string();
    request.tools = Some(vec![ToolDefinition::Function(FunctionTool {
        name: "shell".to_string(),
        description: "Run a command".to_string(),
        strict: false,
        defer_loading: None,
        parameters_json: "{\"type\":\"object\"}".to_string(),
    })]);
    request.parallel_tool_calls = true;
    let capabilities = BackendCapabilities { parallel_tool_calls: true, ..BackendCapabilities::default() };

    let translated = translate_request(request, capabilities, None).expect("translates");

    assert_eq!(
        translated.chat.messages,
        vec![
            ChatMessage::System { content: "Be exact.".to_string() },
            ChatMessage::User { content: UserContent::Text("Inspect it".to_string()) },
            ChatMessage::Assistant {
                content: Some("I will inspect.".to_string()),
                reasoning_content: None,
                tool_calls: vec![ChatToolCall {
                    id: "call_1".to_string(),
                    name: "shell".to_string(),
                    arguments: "{\"cmd\":\"pwd\"}".to_string(),
                }],
            },
            ChatMessage::Tool {
                tool_call_id: "call_1".to_string(),
                content: UserContent::Text("/workspace".to_string()),
            },
            ChatMessage::Assistant {
                content: Some("Done.".to_string()),
                reasoning_content: None,
                tool_calls: Vec::new(),
            },
        ]
    );
    assert_eq!(translated.chat.model, "codex-test");
    assert_eq!(translated.chat.stream_options_include_usage, Some(true));
}

#[test]
fn replays_plaintext_reasoning_and_forwards_the_cache_key_when_enabled() {
    let mut request = request(
        "reasoning-test",
        vec![
            InputItem::Reasoning {
                summary_is_empty: true,
                content: Some(vec![ReasoningItemContent::ReasoningText {
                    text: "Inspect before answering.".to_string(),
                }]),
                has_encrypted_content: false,
            },
            message("assistant", vec![ContentItem::OutputText { text: "The answer.".to_string() }]),
        ],
    );
    request.prompt_cache_key = Some("thread-123".to_string());
    let capabilities = BackendCapabilities {
        prompt_cache_key: PromptCacheKeyPolicy::Forward,
        reasoning_content: ReasoningContentPolicy::Plaintext,
        ..BackendCapabilities::default()
    };

    let translated = translate_request(request, capabilities, None).expect("translates");

    assert_eq!(
        translated.chat.messages,
        vec![ChatMessage::Assistant {
            content: Some("The answer.".to_string()),
            reasoning_content: Some("Inspect before answering.".to_string()),
            tool_calls: Vec::new(),
        }]
    );
    assert_eq!(translated.chat.prompt_cache_key, Some("thread-123".to_string()));
}

#[test]
fn rejects_plaintext_reasoning_replay_without_backend_support() {
    let request = request(
        "reasoning-test",
        vec![InputItem::Reasoning {
            summary_is_empty: true,
            content: Some(vec![ReasoningItemContent::ReasoningText { text: "private chain".to_string() }]),
            has_encrypted_content: false,
        }],
    );
    let error = error_text(request, BackendCapabilities::default());
    assert!(error.as_deref().is_some_and(|error| error.contains("--supports-reasoning-content")));
}

#[test]
fn accepts_encrypted_reasoning_include_but_rejects_unknown_entries() {
    let mut accepted = request("test", Vec::new());
    accepted.include_entries = vec!["reasoning.encrypted_content".to_string()];
    assert!(translate_request(accepted, BackendCapabilities::default(), None).is_ok());

    let mut rejected = request("test", Vec::new());
    rejected.include_entries = vec!["future.output".to_string()];
    assert_eq!(
        error_text(rejected, BackendCapabilities::default()),
        Some("unsupported Responses feature: Responses include entries [\"future.output\"]".to_string())
    );

    let mut two = request("test", Vec::new());
    two.include_entries = vec!["a\"b".to_string(), "c".to_string()];
    assert_eq!(
        error_text(two, BackendCapabilities::default()),
        Some("unsupported Responses feature: Responses include entries [\"a\\\"b\", \"c\"]".to_string())
    );
}

#[test]
fn translates_structured_output_and_declared_image_input() {
    let mut request = request(
        "vision-test",
        vec![message(
            "user",
            vec![
                ContentItem::InputText { text: "Describe".to_string() },
                ContentItem::InputImage {
                    image_url: "data:image/png;base64,AA==".to_string(),
                    detail: Some(ImageDetail::High),
                },
            ],
        )],
    );
    request.text = Some(TextControls {
        verbosity: None,
        format: Some(ResponsesTextFormat {
            kind: "json_schema".to_string(),
            strict: true,
            schema_json: "{\"type\":\"object\"}".to_string(),
            name: "answer".to_string(),
        }),
    });
    let capabilities = BackendCapabilities {
        image_input: true,
        structured_output: true,
        ..BackendCapabilities::default()
    };

    let translated = translate_request(request, capabilities, Some("upstream-model")).expect("translates");

    assert_eq!(translated.chat.model, "upstream-model");
    assert_eq!(
        translated.chat.messages,
        vec![ChatMessage::User {
            content: UserContent::Parts(vec![
                ChatContentPart::Text { text: "Describe".to_string() },
                ChatContentPart::ImageUrl {
                    url: "data:image/png;base64,AA==".to_string(),
                    detail: Some(ImageDetail::High),
                },
            ]),
        }]
    );
    assert_eq!(
        translated.chat.response_format,
        Some(ResponseFormat {
            name: "answer".to_string(),
            strict: true,
            schema_json: "{\"type\":\"object\"}".to_string(),
        })
    );
}

#[test]
fn rejects_image_input_without_declared_backend_support() {
    let request = request(
        "vision-test",
        vec![message(
            "user",
            vec![ContentItem::InputImage {
                image_url: "data:image/png;base64,AA==".to_string(),
                detail: None,
            }],
        )],
    );
    let error = error_text(request, BackendCapabilities::default());
    assert!(error.as_deref().is_some_and(|error| error.contains("--supports-image-input")));
}

#[test]
fn rejects_audio_content_for_every_message_role() {
    for (role, expected) in [
        ("user", "audio input"),
        ("assistant", "audio content in an assistant message"),
        ("developer", "audio content in a developer message"),
    ] {
        let request = request("audio-test", vec![message(role, vec![ContentItem::InputAudio])]);
        assert_eq!(
            error_text(request, BackendCapabilities::default()),
            Some(format!("unsupported Responses feature: {expected}"))
        );
    }
}

#[test]
fn rejects_unknown_input_before_deserializing_to_response_item_other() {
    let request = request(
        "test",
        vec![InputItem::UnsupportedType { item_type: "future_visible_item".to_string() }],
    );
    assert_eq!(
        error_text(request, BackendCapabilities::default()).as_deref(),
        Some("unsupported Responses feature: input item type \"future_visible_item\"")
    );
}

#[test]
fn rejects_parallel_calls_without_declared_backend_support() {
    let mut request = request("test", Vec::new());
    request.parallel_tool_calls = true;
    let error = error_text(request, BackendCapabilities::default());
    assert!(error.as_deref().is_some_and(|error| error.contains("parallel_tool_calls=true")));
}

#[test]
fn rejects_orphaned_duplicate_and_unresolved_call_history() {
    let cases = [
        (
            vec![InputItem::FunctionCallOutput {
                call_id: None,
                output: FunctionCallOutputBody::Text("standalone output".to_string()),
            }],
            "function call output history without call_id",
        ),
        (
            vec![InputItem::FunctionCallOutput {
                call_id: Some("missing".to_string()),
                output: FunctionCallOutputBody::Text("no call".to_string()),
            }],
            "unknown call ID \"missing\"",
        ),
        (
            vec![call("shell", "duplicate", "{}"), call("shell", "duplicate", "{}")],
            "duplicate tool call ID \"duplicate\"",
        ),
        (
            vec![call("shell", "pending", "{}")],
            "unresolved tool calls before the end of the request: pending",
        ),
    ];
    for (input, expected) in cases {
        let error = error_text(request("test", input), BackendCapabilities::default());
        assert!(
            error.as_deref().is_some_and(|error| error.contains(expected)),
            "expected {expected:?}, received {error:?}"
        );
    }
}

#[test]
fn disables_chat_stream_options_for_a_declared_non_streaming_backend() {
    let capabilities = BackendCapabilities { streaming: false, ..BackendCapabilities::default() };
    let translated = translate_request(request("test", Vec::new()), capabilities, None).expect("translates");
    assert!(!translated.chat.stream);
    assert_eq!(translated.chat.stream_options_include_usage, None);
}
