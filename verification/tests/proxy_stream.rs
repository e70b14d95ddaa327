use codex_kit::proxy::config::ReasoningContentPolicy;
use codex_kit::proxy::protocol::{
    ChatChoice, ChatChunk, ChatDelta, ChatToolCallDelta, ChatUsage, CustomTool, FunctionTool,
    ToolCallPayload, ToolDefinition,
};
use codex_kit::proxy::stream::{ResponseEvent, ResponseUsage, StreamTranslator};
use codex_kit::proxy::tool_registry::{ToolIdentity, ToolRegistry};

fn delta(content: Option<&str>, reasoning: Option<&str>) -> ChatDelta {
    ChatDelta {
        content: content.map(str::to_string),
        reasoning_content: reasoning.map(str::to_string),
        refusal: None,
        tool_calls: None,
    }
}

fn chunk(delta: ChatDelta, finish_reason: Option<&str>, usage: Option<ChatUsage>) -> ChatChunk {
    ChatChunk {
        choices: vec![ChatChoice { index: 0, delta, finish_reason: finish_reason.map(str::to_string) }],
        usage,
    }
}

fn text_chunk(content: &str, finish_reason: Option<&str>, usage: Option<ChatUsage>) -> ChatChunk {
    chunk(delta(Some(content), None), finish_reason, usage)
}

#[test]
fn streams_text_then_emits_a_complete_item_and_terminal_event() {
    let mut translator = StreamTranslator::new(ReasoningContentPolicy::Unsupported);
    let first = translator.push_chunk(text_chunk("hel", None, None)).expect("first chunk");
    let second = translator
        .push_chunk(text_chunk(
            "lo",
            Some("stop"),
            Some(ChatUsage {
                prompt_tokens: 3,
                completion_tokens: 2,
                total_tokens: 5,
                cached_tokens: Some(1),
                reasoning_tokens: Some(1),
            }),
        ))
        .expect("second chunk");
    let terminal = translator.finish(&ToolRegistry::new()).expect("finish");

    assert!(matches!(first[0], ResponseEvent::MessageAdded { .. }));
    assert!(matches!(&first[1], ResponseEvent::TextDelta { delta, .. } if delta == "hel"));
    assert!(matches!(&second[0], ResponseEvent::TextDelta { delta, .. } if delta == "lo"));
    assert!(matches!(&terminal[0], ResponseEvent::MessageDone { text, .. } if text == "hello"));
    match &terminal[1] {
        ResponseEvent::Completed { usage, .. } => assert_eq!(
            *usage,
            Some(ResponseUsage {
                input_tokens: 3,
                cached_tokens: 1,
                output_tokens: 2,
                reasoning_tokens: 1,
                total_tokens: 5,
            })
        ),
        other => panic!("expected a completed event, got {other:?}"),
    }
}

#[test]
fn captures_plaintext_reasoning_before_assistant_text() {
    let mut translator = StreamTranslator::new(ReasoningContentPolicy::Plaintext);
    let reasoning = translator
        .push_chunk(chunk(delta(None, Some("Inspect carefully.")), None, None))
        .expect("reasoning chunk");
    let text = translator.push_chunk(text_chunk("Done.", Some("stop"), None)).expect("text chunk");
    let terminal = translator.finish(&ToolRegistry::new()).expect("finish");

    assert!(matches!(reasoning[0], ResponseEvent::ReasoningAdded { output_index: 0, .. }));
    assert!(matches!(&reasoning[1], ResponseEvent::ReasoningDelta { delta, .. } if delta == "Inspect carefully."));
    assert!(matches!(text[0], ResponseEvent::MessageAdded { output_index: 1, .. }));
    assert!(matches!(terminal[0], ResponseEvent::ReasoningTextDone { .. }));
    assert!(matches!(&terminal[1], ResponseEvent::ReasoningDone { output_index: 0, text, .. } if text == "Inspect carefully."));
    assert!(matches!(terminal[2], ResponseEvent::MessageDone { output_index: 1, .. }));
    assert!(matches!(terminal[3], ResponseEvent::Completed { .. }));
}

#[test]
fn rejects_unexpected_plaintext_reasoning() {
    let mut translator = StreamTranslator::new(ReasoningContentPolicy::Unsupported);
    let error = translator
        .push_chunk(chunk(delta(None, Some("not declared")), Some("stop"), None))
        .err()
        .map(|error| error.message());
    assert!(error.as_deref().is_some_and(|error| error.contains("reasoning-content policy")));
}

#[test]
fn restores_parallel_function_and_custom_calls() {
    let registry = ToolRegistry::from_responses_tools(&Some(vec![
        ToolDefinition::Function(FunctionTool {
            name: "shell".to_string(),
            description: "Run".to_string(),
            strict: false,
            defer_loading: None,
            parameters_json: "{\"type\":\"object\"}".to_string(),
        }),
        ToolDefinition::Custom(CustomTool {
            name: "apply_patch".to_string(),
            description: "Patch".to_string(),
            format_kind: "text".to_string(),
            format_syntax: "patch".to_string(),
            format_definition: String::new(),
        }),
    ]))
    .expect("registry");
    let custom_name = registry.safe_name_of(&ToolIdentity::custom("apply_patch", None));
    let mut translator = StreamTranslator::new(ReasoningContentPolicy::Unsupported);
    let mut first = delta(Some("working"), None);
    first.tool_calls = Some(vec![
        ChatToolCallDelta {
            index: 1,
            id: Some("call_patch".to_string()),
            name: Some(custom_name),
            arguments: Some("{\"input\":\"*** Begin ".to_string()),
        },
        ChatToolCallDelta {
            index: 0,
            id: Some("call_shell".to_string()),
            name: Some("shell".to_string()),
            arguments: Some("{\"cmd\":\"pwd\"}".to_string()),
        },
    ]);
    translator.push_chunk(chunk(first, None, None)).expect("first chunk");
    let mut second = delta(None, None);
    second.tool_calls = Some(vec![ChatToolCallDelta {
        index: 1,
        id: None,
        name: None,
        arguments: Some("Patch\"}".to_string()),
    }]);
    translator.push_chunk(chunk(second, Some("tool_calls"), None)).expect("second chunk");

    let events = translator.finish(&registry).expect("finish");

    assert!(matches!(&events[0], ResponseEvent::MessageDone { text, .. } if text == "working"));
    match &events[1] {
        ResponseEvent::ToolCallDone { item, .. } => {
            assert_eq!(item.call_id, "call_shell");
            assert!(matches!(item.payload, ToolCallPayload::Arguments(_)));
        }
        other => panic!("expected a function call, got {other:?}"),
    }
    match &events[2] {
        ResponseEvent::ToolCallDone { item, .. } => {
            assert_eq!(item.payload, ToolCallPayload::Input("*** Begin Patch".to_string()));
        }
        other => panic!("expected a custom tool call, got {other:?}"),
    }
    assert!(matches!(events[3], ResponseEvent::Completed { .. }));
}

#[test]
fn maps_length_finish_to_incomplete_without_completed() {
    let mut translator = StreamTranslator::new(ReasoningContentPolicy::Unsupported);
    translator.push_chunk(text_chunk("partial", Some("length"), None)).expect("chunk");
    let events = translator.finish(&ToolRegistry::new()).expect("finish");
    assert_eq!(events.len(), 1);
    assert!(matches!(events[0], ResponseEvent::Incomplete { .. }));
}

#[test]
fn maps_content_filter_to_failed_and_rejects_unknown_terminal_reasons() {
    let mut filtered = StreamTranslator::new(ReasoningContentPolicy::Unsupported);
    filtered.push_chunk(text_chunk("partial", Some("content_filter"), None)).expect("chunk");
    let filtered_events = filtered.finish(&ToolRegistry::new()).expect("finish");
    assert_eq!(filtered_events.len(), 1);
    assert!(matches!(filtered_events[0], ResponseEvent::Failed { .. }));

    let mut unknown = StreamTranslator::new(ReasoningContentPolicy::Unsupported);
    unknown.push_chunk(text_chunk("partial", Some("future_reason"), None)).expect("chunk");
    let error = unknown.finish(&ToolRegistry::new()).err().map(|error| error.message());
    assert_eq!(
        error.as_deref(),
        Some("upstream Chat Completions stream is invalid: unsupported Chat finish_reason \"future_reason\"")
    );
}
