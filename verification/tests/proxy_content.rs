use codex_kit::proxy::config::{BackendCapabilities, ReasoningContentPolicy};
use codex_kit::proxy::error::ProxyError;
use codex_kit::proxy::history::tool_content;
use codex_kit::proxy::protocol::{
    ChatContentPart, ChatMessage, ChatToolCall, FunctionCallOutputBody, ImageDetail, InputItem,
    ReasoningItemContent, ResponsesRequest, ToolChoice, ToolOutputPart, UserContent,
};
use codex_kit::proxy::request::translate_request;

fn request(input: Vec<InputItem>) -> ResponsesRequest {
    ResponsesRequest {
        model: "vision".to_string(),
        instructions: String::new(),
        input,
        tools: None,
        tool_choice: ToolChoice::Named("auto".to_string()),
        parallel_tool_calls: false,
        reasoning: None,
        store: false,
        stream: true,
        stream_options_json: None,
        include_entries: Vec::new(),
        service_tier: None,
        prompt_cache_key: None,
        text: None,
        client_metadata_json: None,
    }
}

fn text(text: &str) -> ToolOutputPart {
    ToolOutputPart::InputText { text: text.to_string() }
}

fn image(url: &str, detail: Option<ImageDetail>) -> ToolOutputPart {
    ToolOutputPart::InputImage { image_url: url.to_string(), detail }
}

#[test]
fn image_tool_outputs_preserve_parallel_calls_reasoning_and_content_order() {
    for custom in [false, true] {
        let first_call = if custom {
            InputItem::CustomToolCall {
                name: "inspect".to_string(),
                namespace: None,
                input: "inspect".to_string(),
                call_id: "image".to_string(),
            }
        } else {
            InputItem::FunctionCall {
                name: "inspect".to_string(),
                namespace: None,
                arguments: "{}".to_string(),
                call_id: "image".to_string(),
            }
        };
        let parts = FunctionCallOutputBody::ContentItems(vec![
            text("Before"),
            image("data:image/png;base64,first", Some(ImageDetail::Original)),
            text("Between"),
            image("data:image/png;base64,second", None),
        ]);
        let first_output = if custom {
            InputItem::CustomToolCallOutput { call_id: "image".to_string(), output: parts }
        } else {
            InputItem::FunctionCallOutput { call_id: Some("image".to_string()), output: parts }
        };
        let request = request(vec![
            InputItem::Reasoning {
                summary_is_empty: true,
                content: Some(vec![ReasoningItemContent::ReasoningText {
                    text: "Inspect both.".to_string(),
                }]),
                has_encrypted_content: false,
            },
            first_call,
            InputItem::FunctionCall {
                name: "check".to_string(),
                namespace: None,
                arguments: "{}".to_string(),
                call_id: "text".to_string(),
            },
            first_output,
            InputItem::FunctionCallOutput {
                call_id: Some("text".to_string()),
                output: FunctionCallOutputBody::Text("OK".to_string()),
            },
        ]);
        let translated = translate_request(
            request,
            BackendCapabilities {
                image_input: true,
                image_tool_output: true,
                reasoning_content: ReasoningContentPolicy::Plaintext,
                ..BackendCapabilities::default()
            },
            None,
        )
        .expect("translates");
        let messages = translated.chat.messages;
        let tool_name = match &messages[0] {
            ChatMessage::Assistant { tool_calls, .. } => tool_calls[0].name.clone(),
            other => panic!("unexpected first message {other:?}"),
        };
        assert_eq!(
            messages,
            vec![
                ChatMessage::Assistant {
                    content: None,
                    reasoning_content: Some("Inspect both.".to_string()),
                    tool_calls: vec![
                        ChatToolCall {
                            id: "image".to_string(),
                            name: tool_name,
                            arguments: if custom {
                                "{\"input\":\"inspect\"}".to_string()
                            } else {
                                "{}".to_string()
                            },
                        },
                        ChatToolCall {
                            id: "text".to_string(),
                            name: "check".to_string(),
                            arguments: "{}".to_string(),
                        },
                    ],
                },
                ChatMessage::Tool {
                    tool_call_id: "image".to_string(),
                    content: UserContent::Parts(vec![
                        ChatContentPart::Text { text: "Before".to_string() },
                        ChatContentPart::ImageUrl {
                            url: "data:image/png;base64,first".to_string(),
                            detail: Some(ImageDetail::Original),
                        },
                        ChatContentPart::Text { text: "Between".to_string() },
                        ChatContentPart::ImageUrl {
                            url: "data:image/png;base64,second".to_string(),
                            detail: None,
                        },
                    ]),
                },
                ChatMessage::Tool {
                    tool_call_id: "text".to_string(),
                    content: UserContent::Text("OK".to_string()),
                },
            ]
        );
    }
}

#[test]
fn structured_text_tool_outputs_do_not_require_image_support() {
    for (output, expected) in [
        (FunctionCallOutputBody::Text("unchanged".to_string()), "unchanged"),
        (FunctionCallOutputBody::ContentItems(Vec::new()), ""),
        (FunctionCallOutputBody::ContentItems(vec![text("first"), text("second")]), "first\nsecond"),
    ] {
        assert_eq!(
            tool_content(&output, BackendCapabilities::default()),
            Ok(UserContent::Text(expected.to_string()))
        );
    }
}

#[test]
fn user_image_support_does_not_imply_tool_image_support() {
    for capabilities in [
        BackendCapabilities { image_input: true, ..BackendCapabilities::default() },
        BackendCapabilities { image_tool_output: true, ..BackendCapabilities::default() },
    ] {
        let output =
            FunctionCallOutputBody::ContentItems(vec![image("data:image/png;base64,image", None)]);
        assert!(tool_content(&output, capabilities).is_err());
    }
}

#[test]
fn unsupported_tool_parts_are_not_silently_dropped() {
    for part in [ToolOutputPart::InputAudio, ToolOutputPart::Encrypted] {
        let output = FunctionCallOutputBody::ContentItems(vec![text("keep me"), part]);
        assert!(tool_content(
            &output,
            BackendCapabilities {
                image_input: true,
                image_tool_output: true,
                ..BackendCapabilities::default()
            }
        )
        .is_err());
    }
}

#[test]
fn tool_output_errors_name_what_was_refused() {
    let caps = BackendCapabilities::default();
    let image_only = FunctionCallOutputBody::ContentItems(vec![image("u", None)]);
    assert_eq!(
        tool_content(&image_only, caps),
        Err(ProxyError::Unsupported(
            "image tool-call output; start the proxy with --supports-image-input and --supports-image-tool-output or use a profile that enables them"
                .to_string()
        ))
    );
    let tool_images = BackendCapabilities { image_tool_output: true, ..caps };
    assert_eq!(
        tool_content(&image_only, tool_images),
        Err(ProxyError::Unsupported(
            "image input; start the proxy with --supports-image-input or use text-only input"
                .to_string()
        ))
    );
    assert_eq!(
        tool_content(&FunctionCallOutputBody::ContentItems(vec![ToolOutputPart::InputAudio]), caps),
        Err(ProxyError::Unsupported("audio tool-call output".to_string()))
    );
    assert_eq!(
        tool_content(&FunctionCallOutputBody::ContentItems(vec![ToolOutputPart::Encrypted]), caps),
        Err(ProxyError::Unsupported("encrypted tool-call output".to_string()))
    );
    let both = BackendCapabilities { image_input: true, image_tool_output: true, ..caps };
    assert_eq!(
        tool_content(&image_only, both),
        Ok(UserContent::Parts(vec![ChatContentPart::ImageUrl { url: "u".to_string(), detail: None }]))
    );
}

#[test]
fn compiled_tool_calls_are_answered_once_after_they_are_made() {
    let call = |id: &str| InputItem::FunctionCall {
        name: "lookup".to_string(),
        namespace: None,
        arguments: "{}".to_string(),
        call_id: id.to_string(),
    };
    let output = |id: &str| InputItem::FunctionCallOutput {
        call_id: Some(id.to_string()),
        output: FunctionCallOutputBody::Text("done".to_string()),
    };
    let user = |t: &str| InputItem::Message {
        role: "user".to_string(),
        content: vec![codex_kit::proxy::protocol::ContentItem::InputText { text: t.to_string() }],
    };
    let input = vec![user("start"), call("a"), call("b"), output("b"), output("a"), user("next"), call("c"), output("c")];
    let registry = codex_kit::proxy::tool_registry::ToolRegistry::new();
    let messages = codex_kit::proxy::history::compile_history(
        "Be brief.".to_string(),
        &input,
        &registry,
        BackendCapabilities::default(),
    )
    .unwrap();
    assert_eq!(messages.len(), 8);
    let mut call_positions: Vec<(String, usize)> = Vec::new();
    for (i, message) in messages.iter().enumerate() {
        if let ChatMessage::Assistant { content, reasoning_content, tool_calls } = message {
            assert!(content.is_some() || reasoning_content.is_some() || !tool_calls.is_empty());
            for tool_call in tool_calls {
                assert!(call_positions.iter().all(|(id, _)| id != &tool_call.id));
                call_positions.push((tool_call.id.clone(), i));
            }
        }
    }
    assert_eq!(call_positions.len(), 3);
    for (id, i) in &call_positions {
        let answers: Vec<usize> = messages
            .iter()
            .enumerate()
            .filter(|(_, m)| matches!(m, ChatMessage::Tool { tool_call_id, .. } if tool_call_id == id))
            .map(|(k, _)| k)
            .collect();
        assert_eq!(answers.len(), 1);
        assert!(answers[0] > *i);
        assert!(messages[*i + 1..answers[0]].iter().all(|m| matches!(m, ChatMessage::Tool { .. })));
    }
    let duplicate = vec![call("a"), output("a"), call("a"), output("a")];
    assert!(codex_kit::proxy::history::compile_history(
        String::new(),
        &duplicate,
        &registry,
        BackendCapabilities::default(),
    )
    .is_err());
}

#[test]
fn custom_tool_input_is_written_as_an_escaped_json_object() {
    let input = vec![
        InputItem::CustomToolCall {
            name: "apply_patch".to_string(),
            namespace: None,
            input: "say \"hi\"\\\n\u{1}é".to_string(),
            call_id: "c".to_string(),
        },
        InputItem::CustomToolCallOutput {
            call_id: "c".to_string(),
            output: FunctionCallOutputBody::Text("ok".to_string()),
        },
    ];
    let registry = codex_kit::proxy::tool_registry::ToolRegistry::new();
    let messages = codex_kit::proxy::history::compile_history(
        String::new(),
        &input,
        &registry,
        BackendCapabilities::default(),
    )
    .unwrap();
    match &messages[0] {
        ChatMessage::Assistant { tool_calls, .. } => {
            assert_eq!(tool_calls[0].arguments, "{\"input\":\"say \\\"hi\\\"\\\\\\n\\u0001é\"}");
        }
        other => panic!("expected an assistant message, got {other:?}"),
    }
}
