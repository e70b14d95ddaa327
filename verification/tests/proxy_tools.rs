use codex_kit::proxy::protocol::{
    ChatToolParameters, CustomTool, FunctionTool, NamespaceMember, ToolCallPayload, ToolDefinition,
};
use codex_kit::proxy::tool_registry::{ToolIdentity, ToolRegistry};

fn function(name: &str, description: &str, strict: bool, parameters: &str) -> FunctionTool {
    FunctionTool {
        name: name.to_string(),
        description: description.to_string(),
        strict,
        defer_loading: None,
        parameters_json: parameters.to_string(),
    }
}

fn custom(name: &str, description: &str, kind: &str, syntax: &str, definition: &str) -> CustomTool {
    CustomTool {
        name: name.to_string(),
        description: description.to_string(),
        format_kind: kind.to_string(),
        format_syntax: syntax.to_string(),
        format_definition: definition.to_string(),
    }
}

#[test]
fn translates_function_namespace_and_custom_tools() {
    let registry = ToolRegistry::from_responses_tools(&Some(vec![
        ToolDefinition::Function(function("shell", "Run a command", false, "{\"type\":\"object\"}")),
        ToolDefinition::Namespace {
            name: "apps".to_string(),
            description: "Connected apps".to_string(),
            tools: vec![NamespaceMember::Function(function(
                "search",
                "Search mail",
                true,
                "{\"type\":\"object\",\"properties\":{}}",
            ))],
        },
        ToolDefinition::Custom(custom("apply_patch", "Apply a patch", "grammar", "lark", "start: PATCH")),
    ]))
    .expect("registry");

    let tools = registry.chat_tools().expect("expected translated tools");
    assert_eq!(tools.len(), 3);
    assert_eq!(tools[0].name, "shell");
    assert_eq!(tools[1].description, "Connected apps\n\nSearch mail");
    assert!(tools[1].name.starts_with("codex_function_"));
    assert!(tools[2].name.starts_with("codex_custom_"));
    assert_eq!(tools[2].parameters, ChatToolParameters::FreeformInput);
}

#[test]
fn restores_original_custom_tool_call() {
    let registry = ToolRegistry::from_responses_tools(&Some(vec![ToolDefinition::Custom(custom(
        "apply_patch",
        "Apply",
        "text",
        "patch",
        "",
    ))]))
    .expect("registry");
    let safe_name = registry.safe_name_of(&ToolIdentity::custom("apply_patch", None));

    let item = registry
        .response_item(
            "fc_1".to_string(),
            "call_1".to_string(),
            &safe_name,
            "{\"input\":\"*** Begin Patch\"}".to_string(),
        )
        .expect("restored item");

    assert_eq!(item.id, "fc_1");
    assert_eq!(item.call_id, "call_1");
    assert_eq!(item.name, "apply_patch");
    assert_eq!(item.namespace, None);
    assert_eq!(item.payload, ToolCallPayload::Input("*** Begin Patch".to_string()));
}

#[test]
fn rejects_tools_that_chat_cannot_execute() {
    let error = ToolRegistry::from_responses_tools(&Some(vec![ToolDefinition::Unsupported {
        kind: "web_search".to_string(),
    }]))
    .err()
    .map(|error| error.message());
    assert_eq!(
        error.as_deref(),
        Some("unsupported Responses feature: tool type \"web_search\" cannot be represented by Chat Completions")
    );
}

#[test]
fn rejects_deferred_function_tools() {
    let mut deferred = function("later", "Deferred", false, "{\"type\":\"object\"}");
    deferred.defer_loading = Some(true);
    let error = ToolRegistry::from_responses_tools(&Some(vec![ToolDefinition::Function(deferred)]))
        .err()
        .map(|error| error.message());
    assert!(error.as_deref().is_some_and(|error| error.contains("deferred loading")));
}
