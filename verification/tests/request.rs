use anthropic_compat::error::AnthropicError;
use anthropic_compat::interop::{from_serde, to_serde};
use anthropic_compat::json::Json;
use anthropic_compat::request::{convert_request, typed_request, ConvertedRequest};
use serde_json::Value;

fn value(text: &str) -> Value {
    serde_json::from_str(text).unwrap()
}

fn json(text: &str) -> Json {
    from_serde(value(text))
}

fn convert(text: &str) -> Result<ConvertedRequest, AnthropicError> {
    convert_request(json(text))
}

fn chat(text: &str) -> Value {
    to_serde(&convert(text).unwrap().chat)
}

fn refusal(text: &str) -> String {
    let error = convert(text).err().unwrap();
    assert_eq!(error.status, 400);
    assert_eq!(error.error_type, "invalid_request_error");
    error.message
}

/// A request whose only message has the given role and content.
fn with_message(role: &str, content: &str) -> String {
    format!(
        r#"{{"model": "m", "max_tokens": 1, "messages": [{{"role": "{role}", "content": {content}}}]}}"#
    )
}

/// A request with one more field.
fn with_field(field: &str) -> String {
    format!(
        r#"{{"model": "m", "max_tokens": 1, "messages": [{{"role": "user", "content": "hi"}}], {field}}}"#
    )
}

#[test]
fn converts_anthropic_request_with_system_tools_and_tool_result() {
    let converted = convert(
        r#"{
            "model": "kimi-2.7",
            "max_tokens": 128,
            "thinking": {"type": "enabled", "budget_tokens": 64},
            "system": [{"type": "text", "text": "Be concise."}],
            "messages": [
                {
                    "role": "assistant",
                    "content": [{
                        "type": "tool_use",
                        "id": "toolu_1",
                        "name": "weather",
                        "input": {"city": "Shanghai"}
                    }]
                },
                {
                    "role": "user",
                    "content": [{
                        "type": "tool_result",
                        "tool_use_id": "toolu_1",
                        "content": "sunny"
                    }]
                }
            ],
            "tools": [{
                "name": "weather",
                "description": "Get weather",
                "input_schema": {
                    "type": "object",
                    "properties": {"city": {"type": "string"}}
                }
            }],
            "tool_choice": {"type": "tool", "name": "weather"},
            "stream": false
        }"#,
    )
    .unwrap();

    let value = to_serde(&converted.chat);
    assert_eq!(value["messages"][0]["role"], "system");
    assert_eq!(
        value["messages"][1]["tool_calls"][0]["function"]["name"],
        "weather"
    );
    assert_eq!(value["messages"][2]["role"], "tool");
    assert_eq!(value["tools"][0]["function"]["name"], "weather");
    assert_eq!(
        value["tool_choice"]["function"]["name"],
        Value::String("weather".to_string())
    );
    assert_eq!(
        value["chat_template_kwargs"]["enable_thinking"],
        Value::Bool(true)
    );
    assert!(converted.response_config.include_thinking);
}

#[test]
fn enables_raw_thinking_fallback_for_kimi_without_thinking_config() {
    let converted = convert(
        r#"{
            "model": "Kimi2.7",
            "max_tokens": 64,
            "messages": [{"role": "user", "content": "Reply with exactly: OK"}]
        }"#,
    )
    .unwrap();

    assert!(converted.response_config.include_thinking);
    assert!(converted.response_config.raw_thinking_fallback);
}

#[test]
fn requests_usage_for_streaming_responses() {
    let converted = convert(
        r#"{
            "model": "Kimi2.7",
            "max_tokens": 64,
            "stream": true,
            "messages": [{"role": "user", "content": "Reply with exactly: OK"}]
        }"#,
    )
    .unwrap();
    let value = to_serde(&converted.chat);

    assert_eq!(value["stream_options"]["include_usage"], Value::Bool(true));
}

#[test]
fn rejects_missing_required_fields() {
    let error = convert(r#"{"model": "kimi-2.7", "messages": []}"#)
        .err()
        .unwrap();
    assert_eq!(error.status, axum::http::StatusCode::BAD_REQUEST.as_u16());
    assert!(error.message.contains("max_tokens"));
}

#[test]
fn whole_chat_request_in_order() {
    let text = r#"{
        "messages": [{"role": "user", "content": "hi"}],
        "system": "sys",
        "model": "m",
        "max_tokens": 7,
        "stream": true,
        "top_k": 3,
        "temperature": 0.5,
        "top_p": 1e0,
        "stop_sequences": ["a", "b"],
        "metadata": {"user_id": "u1", "other": 1},
        "tools": [{"name": "t"}],
        "tool_choice": {"type": "any", "disable_parallel_tool_use": true},
        "thinking": {"type": "disabled"}
    }"#;
    let converted = convert(text).unwrap();
    assert_eq!(
        to_serde(&converted.chat).to_string(),
        r#"{"model":"m","max_tokens":7,"stream":true,"stream_options":{"include_usage":true},"messages":[{"role":"system","content":"sys"},{"role":"user","content":"hi"}],"temperature":0.5,"top_p":1.0,"top_k":3,"stop":["a","b"],"user":"u1","tools":[{"type":"function","function":{"name":"t","description":null,"parameters":{"type":"object"}}}],"tool_choice":"required","parallel_tool_calls":false,"chat_template_kwargs":{"enable_thinking":false}}"#
    );
    let config = converted.response_config;
    assert_eq!(config.model, "m");
    assert!(config.stream);
    assert!(!config.include_thinking);
    assert!(!config.raw_thinking_fallback);
}

#[test]
fn optional_settings_are_left_out() {
    let value = chat(&with_message("user", r#""hi""#));
    assert_eq!(
        value.to_string(),
        r#"{"model":"m","max_tokens":1,"stream":false,"messages":[{"role":"user","content":"hi"}]}"#
    );
    let odd = chat(&with_field(
        r#""temperature": "hot", "top_p": null, "top_k": [], "stream": "yes", "metadata": {"user_id": 5}, "thinking": "on", "system": """#,
    ));
    assert_eq!(
        odd.to_string(),
        r#"{"model":"m","max_tokens":1,"stream":false,"messages":[{"role":"user","content":"hi"}],"chat_template_kwargs":{"enable_thinking":true}}"#
    );
}

#[test]
fn thinking_settings() {
    let config = |field: &str| convert(&with_field(field)).unwrap().response_config;
    let enabled = config(r#""thinking": {"type": "enabled"}"#);
    assert!(enabled.include_thinking && enabled.raw_thinking_fallback);
    let adaptive = config(r#""thinking": {"type": "adaptive"}"#);
    assert!(adaptive.include_thinking && !adaptive.raw_thinking_fallback);
    let disabled = convert(
        r#"{"model": "org/KIMI2.7-x", "max_tokens": 1, "thinking": {"type": "disabled"},
            "messages": [{"role": "user", "content": "hi"}]}"#,
    )
    .unwrap()
    .response_config;
    assert!(!disabled.include_thinking && !disabled.raw_thinking_fallback);
    let dashed = convert(
        r#"{"model": "kimi-2.7", "max_tokens": 1, "messages": [{"role": "user", "content": ""}]}"#,
    )
    .unwrap()
    .response_config;
    assert!(dashed.include_thinking && !dashed.raw_thinking_fallback);
}

#[test]
fn assistant_content() {
    let value = chat(&with_message(
        "assistant",
        r#"[
            {"type": "thinking", "thinking": "first"},
            {"type": "text", "text": "one"},
            {"type": "redacted_thinking", "data": "x"},
            {"type": "text", "text": ""},
            {"type": "text"},
            {"type": "text", "text": "two"},
            {"type": "thinking", "thinking": "second"},
            {"type": "tool_use", "id": "a", "name": "f"}
        ]"#,
    ));
    assert_eq!(
        value["messages"][0].to_string(),
        r#"{"role":"assistant","content":"one\ntwo","reasoning_content":"first\nsecond","tool_calls":[{"id":"a","type":"function","function":{"name":"f","arguments":"{}"}}]}"#
    );
    assert_eq!(
        chat(&with_message("assistant", "[]"))["messages"][0].to_string(),
        r#"{"role":"assistant","content":null}"#
    );
    assert_eq!(
        chat(&with_message("assistant", r#""plain""#))["messages"][0].to_string(),
        r#"{"role":"assistant","content":"plain"}"#
    );
}

#[test]
fn user_content() {
    let value = chat(&with_message(
        "user",
        r#"[
            {"type": "text", "text": "look"},
            {"type": "image", "source": {"type": "base64", "media_type": "image/png", "data": "QQ=="}},
            {"type": "tool_result", "tool_use_id": "t1",
             "content": [{"type": "text", "text": "a"}, {"type": "text", "text": "b"}]},
            {"type": "tool_result", "tool_use_id": "t2"},
            {"type": "image", "source": {"type": "url", "url": "https://example.com/i.png"}},
            {"type": "text"}
        ]"#,
    ));
    assert_eq!(
        value["messages"].to_string(),
        r#"[{"role":"user","content":[{"type":"text","text":"look"},{"type":"image_url","image_url":{"url":"data:image/png;base64,QQ=="}}]},{"role":"tool","tool_call_id":"t1","content":"a\nb"},{"role":"tool","tool_call_id":"t2","content":""},{"role":"user","content":[{"type":"image_url","image_url":{"url":"https://example.com/i.png"}},{"type":"text","text":""}]}]"#
    );
    assert_eq!(
        chat(&with_message("user", "[]"))["messages"].to_string(),
        r#"[{"role":"user","content":""}]"#
    );
}

#[test]
fn longer_conversation_keeps_its_beginning() {
    let first = r#"{"role": "user", "content": "a"}, {"role": "assistant", "content": "b"}"#;
    let second = r#"{"role": "user", "content": [{"type": "tool_result", "tool_use_id": "t"}, {"type": "text", "text": "c"}]}"#;
    let messages = |items: &str| {
        let text = format!(r#"{{"model": "m", "max_tokens": 1, "messages": [{items}]}}"#);
        chat(&text)["messages"].as_array().unwrap().clone()
    };
    let mut parts = messages(first);
    parts.extend(messages(second));
    assert_eq!(messages(&format!("{first}, {second}")), parts);
    assert_eq!(parts.len(), 4);
}

#[test]
fn tool_choices() {
    let choice = |field: &str| chat(&with_field(&format!(r#""tool_choice": {field}"#)));
    assert_eq!(choice(r#"{"type": "auto"}"#)["tool_choice"], "auto");
    assert_eq!(choice(r#"{"type": "any"}"#)["tool_choice"], "required");
    let none = choice(r#"{"type": "none", "disable_parallel_tool_use": false}"#);
    assert_eq!(none["tool_choice"], "none");
    assert_eq!(none["parallel_tool_calls"], Value::Bool(true));
    assert!(choice(r#"{"type": "auto", "disable_parallel_tool_use": 1}"#)
        .get("parallel_tool_calls")
        .is_none());
}

#[test]
fn tools_keep_their_order() {
    let value = chat(&with_field(
        r#""tools": [{"name": "b", "description": "B"}, {"name": "a", "input_schema": {"x": [1, -2, 0.5]}}]"#,
    ));
    assert_eq!(
        value["tools"].to_string(),
        r#"[{"type":"function","function":{"name":"b","description":"B","parameters":{"type":"object"}}},{"type":"function","function":{"name":"a","description":null,"parameters":{"x":[1,-2,0.5]}}}]"#
    );
}

#[test]
fn refusals_of_requests() {
    assert_eq!(refusal("[]"), "request body must be a JSON object");
    assert_eq!(refusal("{}"), "model must be a non-empty string");
    assert_eq!(refusal(r#"{"model": ""}"#), "model must be a non-empty string");
    for limit in ["0", "-1", "1.5", "\"1\"", "null"] {
        let text = format!(r#"{{"model": "m", "max_tokens": {limit}}}"#);
        assert_eq!(refusal(&text), "max_tokens must be a positive integer");
    }
    assert_eq!(
        refusal(r#"{"model": "m", "max_tokens": 1, "messages": {}}"#),
        "messages must be an array"
    );
    assert_eq!(
        refusal(r#"{"model": "m", "max_tokens": 1, "messages": []}"#),
        "messages must not be empty"
    );
    assert_eq!(
        refusal(&with_field(r#""system": 1"#)),
        "system content must be a string or block array"
    );
    assert_eq!(
        refusal(&with_field(r#""system": ["x"]"#)),
        "system block must be an object"
    );
    assert_eq!(
        refusal(&with_field(r#""system": [{"type": "image"}]"#)),
        "system only supports text blocks"
    );
    assert_eq!(
        refusal(&with_field(r#""stop_sequences": "x""#)),
        "stop_sequences must be an array of strings"
    );
    assert_eq!(refusal(&with_field(r#""tools": {}"#)), "tools must be an array");
    assert_eq!(
        refusal(&with_field(r#""tools": [1]"#)),
        "each tool must be an object"
    );
    assert_eq!(
        refusal(&with_field(r#""tools": [{}]"#)),
        "name must be a non-empty string"
    );
    assert_eq!(
        refusal(&with_field(r#""tool_choice": "auto""#)),
        "tool_choice must be an object"
    );
    assert_eq!(
        refusal(&with_field(r#""tool_choice": {}"#)),
        "type must be a non-empty string"
    );
    assert_eq!(
        refusal(&with_field(r#""tool_choice": {"type": "tool"}"#)),
        "name must be a non-empty string"
    );
    assert_eq!(
        refusal(&with_field(r#""tool_choice": {"type": "odd"}"#)),
        "unsupported tool_choice type: odd"
    );
    // The first of several faults is reported.
    assert_eq!(
        refusal(&with_field(r#""tool_choice": 1, "tools": 1, "stop_sequences": 1"#)),
        "stop_sequences must be an array of strings"
    );
}

#[test]
fn refusals_of_messages() {
    let messages = |items: &str| {
        refusal(&format!(r#"{{"model": "m", "max_tokens": 1, "messages": [{items}]}}"#))
    };
    assert_eq!(messages("1"), "each message must be an object");
    assert_eq!(messages("{}"), "role must be a non-empty string");
    assert_eq!(messages(r#"{"role": "user"}"#), "message content is required");
    assert_eq!(
        messages(r#"{"role": "system", "content": ""}"#),
        "Anthropic message role must be user or assistant"
    );
    let assistant = |content: &str| refusal(&with_message("assistant", content));
    assert_eq!(
        assistant("1"),
        "assistant content must be a string or content block array"
    );
    assert_eq!(assistant("[1]"), "content block must be an object");
    assert_eq!(assistant("[{}]"), "content block type is required");
    assert_eq!(
        assistant(r#"[{"type": "image"}]"#),
        "unsupported assistant content block type: image"
    );
    assert_eq!(
        assistant(r#"[{"type": "tool_use", "name": "f"}]"#),
        "id must be a non-empty string"
    );
    assert_eq!(
        assistant(r#"[{"type": "tool_use", "id": "i"}]"#),
        "name must be a non-empty string"
    );
    let user = |content: &str| refusal(&with_message("user", content));
    assert_eq!(
        user("null"),
        "user content must be a string or content block array"
    );
    assert_eq!(user("[1]"), "content block must be an object");
    assert_eq!(user("[{}]"), "content block type is required");
    assert_eq!(
        user(r#"[{"type": "thinking"}]"#),
        "unsupported user content block type: thinking"
    );
    assert_eq!(
        user(r#"[{"type": "tool_result"}]"#),
        "tool_use_id must be a non-empty string"
    );
    assert_eq!(
        user(r#"[{"type": "tool_result", "tool_use_id": "t", "content": 1}]"#),
        "tool_result content must be a string or block array"
    );
    assert_eq!(
        user(r#"[{"type": "image"}]"#),
        "image source must be an object"
    );
    assert_eq!(
        user(r#"[{"type": "image", "source": {}}]"#),
        "image source type is required"
    );
    assert_eq!(
        user(r#"[{"type": "image", "source": {"type": "file"}}]"#),
        "unsupported image source type: file"
    );
    assert_eq!(
        user(r#"[{"type": "image", "source": {"type": "base64"}}]"#),
        "media_type must be a non-empty string"
    );
    assert_eq!(
        user(r#"[{"type": "image", "source": {"type": "base64", "media_type": "x"}}]"#),
        "data must be a non-empty string"
    );
    assert_eq!(
        user(r#"[{"type": "image", "source": {"type": "url"}}]"#),
        "url must be a non-empty string"
    );
}

#[test]
fn request_without_a_typed_form_is_refused() {
    assert_eq!(typed_request::<u8>(Ok(3)).unwrap(), 3);
    let error = typed_request::<u8>(Err("bad field".to_string())).err().unwrap();
    assert_eq!(error.status, 400);
    assert_eq!(
        error.message,
        "request cannot be converted to Chat Completions: bad field"
    );
}
