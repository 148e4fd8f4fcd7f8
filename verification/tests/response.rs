use anthropic_compat::interop::{from_serde, to_serde};
use anthropic_compat::json::Json;
use anthropic_compat::messages::{convert_assistant_message, convert_tool_use};
use anthropic_compat::request::ResponseConfig;
use anthropic_compat::response::{
    anthropic_message_id, convert_non_stream_value, json_response_text, map_stop_reason,
    parsed_json_response,
};
use serde_json::Value;

fn json(text: &str) -> Json {
    from_serde(serde_json::from_str(text).unwrap())
}

fn config(include_thinking: bool, raw_thinking_fallback: bool) -> ResponseConfig {
    ResponseConfig {
        model: "kimi-2.7".to_string(),
        stream: false,
        include_thinking,
        raw_thinking_fallback,
    }
}

fn converted(text: &str, config: &ResponseConfig) -> Value {
    to_serde(&convert_non_stream_value(&json(text), config).unwrap())
}

/// The content of the message for a choice.
fn content(message: &str, finish_reason: &str, config: &ResponseConfig) -> String {
    let text = format!(
        r#"{{"choices": [{{"message": {message}, "finish_reason": "{finish_reason}"}}]}}"#
    );
    converted(&text, config)["content"].to_string()
}

#[test]
fn converts_non_stream_response() {
    let response = converted(
        r#"{
            "id": "chatcmpl-123",
            "model": "kimi-2.7",
            "choices": [{
                "message": {
                    "role": "assistant",
                    "content": "Hello",
                    "tool_calls": [{
                        "id": "call_1",
                        "type": "function",
                        "function": {"name": "weather", "arguments": "{\"city\":\"Shanghai\"}"}
                    }]
                },
                "finish_reason": "tool_calls"
            }],
            "usage": {"prompt_tokens": 10, "completion_tokens": 5}
        }"#,
        &config(false, false),
    );

    assert_eq!(response["id"], "msg_123");
    assert_eq!(response["content"][0]["type"], "text");
    assert_eq!(response["content"][1]["type"], "tool_use");
    assert_eq!(response["stop_reason"], "tool_use");
    assert_eq!(response["usage"]["input_tokens"], 10);
    assert_eq!(response["usage"]["output_tokens"], 5);
}

#[test]
fn splits_raw_kimi_thinking_in_non_stream_response() {
    let response = converted(
        r#"{
            "id": "chatcmpl-raw-thinking",
            "model": "kimi-2.7",
            "choices": [{
                "message": {
                    "role": "assistant",
                    "content": "Compute 17 times 23.</think>391"
                },
                "finish_reason": "stop"
            }]
        }"#,
        &config(true, true),
    );

    assert_eq!(response["content"][0]["type"], "thinking");
    assert_eq!(response["content"][0]["thinking"], "Compute 17 times 23.");
    assert_eq!(response["content"][1]["type"], "text");
    assert_eq!(response["content"][1]["text"], "391");
}

#[test]
fn keeps_truncated_raw_kimi_output_as_thinking() {
    let response = converted(
        r#"{
            "id": "chatcmpl-truncated-thinking",
            "model": "kimi-2.7",
            "choices": [{
                "message": {
                    "role": "assistant",
                    "content": "The user wants me to reply with exactly"
                },
                "finish_reason": "length"
            }]
        }"#,
        &config(true, true),
    );

    assert_eq!(response["content"].as_array().unwrap().len(), 1);
    assert_eq!(response["content"][0]["type"], "thinking");
    assert_eq!(
        response["content"][0]["thinking"],
        "The user wants me to reply with exactly"
    );
    assert_eq!(response["stop_reason"], "max_tokens");
}

#[test]
fn whole_message_in_order() {
    let response = converted(
        r#"{
            "id": "chatcmpl-chatcmpl-9",
            "choices": [{
                "message": {
                    "content": "text",
                    "reasoning_content": "why",
                    "tool_calls": [
                        {"function": {"arguments": "no json"}},
                        {"id": "c", "function": {"name": "f", "arguments": "[1,-2,0.5,null]"}}
                    ]
                },
                "finish_reason": "odd"
            }, {"message": {"content": "ignored"}}],
            "usage": {"prompt_tokens": "many", "completion_tokens": 18446744073709551615}
        }"#,
        &config(true, false),
    );
    assert_eq!(
        response.to_string(),
        r#"{"id":"msg_9","type":"message","role":"assistant","content":[{"type":"thinking","thinking":"why","signature":""},{"type":"text","text":"text"},{"type":"tool_use","id":"toolu_unknown","name":"unknown","input":{}},{"type":"tool_use","id":"c","name":"f","input":[1,-2,0.5,null]}],"model":"kimi-2.7","stop_reason":"odd","stop_sequence":null,"usage":{"input_tokens":0,"output_tokens":18446744073709551615}}"#
    );
}

#[test]
fn what_is_shown_of_an_answer() {
    let tagged = r#"{"content": " <think> a </think> b"}"#;
    let both = r#"[{"type":"thinking","thinking":"a","signature":""},{"type":"text","text":"b"}]"#;
    assert_eq!(content(tagged, "stop", &config(true, true)), both);
    let plain = r#"[{"type":"text","text":" <think> a </think> b"}]"#;
    assert_eq!(content(tagged, "stop", &config(true, false)), plain);
    assert_eq!(content(tagged, "stop", &config(false, true)), plain);
    // Reasoning that is marked as such is taken as it is, and so is the text.
    let marked = r#"{"content": "x</think>y", "reasoning_content": "r"}"#;
    assert_eq!(
        content(marked, "stop", &config(true, true)),
        r#"[{"type":"thinking","thinking":"r","signature":""},{"type":"text","text":"x</think>y"}]"#
    );
    assert_eq!(
        content(marked, "stop", &config(false, false)),
        r#"[{"type":"text","text":"x</think>y"}]"#
    );
    // There are no empty blocks.
    let empty = r#"{"content": "<think>  </think>  ", "reasoning_content": ""}"#;
    assert_eq!(content(empty, "stop", &config(true, true)), "[]");
    assert_eq!(content(r#"{"content": null}"#, "stop", &config(true, true)), "[]");
    // An answer that was cut off in front of any reasoning stays text.
    assert_eq!(
        content(r#"{"content": "<think> "}"#, "length", &config(true, true)),
        r#"[{"type":"text","text":"<think> "}]"#
    );
    assert_eq!(
        content(r#"{"content": "answer"}"#, "stop", &config(true, true)),
        r#"[{"type":"text","text":"answer"}]"#
    );
}

#[test]
fn responses_that_cannot_be_converted() {
    let refusal = |text: &str| {
        let error = convert_non_stream_value(&json(text), &config(true, true))
            .err()
            .unwrap();
        assert_eq!(error.status, 500);
        assert_eq!(error.error_type, "api_error");
        error.message
    };
    for text in ["null", "{}", r#"{"choices": 1}"#, r#"{"choices": []}"#] {
        assert_eq!(refusal(text), "Chat Completions response has no choices");
    }
    for text in [r#"{"choices": [1]}"#, r#"{"choices": [{"message": "m"}]}"#] {
        assert_eq!(refusal(text), "Chat Completions response has no message");
    }
    assert_eq!(
        refusal(r#"{"choices": [{"message": {"tool_calls": [{"function": 1}]}}]}"#),
        "tool call has no function"
    );
}

#[test]
fn response_bodies() {
    let config = config(true, true);
    let body = br#"{"id": "msg_7", "model": "other", "choices": [{"message": {"content": "hi"}}]}"#;
    assert_eq!(
        json_response_text(Ok(body.to_vec()), &config).unwrap(),
        r#"{"id":"msg_7","type":"message","role":"assistant","content":[{"type":"text","text":"hi"}],"model":"other","stop_reason":null,"stop_sequence":null,"usage":{"input_tokens":0,"output_tokens":0}}"#
    );
    let unread = json_response_text(Err("too long".to_string()), &config).err().unwrap();
    assert_eq!(unread.status, 500);
    assert_eq!(
        unread.message,
        "failed to read Chat Completions response: too long"
    );
    let expected = serde_json::from_slice::<Value>(b"{\"id\"").err().unwrap().to_string();
    let broken = json_response_text(Ok(b"{\"id\"".to_vec()), &config).err().unwrap();
    assert_eq!(broken.status, 500);
    assert_eq!(
        broken.message,
        format!("invalid Chat Completions response: {expected}")
    );
    let parsed = parsed_json_response(Err("why".to_string()), &config).err().unwrap();
    assert_eq!(parsed.message, "invalid Chat Completions response: why");
}

#[test]
fn message_ids() {
    assert_eq!(anthropic_message_id(None), "msg_unknown");
    assert_eq!(anthropic_message_id(Some("")), "msg_");
    assert_eq!(anthropic_message_id(Some("abc")), "msg_abc");
    assert_eq!(anthropic_message_id(Some("chatcmpl-chatcmpl-x")), "msg_x");
    assert_eq!(anthropic_message_id(Some("msg_chatcmpl-1")), "msg_chatcmpl-1");
    for id in [None, Some(""), Some("abc"), Some("chatcmpl-1"), Some("msg_")] {
        let once = anthropic_message_id(id);
        assert!(once.starts_with("msg_"));
        assert_eq!(anthropic_message_id(Some(&once)), once);
    }
}

#[test]
fn stop_reasons() {
    let reason = |name: &str| to_serde(&map_stop_reason(Some(name)));
    assert_eq!(reason("length"), "max_tokens");
    assert_eq!(reason("tool_calls"), "tool_use");
    assert_eq!(reason("function_call"), "tool_use");
    assert_eq!(reason("stop"), "end_turn");
    assert_eq!(reason("content_filter"), "refusal");
    assert_eq!(reason("other"), "other");
    assert_eq!(to_serde(&map_stop_reason(None)), Value::Null);
}

#[test]
fn tool_calls_go_forth_and_back() {
    let block =
        r#"{"type":"tool_use","id":"t","name":"f","input":{"b":[1,-2,"x\n"],"a":{"c":null}}}"#;
    let block_json = json(block);
    let call = to_serde(&convert_tool_use(block_json.as_object().unwrap()).unwrap());
    assert_eq!(
        call["function"]["arguments"],
        r#"{"b":[1,-2,"x\n"],"a":{"c":null}}"#
    );
    let message = format!(r#"{{"tool_calls": [{call}]}}"#);
    assert_eq!(
        content(&message, "tool_calls", &config(true, true)),
        format!("[{block}]")
    );
}

#[test]
fn answers_are_sent_back() {
    let sent_back = |message: &str, config: &ResponseConfig| {
        let text = format!(r#"{{"choices": [{{"message": {message}, "finish_reason": "stop"}}]}}"#);
        let answer = convert_non_stream_value(&json(&text), config).unwrap();
        let content = answer.get("content").unwrap();
        to_serde(&convert_assistant_message(content).unwrap()).to_string()
    };
    let whole = r#"{"role":"assistant","content":"a\n","reasoning_content":" r","tool_calls":[{"id":"1","type":"function","function":{"name":"f","arguments":"{\"x\":[1,null]}"}},{"id":"2","type":"function","function":{"name":"g","arguments":"-3"}}]}"#;
    assert_eq!(sent_back(whole, &config(true, false)), whole);
    let spaced = r#"{"tool_calls": [{"id": "1", "function": {"name": "f", "arguments": " {\"x\" : 1} "}}]}"#;
    assert_eq!(
        sent_back(spaced, &config(true, false)),
        r#"{"role":"assistant","content":null,"tool_calls":[{"id":"1","type":"function","function":{"name":"f","arguments":"{\"x\":1}"}}]}"#
    );
    let empty = r#"{"content": "", "reasoning_content": ""}"#;
    assert_eq!(
        sent_back(empty, &config(true, false)),
        r#"{"role":"assistant","content":null}"#
    );
    // What the client does not get to see does not come back.
    assert_eq!(
        sent_back(r#"{"content": "a", "reasoning_content": "r"}"#, &config(false, false)),
        r#"{"role":"assistant","content":"a"}"#
    );
    assert_eq!(
        sent_back(r#"{"content": "r</think>a"}"#, &config(true, true)),
        r#"{"role":"assistant","content":"a","reasoning_content":"r"}"#
    );
}
