use anthropic_compat::converter::AnthropicStreamConverter;
use anthropic_compat::request::ResponseConfig;
use anthropic_compat::streaming::{StreamStep, StreamingState};

fn config(include_thinking: bool, raw_thinking_fallback: bool) -> ResponseConfig {
    ResponseConfig {
        model: "kimi-2.7".to_string(),
        stream: true,
        include_thinking,
        raw_thinking_fallback,
    }
}

/// The texts for the given data, put together.
fn converted(config: ResponseConfig, data: &[&str]) -> String {
    let mut converter = AnthropicStreamConverter::new(config);
    let mut events: Vec<String> = Vec::new();
    for item in data {
        events.extend(converter.push_data(item));
    }
    events.join("")
}

/// The names of the events in a text.
fn names(text: &str) -> Vec<&str> {
    text.lines()
        .filter_map(|line| line.strip_prefix("event: "))
        .collect()
}

/// The pieces of the field `key` in the deltas of a text, put together.
fn pieces(text: &str, key: &str) -> String {
    text.lines()
        .filter_map(|line| line.strip_prefix("data: "))
        .map(|data| serde_json::from_str::<serde_json::Value>(data).unwrap())
        .filter_map(|value| value["delta"][key].as_str().map(str::to_string))
        .collect()
}

/// Everything that is sent until more has to be read or the response ends, and whether it ends.
fn sent(state: &mut StreamingState) -> (String, bool) {
    let mut text = String::new();
    loop {
        match state.next() {
            StreamStep::Send(piece) => text.push_str(&piece),
            StreamStep::Read => return (text, false),
            StreamStep::End => return (text, true),
        }
    }
}

#[test]
fn converts_stream_events_in_anthropic_order() {
    let output = converted(
        config(true, false),
        &[
            r#"{
                "id": "chatcmpl-123",
                "model": "kimi-2.7",
                "choices": [{"delta": {"reasoning_content": "Plan"}, "finish_reason": null}]
            }"#,
            r#"{"choices": [{"delta": {"content": "Hello"}, "finish_reason": null}]}"#,
            r#"{
                "choices": [{"delta": {}, "finish_reason": "stop"}],
                "usage": {"prompt_tokens": 4, "completion_tokens": 1}
            }"#,
            "[DONE]",
        ],
    );

    let message_start = output.find("event: message_start").unwrap();
    let block_start = output.find("event: content_block_start").unwrap();
    let block_delta = output.find("event: content_block_delta").unwrap();
    let block_stop = output.find("event: content_block_stop").unwrap();
    let message_delta = output.find("event: message_delta").unwrap();
    let message_stop = output.find("event: message_stop").unwrap();
    assert!(message_start < block_start);
    assert!(block_start < block_delta);
    assert!(block_delta < block_stop);
    assert!(block_stop < message_delta);
    assert!(message_delta < message_stop);
    assert!(output.contains("\"type\":\"thinking_delta\""));
    assert!(output.contains("\"type\":\"signature_delta\""));
    assert!(output.contains("\"index\":1"));
    assert!(output.contains("\"stop_reason\":\"end_turn\""));
    assert!(output.contains("\"output_tokens\":1"));
}

#[test]
fn splits_chunked_raw_kimi_thinking_in_stream_response() {
    let output = converted(
        config(true, true),
        &[
            r#"{
                "id": "chatcmpl-raw-thinking",
                "choices": [{"delta": {"content": "Compute 17 times 23.</thi"}}]
            }"#,
            r#"{"choices": [{"delta": {"content": "nk>391"}}]}"#,
            r#"{"choices": [{"delta": {}, "finish_reason": "stop"}]}"#,
            "[DONE]",
        ],
    );

    assert!(output.contains("\"type\":\"thinking_delta\",\"thinking\":\"Compute 17 times 23.\""));
    assert!(output.contains("\"type\":\"text_delta\",\"text\":\"391\""));
    assert!(output.contains("\"type\":\"signature_delta\""));
    assert!(output.contains("\"index\":1"));
    assert!(!output.contains("</think>"));
}

#[test]
fn keeps_truncated_streamed_kimi_output_as_thinking() {
    let output = converted(
        config(true, true),
        &[
            r#"{
                "id": "chatcmpl-truncated-thinking",
                "choices": [{
                    "delta": {"content": "The user wants me to reply with exactly"},
                    "finish_reason": null
                }]
            }"#,
            r#"{
                "choices": [{"delta": {}, "finish_reason": "length"}],
                "usage": {"prompt_tokens": 13, "completion_tokens": 8}
            }"#,
            "[DONE]",
        ],
    );

    assert!(output.contains("\"type\":\"thinking_delta\""));
    assert!(!output.contains("\"type\":\"text_delta\""));
    assert!(output.contains("\"stop_reason\":\"max_tokens\""));
    assert!(output.contains("\"output_tokens\":8"));
}

#[test]
fn events_of_a_whole_stream() {
    let output = converted(
        config(true, false),
        &[
            r#"{"id": "chatcmpl-1", "model": "m2", "usage": {"prompt_tokens": 3},
                "choices": [{"delta": {"reasoning_content": "r", "content": "t"}}]}"#,
            r#"{"choices": [{"delta": {"tool_calls": [
                {"index": 2, "id": "c", "function": {"name": "f", "arguments": "{\"a\""}}]}}]}"#,
            r#"{"choices": [{"delta": {"tool_calls": [
                {"index": 2, "function": {"arguments": ":1}"}},
                {"function": {}}]}, "finish_reason": "tool_calls"}]}"#,
            r#"{"choices": [], "usage": {"completion_tokens": 9}}"#,
            " [DONE]\n",
        ],
    );
    let expected = [
        ("message_start", r#"{"type":"message_start","message":{"id":"msg_1","type":"message","role":"assistant","content":[],"model":"m2","stop_reason":null,"stop_sequence":null,"usage":{"input_tokens":3,"output_tokens":0}}}"#),
        ("content_block_start", r#"{"type":"content_block_start","index":0,"content_block":{"type":"thinking","thinking":"","signature":""}}"#),
        ("content_block_delta", r#"{"type":"content_block_delta","index":0,"delta":{"type":"thinking_delta","thinking":"r"}}"#),
        ("content_block_delta", r#"{"type":"content_block_delta","index":0,"delta":{"type":"signature_delta","signature":""}}"#),
        ("content_block_stop", r#"{"type":"content_block_stop","index":0}"#),
        ("content_block_start", r#"{"type":"content_block_start","index":1,"content_block":{"type":"text","text":""}}"#),
        ("content_block_delta", r#"{"type":"content_block_delta","index":1,"delta":{"type":"text_delta","text":"t"}}"#),
        ("content_block_stop", r#"{"type":"content_block_stop","index":1}"#),
        ("content_block_start", r#"{"type":"content_block_start","index":2,"content_block":{"type":"tool_use","id":"c","name":"f","input":{}}}"#),
        ("content_block_delta", r#"{"type":"content_block_delta","index":2,"delta":{"type":"input_json_delta","partial_json":"{\"a\""}}"#),
        ("content_block_delta", r#"{"type":"content_block_delta","index":2,"delta":{"type":"input_json_delta","partial_json":":1}"}}"#),
        ("content_block_stop", r#"{"type":"content_block_stop","index":2}"#),
        ("content_block_start", r#"{"type":"content_block_start","index":3,"content_block":{"type":"tool_use","id":"toolu_0","name":"unknown","input":{}}}"#),
        ("content_block_stop", r#"{"type":"content_block_stop","index":3}"#),
        ("message_delta", r#"{"type":"message_delta","delta":{"stop_reason":"tool_use","stop_sequence":null},"usage":{"output_tokens":9}}"#),
        ("message_stop", r#"{"type":"message_stop"}"#),
    ];
    let text: String = expected
        .iter()
        .map(|(name, data)| format!("event: {name}\ndata: {data}\n\n"))
        .collect();
    assert_eq!(output, text);
}

#[test]
fn message_is_ended_once() {
    let mut converter = AnthropicStreamConverter::new(config(true, true));
    let first = converter.push_data("[DONE]").join("");
    assert_eq!(names(&first), ["message_start", "message_delta", "message_stop"]);
    assert!(first.contains(r#""id":"msg_unknown""#));
    assert!(first.contains(r#""model":"kimi-2.7""#));
    assert!(first.contains(r#""stop_reason":null"#));
    assert!(converter.push_data("[DONE]").is_empty());
    assert!(converter.finish().is_empty());
    // What brings nothing of the answer may still come.
    let late = r#"{"choices": [{"delta": {"content": ""}}], "usage": {"completion_tokens": 1}}"#;
    assert!(converter.push_data(late).is_empty());
    assert_eq!(names(&converter.push_data("{").join("")), ["error"]);
}

#[test]
fn data_that_is_no_json_is_reported() {
    let expected = serde_json::from_str::<serde_json::Value>("{oops")
        .err()
        .unwrap()
        .to_string();
    let output = converted(config(true, true), &["{oops"]);
    assert_eq!(
        output,
        format!(
            "event: error\ndata: {{\"type\":\"error\",\"error\":{{\"type\":\"api_error\",\"message\":\"invalid upstream SSE event: {expected}\"}}}}\n\n"
        )
    );
}

#[test]
fn stream_shows_what_the_whole_answer_shows() {
    let delta = |field: &str, text: &str| format!(r#"{{"choices": [{{"delta": {{"{field}": "{text}"}}}}]}}"#);
    let stream = |config: ResponseConfig, deltas: &[(&str, &str)]| {
        let mut data: Vec<String> = deltas.iter().map(|(f, t)| delta(f, t)).collect();
        data.push("[DONE]".to_string());
        let data: Vec<&str> = data.iter().map(|item| item.as_str()).collect();
        let output = converted(config, &data);
        (pieces(&output, "thinking"), pieces(&output, "text"))
    };
    let shown = |thinking: &str, text: &str| (thinking.to_string(), text.to_string());
    let mixed = [("reasoning_content", "a"), ("content", "b "), ("reasoning_content", "c"), ("content", " d")];
    assert_eq!(stream(config(true, false), &mixed), shown("ac", "b  d"));
    assert_eq!(stream(config(false, false), &mixed), shown("", "b  d"));
    // However the answer is cut up, the reasoning is the same.
    for cut in 0..17 {
        let answer = "<think>a</think>b";
        let cuts = [("content", &answer[..cut]), ("content", &answer[cut..])];
        assert_eq!(stream(config(true, true), &cuts), shown("a", "b"));
    }
    // White space behind the tag is left out only in the piece that completes the tag.
    let spaced = [("content", "a</think>"), ("content", " b")];
    assert_eq!(stream(config(true, true), &spaced), shown("a", " b"));
    let together = [("content", "a</think> b")];
    assert_eq!(stream(config(true, true), &together), shown("a", "b"));
    // Text in front of marked reasoning has been held back until then.
    let late = [("content", "x"), ("reasoning_content", "r"), ("content", "y</think>")];
    assert_eq!(stream(config(true, true), &late), shown("r", "xy</think>"));
    // A tag that was complete before has already been taken for the end of the reasoning.
    let too_late = [("content", "a</think>b"), ("reasoning_content", "r")];
    assert_eq!(stream(config(true, true), &too_late), shown("ar", "b"));
}

#[test]
fn streamed_response() {
    let body = "data: {\"choices\": [{\"delta\": {\"content\": \"Hi \u{00e9}\"}}]}\r\n\r\ndata: {\"choices\": [{\"delta\": {}, \"finish_reason\": \"stop\"}]}\n\ndata: [DONE]\n\n";
    let mut whole = StreamingState::new(config(true, false));
    assert_eq!(sent(&mut whole), (String::new(), false));
    whole.received(body.as_bytes());
    let (text, over) = sent(&mut whole);
    assert!(!over);
    assert_eq!(
        names(&text),
        [
            "message_start",
            "content_block_start",
            "content_block_delta",
            "content_block_stop",
            "message_delta",
            "message_stop"
        ]
    );
    assert_eq!(pieces(&text, "text"), "Hi \u{00e9}");
    whole.ended();
    assert_eq!(sent(&mut whole), (String::new(), true));
    // It does not matter how the bytes arrive.
    for size in [1, 2, 3, 7, 50] {
        let mut state = StreamingState::new(config(true, false));
        let mut output = String::new();
        for piece in body.as_bytes().chunks(size) {
            state.received(piece);
            output.push_str(&sent(&mut state).0);
        }
        state.ended();
        output.push_str(&sent(&mut state).0);
        assert_eq!(output, text);
    }
}

/// What is sent of a response that arrives in pieces of the given size and then ends.
fn delivered(config: ResponseConfig, body: &[u8], size: usize) -> String {
    let mut state = StreamingState::new(config);
    let mut output = sent(&mut state).0;
    for piece in body.chunks(size) {
        state.received(piece);
        output.push_str(&sent(&mut state).0);
    }
    state.ended();
    let (last, over) = sent(&mut state);
    assert!(over);
    output + &last
}

#[test]
fn cuts_make_no_difference() {
    let first = r#"{"choices": [{"delta": {"content": "x<"}}]}"#;
    let second = r#"{"choices": [{"delta": {"content": "y"}, "finish_reason": "length"}]}"#;
    let mut converter = AnthropicStreamConverter::new(config(true, true));
    let mut expected = converter.push_data(first);
    expected.extend(converter.push_data(second));
    expected.extend(converter.finish());
    let expected = expected.join("");
    // What is left at the end counts as the last event.
    for end in ["", "\n", "\r", "\r\n", "\r\n\r", "\n\n", "\r\n\r\n"] {
        let body = format!("data: {first}\r\n\r\nevent: z\ndata:{second}{end}");
        for size in 1..=body.len() {
            assert_eq!(delivered(config(true, true), body.as_bytes(), size), expected);
        }
    }
}

#[test]
fn response_without_an_end_is_completed() {
    let mut state = StreamingState::new(config(true, false));
    state.received(b"data: {\"choices\": [{\"delta\": {\"content\": \"x\"}}]}");
    assert_eq!(state.next(), StreamStep::Read);
    state.ended();
    let (text, over) = sent(&mut state);
    assert!(over);
    assert_eq!(
        names(&text),
        [
            "message_start",
            "content_block_start",
            "content_block_delta",
            "content_block_stop",
            "message_delta",
            "message_stop"
        ]
    );
    assert_eq!(state.next(), StreamStep::End);
}

#[test]
fn failed_upstream_is_reported() {
    let mut state = StreamingState::new(config(true, false));
    state.failed("connection reset");
    let (text, over) = sent(&mut state);
    assert!(over);
    assert!(text.starts_with(
        "event: error\ndata: {\"type\":\"error\",\"error\":{\"type\":\"api_error\",\"message\":\"upstream stream failed: connection reset\"}}\n\n"
    ));
    assert_eq!(
        names(&text),
        ["error", "message_start", "message_delta", "message_stop"]
    );
    let mut late = StreamingState::new(config(true, false));
    late.received(b"data: {}\n\ndata: {\"id\"");
    assert_eq!(names(&sent(&mut late).0), ["message_start"]);
    late.failed("gone");
    let (text, over) = sent(&mut late);
    assert!(over);
    assert_eq!(names(&text), ["error", "message_delta", "message_stop"]);
}

#[test]
fn event_without_data_makes_the_response_read_on() {
    let mut state = StreamingState::new(config(true, false));
    state.received(b": ping\n\ndata: {}\n\n");
    assert_eq!(state.next(), StreamStep::Read);
    assert!(matches!(state.next(), StreamStep::Send(_)));
}
