use anthropic_compat::event::{Delta, NewBlock, StreamEvent};
use anthropic_compat::interop::from_serde;
use anthropic_compat::sse::{extract_sse_data, format_sse, take_sse_event};

#[test]
fn parses_crlf_and_lf_sse_boundaries() {
    let mut buffer = b"data: one\r\n\r\ndata: two\n\nrest".to_vec();
    assert_eq!(
        extract_sse_data(&take_sse_event(&mut buffer).unwrap()),
        Some("one".into())
    );
    assert_eq!(
        extract_sse_data(&take_sse_event(&mut buffer).unwrap()),
        Some("two".into())
    );
    assert_eq!(buffer, b"rest");
}

#[test]
fn events_end_at_the_first_blank_line() {
    let mut buffer = b"a\n\r\nb\n\n".to_vec();
    assert_eq!(take_sse_event(&mut buffer), Some(b"a\n\r\nb".to_vec()));
    assert_eq!(take_sse_event(&mut buffer), None);
    let mut blank = b"\n\n\r\n\r\n\n".to_vec();
    assert_eq!(take_sse_event(&mut blank), Some(Vec::new()));
    assert_eq!(take_sse_event(&mut blank), Some(Vec::new()));
    assert_eq!(blank, b"\n");
    let mut mixed = b"a\r\n\r\n\n".to_vec();
    assert_eq!(take_sse_event(&mut mixed), Some(b"a".to_vec()));
    assert_eq!(mixed, b"\n");
}

#[test]
fn data_of_events() {
    let data = |event: &[u8]| extract_sse_data(event);
    assert_eq!(data(b""), None);
    assert_eq!(data(b"event: x\n: comment\ndat: y"), None);
    assert_eq!(data(b"data:"), Some("".into()));
    assert_eq!(data(b"data:a\r\nevent: x\r\ndata: \t b "), Some("a\nb ".into()));
    assert_eq!(data(b" data: a"), None);
    assert_eq!(data(b"data: a\r\r"), Some("a".into()));
    assert_eq!(data(b"data: \xc3\xa9"), Some("\u{e9}".into()));
    // Bytes that are no UTF-8 are replaced.
    assert_eq!(data(b"data: a\xffb"), Some("a\u{fffd}b".into()));
}

#[test]
fn written_events_are_read_back() {
    let value = from_serde(serde_json::from_str(r#"{"text": "a\n\nb\r\n\r\nc"}"#).unwrap());
    let text = format_sse("name", &value);
    assert_eq!(text, "event: name\ndata: {\"text\":\"a\\n\\nb\\r\\n\\r\\nc\"}\n\n");
    let mut odd = format_sse("a\r\rb\r", &value).into_bytes();
    let taken = take_sse_event(&mut odd).unwrap();
    assert!(odd.is_empty());
    assert_eq!(
        extract_sse_data(&taken).unwrap(),
        "{\"text\":\"a\\n\\nb\\r\\n\\r\\nc\"}"
    );
    let events = [
        StreamEvent::BlockStart {
            index: 4,
            block: NewBlock::Tool {
                id: "\n\n".to_string(),
                name: "data: x".to_string(),
            },
        },
        StreamEvent::BlockDelta {
            index: 4,
            delta: Delta::Text("\r\n\r\n \u{2028}".to_string()),
        },
        StreamEvent::Error {
            message: "x\n".to_string(),
        },
        StreamEvent::MessageStop,
    ];
    for event in events {
        let mut buffer = event.text().into_bytes();
        buffer.extend_from_slice(b"rest");
        let taken = take_sse_event(&mut buffer).unwrap();
        assert_eq!(buffer, b"rest");
        let data = extract_sse_data(&taken).unwrap();
        let json = from_serde(serde_json::from_str(&data).unwrap());
        assert_eq!(json, event.json());
        assert!(taken.starts_with(format!("event: {}\n", event.name()).as_bytes()));
    }
}
